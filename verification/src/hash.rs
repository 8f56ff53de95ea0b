//! The hash-indexed collections that this crate keeps, and what it relies
//! on them for.
//!
//! The collections are `hashbrown`'s. Their code is not verified here: each
//! function below states what the rest of the crate takes for granted of one
//! of their methods.
use crate::bytes::byte_views;
use crate::certificate::{Certificate, CertificateValue};
use vstd::prelude::*;

verus! {

/// A hash set of octet strings: `hashbrown::HashSet<Vec<u8>>`.
#[verifier::external_body]
#[derive(Debug)]
pub struct ByteSet {
    inner: hashbrown::HashSet<Vec<u8>>,
}

/// The octet strings that the set holds.
pub uninterp spec fn byte_set_contents(set: ByteSet) -> Set<Seq<u8>>;

/// `HashSet::new`: a set that holds nothing.
#[verifier::external_body]
pub(crate) fn byte_set_new() -> (set: ByteSet)
    ensures
        byte_set_contents(set) == Set::<Seq<u8>>::empty(),
{
    ByteSet { inner: hashbrown::HashSet::new() }
}

/// `HashSet::insert`: afterwards the set holds the item beside what it
/// held; the result tells whether the item was new.
#[verifier::external_body]
pub(crate) fn byte_set_insert(set: &mut ByteSet, item: Vec<u8>) -> (fresh: bool)
    ensures
        byte_set_contents(*final(set)) == byte_set_contents(*old(set)).insert(item@),
        fresh == !byte_set_contents(*old(set)).contains(item@),
{
    set.inner.insert(item)
}

/// `HashSet::remove`: afterwards the set holds what it held but the item;
/// the result tells whether the item was there.
#[verifier::external_body]
pub(crate) fn byte_set_remove(set: &mut ByteSet, item: &[u8]) -> (found: bool)
    ensures
        byte_set_contents(*final(set)) == byte_set_contents(*old(set)).remove(item@),
        found == byte_set_contents(*old(set)).contains(item@),
{
    set.inner.remove(item)
}

/// `HashSet::contains`: whether the set holds the item.
#[verifier::external_body]
pub(crate) fn byte_set_contains(set: &ByteSet, item: &[u8]) -> (found: bool)
    ensures
        found == byte_set_contents(*set).contains(item@),
{
    set.inner.contains(item)
}

/// `HashSet::len`: how many items the set holds.
#[verifier::external_body]
pub(crate) fn byte_set_len(set: &ByteSet) -> (n: usize)
    ensures
        n == byte_set_contents(*set).len(),
{
    set.inner.len()
}

/// `HashSet::iter`: every item of the set once, in an order that is not
/// stated.
#[verifier::external_body]
pub(crate) fn byte_set_items(set: &ByteSet) -> (items: Vec<Vec<u8>>)
    ensures
        byte_views(items@).no_duplicates(),
        byte_views(items@).to_set() == byte_set_contents(*set),
{
    set.inner.iter().cloned().collect()
}

/// A hash map from octet strings to certificates:
/// `hashbrown::HashMap<Vec<u8>, Certificate>`.
#[verifier::external_body]
#[derive(Debug)]
pub struct CertificateMap {
    inner: hashbrown::HashMap<Vec<u8>, Certificate>,
}

/// The certificates that the map holds, each under its key.
pub uninterp spec fn certificate_map_contents(map: CertificateMap) -> Map<
    Seq<u8>,
    CertificateValue,
>;

/// The map that holds no certificate.
pub open spec fn no_certificates() -> Map<Seq<u8>, CertificateValue> {
    Map::empty()
}

/// The keys of a list of entries.
pub open spec fn entry_keys(entries: Seq<(Vec<u8>, &Certificate)>) -> Seq<Seq<u8>> {
    Seq::new(entries.len(), |i: int| entries[i].0@)
}

/// `HashMap::new`: a map that holds nothing.
#[verifier::external_body]
pub(crate) fn certificate_map_new() -> (map: CertificateMap)
    ensures
        certificate_map_contents(map) == no_certificates(),
{
    CertificateMap { inner: hashbrown::HashMap::new() }
}

/// `HashMap::insert`: afterwards the map holds the certificate under the
/// key, and what it held under other keys; the result is what it held
/// under the key before.
#[verifier::external_body]
pub(crate) fn certificate_map_insert(
    map: &mut CertificateMap,
    key: Vec<u8>,
    certificate: Certificate,
) -> (previous: Option<Certificate>)
    ensures
        certificate_map_contents(*final(map)) == certificate_map_contents(*old(map)).insert(
            key@,
            certificate@,
        ),
        match previous {
            Some(p) => certificate_map_contents(*old(map)).contains_key(key@)
                && certificate_map_contents(*old(map))[key@] == p@,
            None => !certificate_map_contents(*old(map)).contains_key(key@),
        },
{
    map.inner.insert(key, certificate)
}

/// `HashMap::remove`: afterwards the map holds nothing under the key, and
/// what it held under other keys; the result is what it held under the key.
#[verifier::external_body]
pub(crate) fn certificate_map_remove(map: &mut CertificateMap, key: &[u8]) -> (previous: Option<
    Certificate,
>)
    ensures
        certificate_map_contents(*final(map)) == certificate_map_contents(*old(map)).remove(key@),
        match previous {
            Some(p) => certificate_map_contents(*old(map)).contains_key(key@)
                && certificate_map_contents(*old(map))[key@] == p@,
            None => !certificate_map_contents(*old(map)).contains_key(key@),
        },
{
    map.inner.remove(key)
}

/// `HashMap::get`: what the map holds under the key.
#[verifier::external_body]
pub(crate) fn certificate_map_get<'a>(map: &'a CertificateMap, key: &[u8]) -> (found: Option<
    &'a Certificate,
>)
    ensures
        match found {
            Some(c) => certificate_map_contents(*map).contains_key(key@)
                && certificate_map_contents(*map)[key@] == c@,
            None => !certificate_map_contents(*map).contains_key(key@),
        },
{
    map.inner.get(key)
}

/// `HashMap::iter`: every entry of the map once, in an order that is not
/// stated, each key copied.
#[verifier::external_body]
pub(crate) fn certificate_map_entries<'a>(map: &'a CertificateMap) -> (entries: Vec<
    (Vec<u8>, &'a Certificate),
>)
    ensures
        entry_keys(entries@).no_duplicates(),
        entry_keys(entries@).to_set() == certificate_map_contents(*map).dom(),
        forall|i: int|
            0 <= i < entries@.len() ==> certificate_map_contents(*map)[#[trigger] entries@[i].0@]
                == entries@[i].1@,
{
    map.inner.iter().map(|(key, certificate)| (key.clone(), certificate)).collect()
}

} // verus!
