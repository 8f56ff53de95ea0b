//! Certificate loaders: where a certificate store keeps its certificates.
use crate::certificate::{Certificate, CertificateValue};
use vstd::prelude::*;

pub mod mem;

pub use mem::MemLoader;

verus! {

/// The identities of a list of entries.
pub open spec fn entry_ids<Id: View>(entries: Seq<(Id, &Certificate)>) -> Seq<Id::V> {
    Seq::new(entries.len(), |i: int| entries[i].0@)
}

/// Trait for defining a certificate loader to be used within the
/// certificate store. A loader holds at most one certificate under an
/// identity; it says what it holds by `contents`.
pub trait Loader<Id: View>: Sized {
    /// The certificates that the loader holds, each under its identity.
    spec fn contents(&self) -> Map<Id::V, CertificateValue>;

    /// A loader that holds nothing.
    fn empty() -> (loader: Self)
        ensures
            loader.contents() == Map::<Id::V, CertificateValue>::empty(),
    ;

    /// Inserts a certificate into the internal storage. Returns the
    /// certificate it replaces, if any; `None` otherwise.
    fn insert(&mut self, id: Id, cert: Certificate) -> (previous: Option<Certificate>)
        ensures
            final(self).contents() == old(self).contents().insert(id@, cert@),
            match previous {
                Some(p) => old(self).contents().contains_key(id@) && old(self).contents()[id@]
                    == p@,
                None => !old(self).contents().contains_key(id@),
            },
    ;

    /// Removes a certificate from the internal storage and returns it.
    /// Returns `None` if nothing was removed.
    fn remove(&mut self, id: &Id) -> (previous: Option<Certificate>)
        ensures
            final(self).contents() == old(self).contents().remove(id@),
            match previous {
                Some(p) => old(self).contents().contains_key(id@) && old(self).contents()[id@]
                    == p@,
                None => !old(self).contents().contains_key(id@),
            },
    ;

    /// Retrieves a certificate from the internal storage. Returns `None`
    /// if no certificate was found.
    fn get(&self, id: &Id) -> (found: Option<&Certificate>)
        ensures
            match found {
                Some(c) => self.contents().contains_key(id@) && self.contents()[id@] == c@,
                None => !self.contents().contains_key(id@),
            },
    ;

    /// The entries of the internal storage, each once, in no stated order.
    /// A fresh call gives the entries as they are then.
    fn iter(&self) -> (entries: Vec<(Id, &Certificate)>)
        ensures
            entry_ids(entries@).no_duplicates(),
            entry_ids(entries@).to_set() == self.contents().dom(),
            forall|i: int|
                0 <= i < entries@.len() ==> self.contents()[#[trigger] entries@[i].0@]
                    == entries@[i].1@,
    ;
}

} // verus!
