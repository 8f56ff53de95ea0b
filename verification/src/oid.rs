//! The object identifiers that path validation looks for, each as the
//! content octets of its encoding.
use crate::bytes::bytes_eq;
use vstd::prelude::*;

verus! {

/// `id-ce-subjectKeyIdentifier`, 2.5.29.14.
pub open spec fn subject_key_identifier() -> Seq<u8> {
    seq![0x55u8, 0x1d, 0x0e]
}

/// `id-ce-subjectAltName`, 2.5.29.17.
pub open spec fn subject_alt_name() -> Seq<u8> {
    seq![0x55u8, 0x1d, 0x11]
}

/// `id-ce-basicConstraints`, 2.5.29.19.
pub open spec fn basic_constraints() -> Seq<u8> {
    seq![0x55u8, 0x1d, 0x13]
}

/// `id-ce-nameConstraints`, 2.5.29.30.
pub open spec fn name_constraints() -> Seq<u8> {
    seq![0x55u8, 0x1d, 0x1e]
}

/// `id-ce-certificatePolicies`, 2.5.29.32.
pub open spec fn certificate_policies() -> Seq<u8> {
    seq![0x55u8, 0x1d, 0x20]
}

/// `anyPolicy`, 2.5.29.32.0.
pub open spec fn any_policy() -> Seq<u8> {
    seq![0x55u8, 0x1d, 0x20, 0x00]
}

/// `id-ce-authorityKeyIdentifier`, 2.5.29.35.
pub open spec fn authority_key_identifier() -> Seq<u8> {
    seq![0x55u8, 0x1d, 0x23]
}

/// `id-ce-policyConstraints`, 2.5.29.36.
pub open spec fn policy_constraints() -> Seq<u8> {
    seq![0x55u8, 0x1d, 0x24]
}

/// `id-ce-inhibitAnyPolicy`, 2.5.29.54.
pub open spec fn inhibit_any_policy() -> Seq<u8> {
    seq![0x55u8, 0x1d, 0x36]
}

/// `id-Ed25519`, 1.3.101.112.
pub open spec fn ed25519() -> Seq<u8> {
    seq![0x2bu8, 0x65, 0x70]
}

/// Whether `oid` is the identifier under the arc 2.5.29 whose last octet is `last`.
pub fn is_extension(oid: &[u8], last: u8) -> (same: bool)
    ensures
        same == (oid@ == seq![0x55u8, 0x1d, last]),
{
    let same = oid.len() == 3 && oid[0] == 0x55 && oid[1] == 0x1d && oid[2] == last;
    if same {
        assert(oid@ =~= seq![0x55u8, 0x1d, last]);
    } else if oid.len() == 3 {
        assert(seq![0x55u8, 0x1d, last][0] == 0x55u8);
        assert(seq![0x55u8, 0x1d, last][1] == 0x1du8);
        assert(seq![0x55u8, 0x1d, last][2] == last);
    } else {
        assert(seq![0x55u8, 0x1d, last].len() == 3);
    }
    same
}

/// The identifier `anyPolicy`.
pub fn any_policy_oid() -> (oid: [u8; 4])
    ensures
        oid@ == any_policy(),
{
    let oid = [0x55u8, 0x1d, 0x20, 0x00];
    assert(oid@ =~= any_policy());
    oid
}

/// Whether `oid` is `anyPolicy`.
pub fn is_any_policy(oid: &[u8]) -> (same: bool)
    ensures
        same == (oid@ == any_policy()),
{
    let any = any_policy_oid();
    bytes_eq(oid, any.as_slice())
}

/// Whether `oid` is `id-Ed25519`.
pub fn is_ed25519(oid: &[u8]) -> (same: bool)
    ensures
        same == (oid@ == ed25519()),
{
    let id = [0x2bu8, 0x65, 0x70];
    assert(id@ =~= ed25519());
    bytes_eq(oid, id.as_slice())
}

/// The dotted decimal form of the identifier whose encoding has the content
/// `bytes`; `None` where `bytes` is not the content of an identifier.
pub uninterp spec fn oid_text(bytes: Seq<u8>) -> Option<Seq<char>>;

/// `ObjectIdentifier::from_bytes` of `const-oid` and its `Display`: the
/// identifier written in dotted decimal.
#[verifier::external_body]
pub(crate) fn format_oid(bytes: &[u8]) -> (text: Option<String>)
    ensures
        match text {
            Some(t) => oid_text(bytes@) == Some(t@),
            None => oid_text(bytes@) is None,
        },
{
    const_oid::ObjectIdentifier::from_bytes(bytes).ok().map(|oid| oid.to_string())
}

} // verus!
