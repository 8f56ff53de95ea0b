//! The decoders of extension values that this crate takes from `der` and
//! `x509-cert`.
//!
//! Each decoder is called through one function below. What a decoder makes
//! of given octets is not stated here: it has a name, and the function says
//! that the decoder's result is what the name stands for. Of a decoder's
//! error nothing is kept but that there was one.
use crate::bytes::byte_views;
use vstd::prelude::*;

verus! {

/// Whether a certificate is a certification authority, and how many
/// authorities may follow it: the content of a basic constraints extension.
#[derive(Clone, Copy, Debug, PartialEq, Eq, Structural)]
pub struct BasicConstraints {
    pub ca: bool,
    pub path_len_constraint: Option<u8>,
}

/// The numbers of certificates after which an explicit policy is required
/// and policy mapping is inhibited: the content of a policy constraints
/// extension.
#[derive(Clone, Copy, Debug, PartialEq, Eq, Structural)]
pub struct PolicyConstraints {
    pub require_explicit_policy: Option<u32>,
    pub inhibit_policy_mapping: Option<u32>,
}

/// The content of the OCTET STRING that `bytes` encodes.
pub uninterp spec fn octet_string_der(bytes: Seq<u8>) -> Option<Seq<u8>>;

/// The policy identifiers of the certificate policies that `bytes` encodes,
/// in their order.
pub uninterp spec fn certificate_policies_der(bytes: Seq<u8>) -> Option<Seq<Seq<u8>>>;

/// The basic constraints that `bytes` encodes.
pub uninterp spec fn basic_constraints_der(bytes: Seq<u8>) -> Option<BasicConstraints>;

/// The key identifier of the authority key identifier that `bytes` encodes.
pub uninterp spec fn authority_key_identifier_der(bytes: Seq<u8>) -> Option<Option<Seq<u8>>>;

/// The policy constraints that `bytes` encodes.
pub uninterp spec fn policy_constraints_der(bytes: Seq<u8>) -> Option<PolicyConstraints>;

/// The number of certificates that the inhibit anyPolicy extension encoded
/// by `bytes` states.
pub uninterp spec fn inhibit_any_policy_der(bytes: Seq<u8>) -> Option<u32>;

/// `OctetStringRef::from_der` of `der`: the content of the octet string,
/// borrowed from `bytes`.
#[verifier::external_body]
pub(crate) fn decode_octet_string<'a>(bytes: &'a [u8]) -> (r: Option<&'a [u8]>)
    ensures
        match r {
            Some(content) => octet_string_der(bytes@) == Some(content@),
            None => octet_string_der(bytes@) is None,
        },
{
    let decoded: der::asn1::OctetStringRef<'a> = der::Decode::from_der(bytes).ok()?;
    Some(decoded.as_bytes())
}

/// `CertificatePolicies::from_der` of `x509-cert`: the policy identifier of
/// each policy, as `ObjectIdentifier::as_bytes` gives it.
#[verifier::external_body]
pub(crate) fn decode_certificate_policies(bytes: &[u8]) -> (r: Option<Vec<Vec<u8>>>)
    ensures
        match r {
            Some(policies) => certificate_policies_der(bytes@) == Some(byte_views(policies@)),
            None => certificate_policies_der(bytes@) is None,
        },
{
    let decoded: x509_cert::ext::pkix::CertificatePolicies = der::Decode::from_der(bytes).ok()?;
    Some(decoded.0.iter().map(|p| p.policy_identifier.as_bytes().to_vec()).collect())
}

/// `BasicConstraints::from_der` of `x509-cert`.
#[verifier::external_body]
pub(crate) fn decode_basic_constraints(bytes: &[u8]) -> (r: Option<BasicConstraints>)
    ensures
        r == basic_constraints_der(bytes@),
{
    let decoded: x509_cert::ext::pkix::BasicConstraints = der::Decode::from_der(bytes).ok()?;
    Some(BasicConstraints { ca: decoded.ca, path_len_constraint: decoded.path_len_constraint })
}

/// `AuthorityKeyIdentifier::from_der` of `x509-cert`: the key identifier,
/// where the extension has one.
#[verifier::external_body]
pub(crate) fn decode_authority_key_identifier(bytes: &[u8]) -> (r: Option<Option<Vec<u8>>>)
    ensures
        match r {
            Some(Some(id)) => authority_key_identifier_der(bytes@) == Some(Some(id@)),
            Some(None) => authority_key_identifier_der(bytes@) == Some(None::<Seq<u8>>),
            None => authority_key_identifier_der(bytes@) is None,
        },
{
    let decoded: x509_cert::ext::pkix::AuthorityKeyIdentifier = der::Decode::from_der(bytes).ok()?;
    Some(decoded.key_identifier.map(|id| id.as_bytes().to_vec()))
}

/// `PolicyConstraints::from_der` of `x509-cert`.
#[verifier::external_body]
pub(crate) fn decode_policy_constraints(bytes: &[u8]) -> (r: Option<PolicyConstraints>)
    ensures
        r == policy_constraints_der(bytes@),
{
    let decoded: x509_cert::ext::pkix::PolicyConstraints = der::Decode::from_der(bytes).ok()?;
    Some(
        PolicyConstraints {
            require_explicit_policy: decoded.require_explicit_policy,
            inhibit_policy_mapping: decoded.inhibit_policy_mapping,
        },
    )
}

/// `InhibitAnyPolicy::from_der` of `x509-cert`.
#[verifier::external_body]
pub(crate) fn decode_inhibit_any_policy(bytes: &[u8]) -> (r: Option<u32>)
    ensures
        r == inhibit_any_policy_der(bytes@),
{
    let decoded: x509_cert::ext::pkix::InhibitAnyPolicy = der::Decode::from_der(bytes).ok()?;
    Some(decoded.0)
}

} // verus!
