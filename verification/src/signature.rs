//! Signature verification, which this crate takes from `x509-verify`.
use crate::oid;
use vstd::prelude::*;
use x509_verify::der::asn1::{AnyRef, BitStringRef, ObjectIdentifier};
use x509_verify::spki::{AlgorithmIdentifierRef, SubjectPublicKeyInfoRef};
use x509_verify::{Message, Signature, VerifyInfo, VerifyingKey};

verus! {

/// A public key: the identifier of its algorithm, the encoded parameters
/// of the algorithm and the octets of the key.
#[derive(Clone, Copy, Debug)]
pub struct PublicKey<'a> {
    pub algorithm: &'a [u8],
    pub parameters: Option<&'a [u8]>,
    pub key: &'a [u8],
}

/// A public key as a mathematical value.
pub struct PublicKeyValue {
    pub algorithm: Seq<u8>,
    pub parameters: Option<Seq<u8>>,
    pub key: Seq<u8>,
}

impl<'a> View for PublicKey<'a> {
    type V = PublicKeyValue;

    open spec fn view(&self) -> PublicKeyValue {
        PublicKeyValue {
            algorithm: self.algorithm@,
            parameters: match self.parameters {
                Some(p) => Some(p@),
                None => None,
            },
            key: self.key@,
        }
    }
}

/// Whether `signature`, made with the algorithm that `algorithm`
/// identifies, is a signature of `message` under the key `key`.
pub uninterp spec fn signature_valid(
    key: PublicKeyValue,
    algorithm: Seq<u8>,
    signature: Seq<u8>,
    message: Seq<u8>,
) -> bool;

/// Whether a key can be handed to the verifier: an Ed25519 key has to have
/// 32 octets.
pub open spec fn key_usable(key: PublicKeyValue) -> bool {
    key.algorithm == oid::ed25519() ==> key.key.len() == 32
}

/// Whether a signature is accepted: the key is usable and the signature valid.
pub open spec fn signature_accepted(
    key: PublicKeyValue,
    algorithm: Seq<u8>,
    signature: Seq<u8>,
    message: Seq<u8>,
) -> bool {
    key_usable(key) && signature_valid(key, algorithm, signature, message)
}

/// `VerifyingKey::new` and `VerifyingKey::verify` of `x509-verify`, on a
/// key and a signature put together from their parts: whether the key could
/// be made and the signature verified. The verifier copies an Ed25519 key
/// into 32 octets, so no other length may reach it.
#[verifier::external_body]
pub(crate) fn verify_with_key(
    key: &PublicKey<'_>,
    algorithm: &[u8],
    signature: &[u8],
    message: &[u8],
) -> (valid: bool)
    requires
        key_usable(key@),
    ensures
        valid == signature_valid(key@, algorithm@, signature@, message@),
{
    let Ok(oid) = ObjectIdentifier::from_bytes(key.algorithm) else { return false };
    let Ok(parameters) = key.parameters.map(AnyRef::try_from).transpose() else { return false };
    let Ok(subject_public_key) = BitStringRef::from_bytes(key.key) else { return false };
    let Ok(signed_with) = ObjectIdentifier::from_bytes(algorithm) else { return false };
    let algorithm = AlgorithmIdentifierRef { oid, parameters };
    let Ok(key) = VerifyingKey::new(SubjectPublicKeyInfoRef { algorithm, subject_public_key })
    else { return false };
    let signed_with = AlgorithmIdentifierRef { oid: signed_with, parameters: None };
    key.verify(VerifyInfo::new(Message::new(message), Signature::from_ref(signed_with, signature)))
        .is_ok()
}

/// Verifies a signature. A key that cannot be handed to the verifier
/// verifies nothing.
pub fn verify_signature(
    key: &PublicKey<'_>,
    algorithm: &[u8],
    signature: &[u8],
    message: &[u8],
) -> (accepted: bool)
    ensures
        accepted == signature_accepted(key@, algorithm@, signature@, message@),
{
    if oid::is_ed25519(key.algorithm) && key.key.len() != 32 {
        false
    } else {
        verify_with_key(key, algorithm, signature, message)
    }
}

} // verus!
