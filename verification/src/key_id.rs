//! Key identifiers: what links a certificate to the key that signed it.
use crate::bytes::bytes_eq;
use crate::error::CertificateError;
use crate::ext::{decode_octet_string, octet_string_der};
use digest::Digest;
use vstd::prelude::*;

verus! {

/// SHA-1 digest output size.
pub const OUTPUT_SIZE: usize = 20;

/// The SHA-1 digest of `data`.
pub uninterp spec fn sha1_digest(data: Seq<u8>) -> Seq<u8>;

/// `Sha1::new_with_prefix` and `finalize_into` of `sha1`: the digest of `data`.
#[verifier::external_body]
pub(crate) fn sha1(data: &[u8]) -> (output: [u8; 20])
    ensures
        output@ == sha1_digest(data@),
{
    let mut output = [0u8; 20];
    sha1::Sha1::new_with_prefix(data).finalize_into((&mut output).into());
    output
}

/// The content of a subject key identifier extension, borrowed from it.
#[derive(Copy, Clone, Debug)]
pub struct SubjectKeyIdentifierRef<'a>(pub &'a [u8]);

impl<'a> SubjectKeyIdentifierRef<'a> {
    /// Reads the value of a subject key identifier extension: an OCTET
    /// STRING. Fails with `CertificateError::Asn1` where it is none.
    pub fn from_der(bytes: &'a [u8]) -> (r: Result<SubjectKeyIdentifierRef<'a>, CertificateError>)
        ensures
            match r {
                Ok(id) => octet_string_der(bytes@) == Some(id.0@),
                Err(e) => octet_string_der(bytes@) is None && e is Asn1,
            },
    {
        match decode_octet_string(bytes) {
            Some(content) => Ok(SubjectKeyIdentifierRef(content)),
            None => Err(CertificateError::Asn1),
        }
    }
}

/// Subject key identifier representation.
#[derive(Copy, Clone, Debug)]
pub enum KeyIdentifier<'a> {
    /// Referenced from subject key identifier extension.
    Referenced(&'a [u8]),
    /// SHA-1 digest of the subject public key.
    Owned([u8; 20]),
}

/// The key identifier of a certificate whose subject key identifier
/// extension, if it has one, holds `extension`, and whose public key is
/// `public_key`: what the extension holds, else the SHA-1 digest of the key.
pub open spec fn key_identifier_of(extension: Option<Seq<u8>>, public_key: Seq<u8>) -> Seq<u8> {
    match extension {
        Some(id) => id,
        None => sha1_digest(public_key),
    }
}

impl<'a> KeyIdentifier<'a> {
    /// The octets of the identifier, wherever they are held.
    pub open spec fn bytes(&self) -> Seq<u8> {
        match self {
            KeyIdentifier::Referenced(id) => id@,
            KeyIdentifier::Owned(digest) => digest@,
        }
    }

    /// The octets of the identifier.
    pub fn as_bytes(&self) -> (bytes: &[u8])
        ensures
            bytes@ == self.bytes(),
    {
        match self {
            KeyIdentifier::Referenced(id) => id,
            KeyIdentifier::Owned(digest) => digest.as_slice(),
        }
    }

    /// The identifier that a subject key identifier extension states.
    pub fn from_extension(other: SubjectKeyIdentifierRef<'a>) -> (id: KeyIdentifier<'a>)
        ensures
            id == KeyIdentifier::Referenced(other.0),
            id.bytes() == other.0@,
    {
        KeyIdentifier::Referenced(other.0)
    }

    /// The identifier of a public key: its SHA-1 digest. `public_key` is the
    /// content of the key's bit string, without the octet that counts the
    /// unused bits.
    pub fn from_public_key(public_key: &[u8]) -> (id: KeyIdentifier<'static>)
        ensures
            id is Owned,
            id.bytes() == sha1_digest(public_key@),
            id.bytes().len() == OUTPUT_SIZE,
    {
        KeyIdentifier::Owned(sha1(public_key))
    }

    /// The identifier of a certificate: that of its subject key identifier
    /// extension where it has one, else the SHA-1 digest of its public key.
    pub fn resolve(extension: Option<SubjectKeyIdentifierRef<'a>>, public_key: &[u8]) -> (id:
        KeyIdentifier<'a>)
        ensures
            id.bytes() == key_identifier_of(
                match extension {
                    Some(e) => Some(e.0@),
                    None => None,
                },
                public_key@,
            ),
            extension is Some ==> id is Referenced,
            extension is None ==> id is Owned,
    {
        match extension {
            Some(e) => KeyIdentifier::from_extension(e),
            None => KeyIdentifier::from_public_key(public_key),
        }
    }

    /// Whether two identifiers hold the same octets, wherever they are held.
    pub fn same(&self, other: &KeyIdentifier<'_>) -> (same: bool)
        ensures
            same == (self.bytes() == other.bytes()),
    {
        bytes_eq(self.as_bytes(), other.as_bytes())
    }

    /// Whether the identifier holds the octets of `other`.
    pub fn matches(&self, other: &[u8]) -> (same: bool)
        ensures
            same == (self.bytes() == other@),
    {
        bytes_eq(self.as_bytes(), other)
    }
}

impl<'a> PartialEq for KeyIdentifier<'a> {
    fn eq(&self, other: &KeyIdentifier<'a>) -> (same: bool) {
        self.same(other)
    }
}

impl<'a> vstd::std_specs::cmp::PartialEqSpecImpl for KeyIdentifier<'a> {
    open spec fn obeys_eq_spec() -> bool {
        true
    }

    open spec fn eq_spec(&self, other: &KeyIdentifier<'a>) -> bool {
        self.bytes() == other.bytes()
    }
}

impl<'a> Eq for KeyIdentifier<'a> {

}

impl<'a> From<SubjectKeyIdentifierRef<'a>> for KeyIdentifier<'a> {
    fn from(other: SubjectKeyIdentifierRef<'a>) -> (id: KeyIdentifier<'a>) {
        KeyIdentifier::from_extension(other)
    }
}

impl<'a> vstd::std_specs::convert::FromSpecImpl<SubjectKeyIdentifierRef<'a>> for KeyIdentifier<'a> {
    open spec fn obeys_from_spec() -> bool {
        true
    }

    open spec fn from_spec(other: SubjectKeyIdentifierRef<'a>) -> KeyIdentifier<'a> {
        KeyIdentifier::Referenced(other.0)
    }
}

} // verus!
