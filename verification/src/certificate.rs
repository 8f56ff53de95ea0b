//! A decoded certificate, as path validation reads it.
//!
//! The octet strings are those of the certificate's encoding; nothing is
//! decoded further until it is needed.
use crate::name::Name;
use vstd::prelude::*;

verus! {

/// One extension of a certificate.
#[derive(Clone, Debug)]
pub struct Extension {
    /// The extension's identifier, as the content octets of its encoding.
    pub id: Vec<u8>,
    /// Whether the extension is critical.
    pub critical: bool,
    /// The extension's value: the content of its octet string.
    pub value: Vec<u8>,
}

/// An extension as a mathematical value.
pub struct ExtensionValue {
    pub id: Seq<u8>,
    pub critical: bool,
    pub value: Seq<u8>,
}

impl View for Extension {
    type V = ExtensionValue;

    open spec fn view(&self) -> ExtensionValue {
        ExtensionValue { id: self.id@, critical: self.critical, value: self.value@ }
    }
}

/// The extensions that a list holds.
pub open spec fn extension_views(extensions: Seq<Extension>) -> Seq<ExtensionValue> {
    Seq::new(extensions.len(), |i: int| extensions[i]@)
}

/// The octets that an optional octet string holds.
pub open spec fn optional_bytes(bytes: Option<Vec<u8>>) -> Option<Seq<u8>> {
    match bytes {
        Some(b) => Some(b@),
        None => None,
    }
}

/// A certificate.
#[derive(Clone, Debug)]
pub struct Certificate {
    /// The encoding of the part that is signed.
    pub tbs: Vec<u8>,
    /// The serial number: the content octets of its INTEGER.
    pub serial_number: Vec<u8>,
    /// The issuer's name.
    pub issuer: Name,
    /// The subject's name.
    pub subject: Name,
    /// The first second, counted from the Unix epoch, in which the
    /// certificate is valid.
    pub not_before: u64,
    /// The last second, counted from the Unix epoch, in which the
    /// certificate is valid.
    pub not_after: u64,
    /// The identifier of the subject's public key algorithm.
    pub key_algorithm: Vec<u8>,
    /// The encoded parameters of the subject's public key algorithm.
    pub key_parameters: Option<Vec<u8>>,
    /// The subject's public key: the octets of its bit string, without the
    /// octet that counts the unused bits.
    pub public_key: Vec<u8>,
    /// The identifier of the algorithm that the certificate was signed with.
    pub signature_algorithm: Vec<u8>,
    /// The signature.
    pub signature: Vec<u8>,
    /// The extensions, in the order of the certificate.
    pub extensions: Vec<Extension>,
}

/// A certificate as a mathematical value.
pub struct CertificateValue {
    pub tbs: Seq<u8>,
    pub serial_number: Seq<u8>,
    pub issuer: Seq<Seq<u8>>,
    pub subject: Seq<Seq<u8>>,
    pub not_before: u64,
    pub not_after: u64,
    pub key_algorithm: Seq<u8>,
    pub key_parameters: Option<Seq<u8>>,
    pub public_key: Seq<u8>,
    pub signature_algorithm: Seq<u8>,
    pub signature: Seq<u8>,
    pub extensions: Seq<ExtensionValue>,
}

impl View for Certificate {
    type V = CertificateValue;

    open spec fn view(&self) -> CertificateValue {
        CertificateValue {
            tbs: self.tbs@,
            serial_number: self.serial_number@,
            issuer: self.issuer@,
            subject: self.subject@,
            not_before: self.not_before,
            not_after: self.not_after,
            key_algorithm: self.key_algorithm@,
            key_parameters: optional_bytes(self.key_parameters),
            public_key: self.public_key@,
            signature_algorithm: self.signature_algorithm@,
            signature: self.signature@,
            extensions: extension_views(self.extensions@),
        }
    }
}

impl CertificateValue {
    /// Whether the certificate is self-issued: its issuer is its subject.
    pub open spec fn self_issued(self) -> bool {
        self.issuer == self.subject
    }
}

impl Certificate {
    /// Whether the certificate is self-issued: its issuer is its subject.
    pub fn is_self_issued(&self) -> (same: bool)
        ensures
            same == self@.self_issued(),
    {
        self.issuer.same(&self.subject)
    }
}

} // verus!
