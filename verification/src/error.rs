//! What can be wrong with the content of a certificate.
use crate::id::{hex, to_hex};
use crate::oid::{format_oid, oid_text};
use vstd::prelude::*;
use vstd::string::StringExecFns;

verus! {

/// Why a certificate's extensions could not be taken in.
#[derive(Clone, Debug)]
pub enum CertificateError {
    /// Invalid certificate policies: a policy identifier occurs twice.
    InvalidPolicies,
    /// Invalid name constraints: a subtree states a minimum other than zero
    /// or a maximum, or both subtree lists are empty.
    InvalidNameConstraints,
    /// A critical extension that this crate does not process; it holds the
    /// extension's identifier.
    UnsupportedCriticalExtension(Vec<u8>),
    /// The content of an extension does not follow its ASN.1 grammar.
    Asn1,
}

/// Why a trust anchor could not be built from a certificate.
#[derive(Clone, Debug)]
pub enum Error {
    /// The certificate's extensions hold something inadmissible.
    Certificate(CertificateError),
    /// The content of an extension does not follow its ASN.1 grammar.
    Asn1,
}

/// A `CertificateError` without what it carries.
#[derive(Clone, Copy, Debug, PartialEq, Eq, Structural)]
pub enum Fault {
    InvalidPolicies,
    InvalidNameConstraints,
    UnsupportedCriticalExtension,
    Asn1,
}

/// How an extension's identifier is written in a message: in dotted
/// decimal, or in hexadecimal where it is not the content of an identifier.
pub open spec fn identifier_text(id: Seq<u8>) -> Seq<char> {
    match oid_text(id) {
        Some(text) => text,
        None => hex(id),
    }
}

impl CertificateError {
    /// What `to_string` writes for this error.
    pub open spec fn message(self) -> Seq<char> {
        match self {
            CertificateError::InvalidPolicies => "Invalid policies"@,
            CertificateError::InvalidNameConstraints => "Invalid name constraints"@,
            CertificateError::UnsupportedCriticalExtension(id) => {
                "Unsupported critical extension: "@ + identifier_text(id@)
            },
            CertificateError::Asn1 => "ASN.1 error"@,
        }
    }

    /// Writes the error out for a reader.
    pub fn to_string(&self) -> (text: String)
        ensures
            text@ == self.message(),
    {
        match self {
            CertificateError::InvalidPolicies => String::from_str("Invalid policies"),
            CertificateError::InvalidNameConstraints => {
                String::from_str("Invalid name constraints")
            },
            CertificateError::UnsupportedCriticalExtension(id) => {
                let mut text = String::from_str("Unsupported critical extension: ");
                let written = match format_oid(id.as_slice()) {
                    Some(dotted) => dotted,
                    None => to_hex(id.as_slice()),
                };
                text.append(written.as_str());
                text
            },
            CertificateError::Asn1 => String::from_str("ASN.1 error"),
        }
    }

    /// The kind of this error.
    pub open spec fn fault(self) -> Fault {
        match self {
            CertificateError::InvalidPolicies => Fault::InvalidPolicies,
            CertificateError::InvalidNameConstraints => Fault::InvalidNameConstraints,
            CertificateError::UnsupportedCriticalExtension(_) => {
                Fault::UnsupportedCriticalExtension
            },
            CertificateError::Asn1 => Fault::Asn1,
        }
    }

    /// The kind of this error.
    pub fn kind(&self) -> (k: Fault)
        ensures
            k == self.fault(),
    {
        match self {
            CertificateError::InvalidPolicies => Fault::InvalidPolicies,
            CertificateError::InvalidNameConstraints => Fault::InvalidNameConstraints,
            CertificateError::UnsupportedCriticalExtension(_) => {
                Fault::UnsupportedCriticalExtension
            },
            CertificateError::Asn1 => Fault::Asn1,
        }
    }
}

impl Error {
    /// What `to_string` writes for this error.
    pub open spec fn message(self) -> Seq<char> {
        match self {
            Error::Certificate(e) => "Certificate error: "@ + e.message(),
            Error::Asn1 => "ASN.1 error"@,
        }
    }

    /// Writes the error out for a reader.
    pub fn to_string(&self) -> (text: String)
        ensures
            text@ == self.message(),
    {
        match self {
            Error::Certificate(e) => {
                let mut text = String::from_str("Certificate error: ");
                let inner = e.to_string();
                text.append(inner.as_str());
                text
            },
            Error::Asn1 => String::from_str("ASN.1 error"),
        }
    }

    /// The error that stands for `other` when a trust anchor is built: a
    /// grammar error stays one, every other kind is carried.
    pub open spec fn spec_from(other: CertificateError) -> Error {
        match other {
            CertificateError::Asn1 => Error::Asn1,
            e => Error::Certificate(e),
        }
    }

    /// Converts an error met while reading extensions.
    pub fn from_certificate(other: CertificateError) -> (e: Error)
        ensures
            e == Error::spec_from(other),
    {
        match other {
            CertificateError::Asn1 => Error::Asn1,
            e => Error::Certificate(e),
        }
    }
}

} // verus!
