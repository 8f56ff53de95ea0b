//! Why a certificate was not found trustworthy.
use crate::error::{CertificateError, Fault};
use vstd::prelude::*;

verus! {

/// Why a certification path was rejected.
#[derive(Clone, Copy, Debug, PartialEq, Eq, Structural)]
pub enum Error {
    /// A certificate in the chain could not be verified: a signature does
    /// not match, the chain is broken, a name or a policy is not admitted,
    /// a path is too long, or a critical extension is not understood.
    Verification,
    /// A certificate in the chain is expired.
    Expired,
    /// A certificate in the chain is not yet valid.
    NotYetValid,
    /// A certificate holds content that could not be decoded.
    Der,
}

impl Error {
    /// The rejection that an error in a certificate's extensions leads to:
    /// a critical extension that is not understood fails verification,
    /// everything else is content that could not be decoded.
    pub open spec fn of(e: CertificateError) -> Error {
        match e {
            CertificateError::UnsupportedCriticalExtension(_) => Error::Verification,
            _ => Error::Der,
        }
    }

    /// The rejection that a kind of error in a certificate's extensions
    /// leads to.
    pub open spec fn of_fault(fault: Fault) -> Error {
        match fault {
            Fault::UnsupportedCriticalExtension => Error::Verification,
            _ => Error::Der,
        }
    }

    /// Converts an error in a certificate's extensions.
    pub fn from_certificate(e: &CertificateError) -> (rejection: Error)
        ensures
            rejection == Error::of(*e),
            rejection == Error::of_fault(e.fault()),
    {
        match e {
            CertificateError::UnsupportedCriticalExtension(_) => Error::Verification,
            _ => Error::Der,
        }
    }
}

} // verus!
