//! Certification path validation for X.509 certificates.
//!
//! A leaf certificate is trusted when a chain of issuers leads from it to a
//! trust anchor held in a [`store::CertificateStore`], and every certificate
//! on that chain passes the signature, validity, name-chaining,
//! name-constraint, policy and path-length checks of [`validate::validate`].
//! Revocation is not looked at.
//!
//! Certificates reach this crate already decoded, as
//! [`certificate::Certificate`] values made of plain octet strings and
//! integers. The content of their extensions is decoded here, when a
//! [`TrustAnchor`] or a [`CertTarget`] is made of a certificate.
//!
//! The crate is verified with Verus. Every function states what it returns,
//! over the mathematical values that its arguments stand for, and is proved
//! to keep to that and never to panic. What is taken from other crates is
//! called through a few functions whose statements are not proved but
//! taken for granted: the hash collections in [`hash`], the decoders of
//! extension values in [`ext`], signature verification in [`signature`],
//! and the digests, the writing of identifiers and the test for UTF-8 where
//! they are used.
//!
//! The modules, from the ground up:
//!
//! - [`bytes`], [`tlv`]: octet strings and their framing in DER
//! - [`oid`]: the identifiers that the crate looks for
//! - [`name`]: distinguished and general names, sets of names, name
//!   constraints and the matching of a name against a constraint
//! - [`policy`]: policy sets, policy flags and policy processing
//! - [`key_id`], [`id`]: key identifiers and the identities of certificates
//! - [`certificate`], [`extensions`], [`anchor`], [`cert`]: certificates,
//!   what their extensions state, trust anchors and validation targets
//! - [`validate`]: the walk along a path
//! - [`loader`], [`store`]: where trusted certificates are kept, and the
//!   search for a path to one of them
//! - [`error`], [`verdict`]: what can be wrong with a certificate, and why
//!   a path is rejected
pub mod anchor;
pub mod bytes;
pub mod cert;
pub mod certificate;
pub mod error;
pub mod ext;
pub mod extensions;
pub mod hash;
pub mod id;
pub mod key_id;
pub mod loader;
pub mod name;
pub mod oid;
pub mod policy;
pub mod signature;
pub mod store;
pub mod tlv;
pub mod validate;
pub mod verdict;

pub use anchor::TrustAnchor;
pub use cert::CertTarget;
pub use certificate::{Certificate, Extension};
pub use error::{CertificateError, Error};
pub use id::{AsStr, CertificateId, NameBytes};
pub use key_id::{KeyIdentifier, SubjectKeyIdentifierRef};
pub use loader::{Loader, MemLoader};
pub use name::{NameConstraints, Names};
pub use policy::{PolicyFlags, PolicySet};
pub use store::{CertificateStore, MemCertificateStore};
pub use validate::validate;
