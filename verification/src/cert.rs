//! Validation target.
use crate::certificate::{Certificate, CertificateValue};
use crate::error::{CertificateError, Fault};
use crate::extensions::{
    extracted, kind_of, lemma_no_key_identifier_stated, Extracted, ExtractedValue, ExtensionKind,
};
use crate::key_id::{key_identifier_of, sha1_digest, KeyIdentifier};
use crate::policy::PolicySet;
use vstd::prelude::*;

verus! {

/// A validation target as a mathematical value: the certificate and what
/// its extensions state.
pub struct TargetValue {
    pub certificate: CertificateValue,
    pub stated: ExtractedValue,
}

/// The validation target that a certificate makes, or what is wrong with
/// its extensions.
pub open spec fn target_of(certificate: CertificateValue) -> Result<TargetValue, Fault> {
    match extracted(certificate.extensions) {
        Ok(stated) => Ok(TargetValue { certificate, stated }),
        Err(fault) => Err(fault),
    }
}

impl TargetValue {
    /// The key identifier of the certificate: what its subject key
    /// identifier extension holds, else the SHA-1 digest of its public key.
    pub open spec fn key_id(self) -> Seq<u8> {
        key_identifier_of(self.stated.key_id, self.certificate.public_key)
    }
}

/// The key identifier of a certificate without a subject key identifier
/// extension is the SHA-1 digest of the certificate's public key, whenever
/// it is computed.
pub proof fn lemma_key_identifier_is_computed(certificate: CertificateValue)
    requires
        target_of(certificate) is Ok,
        forall|i: int|
            0 <= i < certificate.extensions.len() ==> kind_of(
                (#[trigger] certificate.extensions[i]).id,
            ) != ExtensionKind::SubjectKeyIdentifier,
    ensures
        target_of(certificate).unwrap().key_id() == sha1_digest(certificate.public_key),
{
    lemma_no_key_identifier_stated(certificate.extensions);
}

/// Certificate target for path validation: a certificate of the path
/// together with what its extensions state.
#[derive(Debug)]
pub struct CertTarget<'a> {
    certificate: &'a Certificate,
    stated: Extracted<'a>,
}

impl<'a> View for CertTarget<'a> {
    type V = TargetValue;

    closed spec fn view(&self) -> TargetValue {
        TargetValue { certificate: self.certificate@, stated: self.stated@ }
    }
}

impl<'a> CertTarget<'a> {
    /// Puts a certificate together with what its extensions state.
    pub fn with(certificate: &'a Certificate, stated: Extracted<'a>) -> (target: CertTarget<'a>)
        ensures
            target@ == (TargetValue { certificate: certificate@, stated: stated@ }),
    {
        CertTarget { certificate, stated }
    }

    /// Makes the validation target of a certificate. Fails where an
    /// extension of the certificate cannot be taken in.
    pub fn try_from(root: &'a Certificate) -> (r: Result<CertTarget<'a>, CertificateError>)
        ensures
            match r {
                Ok(target) => target_of(root@) == Ok::<TargetValue, Fault>(target@),
                Err(e) => target_of(root@) == Err::<TargetValue, Fault>(e.fault()),
            },
    {
        match Extracted::of(root) {
            Ok(stated) => Ok(CertTarget { certificate: root, stated }),
            Err(e) => Err(e),
        }
    }

    /// The certificate.
    pub fn certificate(&self) -> (certificate: &'a Certificate)
        ensures
            certificate@ == self@.certificate,
    {
        self.certificate
    }

    /// What the extensions of the certificate state.
    pub fn stated(&self) -> (stated: &Extracted<'a>)
        ensures
            stated@ == self@.stated,
    {
        &self.stated
    }

    /// The key identifier of the certificate: that of its subject key
    /// identifier extension where it has one, else the SHA-1 digest of its
    /// public key.
    pub fn key_id(&self) -> (id: KeyIdentifier<'a>)
        ensures
            id.bytes() == self@.key_id(),
            self@.stated.key_id is Some ==> id is Referenced,
            self@.stated.key_id is None ==> id is Owned,
    {
        KeyIdentifier::resolve(self.stated.key_id, self.certificate.public_key.as_slice())
    }

    /// The policies that the certificate asserts.
    pub fn policies(&self) -> (policies: Option<&PolicySet>)
        ensures
            crate::policy::optional_policies(policies) == self@.stated.policies,
    {
        self.stated.policies.as_ref()
    }
}

} // verus!
