//! Trust anchors.
use crate::certificate::{Certificate, CertificateValue, Extension, ExtensionValue};
use crate::error::{CertificateError, Error, Fault};
use crate::ext::{BasicConstraints, PolicyConstraints};
use crate::extensions::{borrowed_views, extracted, ConstraintsValue, Extracted, ExtractedValue};
use crate::key_id::{key_identifier_of, KeyIdentifier};
use crate::name::{Name, NameConstraints};
use crate::policy::{PolicyFlags, PolicySet};
use crate::signature::{PublicKey, PublicKeyValue};
use vstd::prelude::*;

verus! {

/// A trust anchor as a mathematical value.
pub struct AnchorValue {
    pub name: Seq<Seq<u8>>,
    pub pub_key: PublicKeyValue,
    pub key_id: Seq<u8>,
    pub policy_set: Option<Set<Seq<u8>>>,
    pub policy_flags: Option<PolicyFlags>,
    pub name_constraints: Option<ConstraintsValue>,
    pub path_len_constraint: Option<u32>,
    pub extensions: Option<Seq<ExtensionValue>>,
}

/// The public key of a certificate.
pub open spec fn public_key_of(certificate: CertificateValue) -> PublicKeyValue {
    PublicKeyValue {
        algorithm: certificate.key_algorithm,
        parameters: certificate.key_parameters,
        key: certificate.public_key,
    }
}

/// The policy flags that a root's own extensions ask for: a flag is set
/// where the extension states that it holds from the first certificate on.
/// There are none where the root has neither extension.
pub open spec fn flags_of(
    constraints: Option<PolicyConstraints>,
    inhibit_any_policy: Option<u32>,
) -> Option<PolicyFlags> {
    if constraints is None && inhibit_any_policy is None {
        None
    } else {
        Some(
            PolicyFlags {
                inhibit_policy_mapping: constraints matches Some(c) && c.inhibit_policy_mapping
                    == Some(0u32),
                require_explicit_policy: constraints matches Some(c) && c.require_explicit_policy
                    == Some(0u32),
                inhibit_any_policy: inhibit_any_policy == Some(0u32),
            },
        )
    }
}

/// The path length that basic constraints allow.
pub open spec fn path_len_of(constraints: Option<BasicConstraints>) -> Option<u32> {
    match constraints {
        Some(c) => match c.path_len_constraint {
            Some(n) => Some(n as u32),
            None => None,
        },
        None => None,
    }
}

/// The trust anchor that a root certificate with the given extensions
/// stands for.
pub open spec fn anchor_with(root: CertificateValue, stated: ExtractedValue) -> AnchorValue {
    AnchorValue {
        name: root.subject,
        pub_key: public_key_of(root),
        key_id: key_identifier_of(stated.key_id, root.public_key),
        policy_set: stated.policies,
        policy_flags: flags_of(stated.policy_constraints, stated.inhibit_any_policy),
        name_constraints: stated.name_constraints,
        path_len_constraint: path_len_of(stated.basic_constraints),
        extensions: if stated.unrecognized.len() == 0 {
            None
        } else {
            Some(stated.unrecognized)
        },
    }
}

/// The trust anchor that a root certificate stands for, or what is wrong
/// with its extensions.
pub open spec fn anchor_of(root: CertificateValue) -> Result<AnchorValue, Fault> {
    match extracted(root.extensions) {
        Ok(stated) => Ok(anchor_with(root, stated)),
        Err(fault) => Err(fault),
    }
}

/// Trust anchor representation: what path validation takes from a root
/// certificate. The name and the key are borrowed from the certificate.
#[derive(Debug)]
pub struct TrustAnchor<'a> {
    name: &'a Name,
    pub_key: PublicKey<'a>,
    key_id: KeyIdentifier<'a>,
    policy_set: Option<PolicySet>,
    policy_flags: Option<PolicyFlags>,
    name_constraints: Option<NameConstraints<'a, 'a>>,
    path_len_constraint: Option<u32>,
    extensions: Option<Vec<&'a Extension>>,
}

impl<'a> View for TrustAnchor<'a> {
    type V = AnchorValue;

    closed spec fn view(&self) -> AnchorValue {
        AnchorValue {
            name: self.name@,
            pub_key: self.pub_key@,
            key_id: self.key_id.bytes(),
            policy_set: match self.policy_set {
                Some(p) => Some(p@),
                None => None,
            },
            policy_flags: self.policy_flags,
            name_constraints: match self.name_constraints {
                Some(c) => Some(
                    ConstraintsValue { permitted: c.permitted(), excluded: c.excluded() },
                ),
                None => None,
            },
            path_len_constraint: self.path_len_constraint,
            extensions: match self.extensions {
                Some(e) => Some(borrowed_views(e@)),
                None => None,
            },
        }
    }
}

/// The public key of a certificate, borrowed from it.
pub fn key_of<'a>(certificate: &'a Certificate) -> (key: PublicKey<'a>)
    ensures
        key@ == public_key_of(certificate@),
{
    PublicKey {
        algorithm: certificate.key_algorithm.as_slice(),
        parameters: match &certificate.key_parameters {
            Some(p) => Some(p.as_slice()),
            None => None,
        },
        key: certificate.public_key.as_slice(),
    }
}

impl<'a> TrustAnchor<'a> {
    /// Makes the trust anchor of a root certificate from what its
    /// extensions state.
    pub fn with(root: &'a Certificate, stated: Extracted<'a>) -> (anchor: TrustAnchor<'a>)
        ensures
            anchor@ == anchor_with(root@, stated@),
    {
        let key_id = KeyIdentifier::resolve(stated.key_id, root.public_key.as_slice());
        let policy_flags = if stated.policy_constraints.is_none()
            && stated.inhibit_any_policy.is_none() {
            None
        } else {
            let (mapping, explicit) = match stated.policy_constraints {
                Some(c) => (inhibits_at_once(c.inhibit_policy_mapping), inhibits_at_once(
                    c.require_explicit_policy,
                )),
                None => (false, false),
            };
            Some(
                PolicyFlags {
                    inhibit_policy_mapping: mapping,
                    require_explicit_policy: explicit,
                    inhibit_any_policy: inhibits_at_once(stated.inhibit_any_policy),
                },
            )
        };
        let path_len_constraint = match stated.basic_constraints {
            Some(c) => match c.path_len_constraint {
                Some(n) => Some(n as u32),
                None => None,
            },
            None => None,
        };
        let extensions = if stated.unrecognized.len() == 0 {
            None
        } else {
            Some(stated.unrecognized)
        };
        TrustAnchor {
            name: &root.subject,
            pub_key: key_of(root),
            key_id,
            policy_set: stated.policies,
            policy_flags,
            name_constraints: stated.name_constraints,
            path_len_constraint,
            extensions,
        }
    }

    /// Makes the trust anchor of a root certificate. Fails where an
    /// extension of the certificate cannot be taken in: content that does
    /// not follow its grammar gives `Error::Asn1`, everything else the
    /// `CertificateError` inside `Error::Certificate`.
    pub fn try_from(root: &'a Certificate) -> (r: Result<TrustAnchor<'a>, Error>)
        ensures
            match r {
                Ok(anchor) => anchor_of(root@) == Ok::<AnchorValue, Fault>(anchor@),
                Err(Error::Asn1) => anchor_of(root@) == Err::<AnchorValue, Fault>(Fault::Asn1),
                Err(Error::Certificate(e)) => anchor_of(root@) == Err::<AnchorValue, Fault>(
                    e.fault(),
                ) && !(e is Asn1),
            },
    {
        match Extracted::of(root) {
            Ok(stated) => Ok(TrustAnchor::with(root, stated)),
            Err(e) => Err(Error::from_certificate(e)),
        }
    }

    /// The anchor with other policy flags.
    pub fn with_policy_flags(self, flags: Option<PolicyFlags>) -> (anchor: TrustAnchor<'a>)
        ensures
            anchor@ == (AnchorValue { policy_flags: flags, ..self@ }),
    {
        let mut anchor = self;
        anchor.policy_flags = flags;
        anchor
    }

    /// The name of the anchor.
    pub fn name(&self) -> (name: &'a Name)
        ensures
            name@ == self@.name,
    {
        self.name
    }

    /// The public key of the anchor.
    pub fn pub_key(&self) -> (key: &PublicKey<'a>)
        ensures
            key@ == self@.pub_key,
    {
        &self.pub_key
    }

    /// The key identifier of the anchor.
    pub fn key_id(&self) -> (id: &KeyIdentifier<'a>)
        ensures
            id.bytes() == self@.key_id,
    {
        &self.key_id
    }

    /// The policies that the anchor is trusted for; `None` where it is
    /// trusted for every policy.
    pub fn policy_set(&self) -> (policies: Option<&PolicySet>)
        ensures
            crate::policy::optional_policies(policies) == self@.policy_set,
    {
        self.policy_set.as_ref()
    }

    /// The policy flags of the anchor.
    pub fn policy_flags(&self) -> (flags: Option<PolicyFlags>)
        ensures
            flags == self@.policy_flags,
    {
        self.policy_flags
    }

    /// The name constraints of the anchor.
    pub fn name_constraints(&self) -> (constraints: Option<&NameConstraints<'a, 'a>>)
        ensures
            match constraints {
                Some(c) => self@.name_constraints == Some(
                    ConstraintsValue { permitted: c.permitted(), excluded: c.excluded() },
                ),
                None => self@.name_constraints is None,
            },
    {
        self.name_constraints.as_ref()
    }

    /// How many certification authorities may follow the anchor.
    pub fn path_len_constraint(&self) -> (limit: Option<u32>)
        ensures
            limit == self@.path_len_constraint,
    {
        self.path_len_constraint
    }

    /// The extensions of the root that are not known and not critical.
    pub fn extensions(&self) -> (extensions: Option<&Vec<&'a Extension>>)
        ensures
            match extensions {
                Some(e) => self@.extensions == Some(borrowed_views(e@)),
                None => self@.extensions is None,
            },
    {
        self.extensions.as_ref()
    }
}

/// Whether a count of certificates to skip is zero.
fn inhibits_at_once(skip: Option<u32>) -> (at_once: bool)
    ensures
        at_once == (skip == Some(0u32)),
{
    match skip {
        Some(n) => n == 0,
        None => false,
    }
}

} // verus!
