//! What the extensions of a certificate state.
//!
//! Each extension is decoded by its identifier and its content is taken
//! over. An extension that is not known is kept aside where it is not
//! critical, and is an error where it is.
use crate::bytes::byte_views;
use crate::certificate::{extension_views, Certificate, Extension, ExtensionValue};
use crate::error::{CertificateError, Fault};
use crate::ext::{
    authority_key_identifier_der, basic_constraints_der, certificate_policies_der,
    decode_authority_key_identifier, decode_basic_constraints, decode_certificate_policies,
    decode_inhibit_any_policy, decode_policy_constraints, inhibit_any_policy_der,
    octet_string_der, policy_constraints_der, BasicConstraints, PolicyConstraints,
};
use crate::key_id::SubjectKeyIdentifierRef;
use crate::name::constraints::{
    admissible, bases, parse_name_constraints, NameConstraints, NameConstraintsRef,
    NameConstraintsValue,
};
use crate::name::distinct;
use crate::name::general::{
    general_name_views, parse_general_names, read_general_names, GeneralName, GeneralNameRef,
};
use crate::oid;
use crate::policy::{policy_set_of, PolicySet};
use vstd::prelude::*;
use vstd::slice::slice_to_vec;

verus! {

/// The two lists of names of admissible name constraints.
pub struct ConstraintsValue {
    pub permitted: Seq<GeneralName>,
    pub excluded: Seq<GeneralName>,
}

/// The content of one extension, decoded, as a mathematical value.
pub enum DecodedValue {
    SubjectKeyIdentifier(Seq<u8>),
    AuthorityKeyIdentifier(Option<Seq<u8>>),
    CertificatePolicies(Seq<Seq<u8>>),
    NameConstraints(NameConstraintsValue),
    BasicConstraints(BasicConstraints),
    SubjectAltName(Seq<GeneralName>),
    PolicyConstraints(PolicyConstraints),
    InhibitAnyPolicy(u32),
    Unrecognized,
}

/// What the extensions of a certificate state, as a mathematical value.
pub struct ExtractedValue {
    pub key_id: Option<Seq<u8>>,
    pub authority_key_id: Option<Seq<u8>>,
    pub policies: Option<Set<Seq<u8>>>,
    pub name_constraints: Option<ConstraintsValue>,
    pub basic_constraints: Option<BasicConstraints>,
    pub alt_names: Seq<GeneralName>,
    pub policy_constraints: Option<PolicyConstraints>,
    pub inhibit_any_policy: Option<u32>,
    pub unrecognized: Seq<ExtensionValue>,
}

/// What a certificate without extensions states.
pub open spec fn nothing_extracted() -> ExtractedValue {
    ExtractedValue {
        key_id: None,
        authority_key_id: None,
        policies: None,
        name_constraints: None,
        basic_constraints: None,
        alt_names: Seq::empty(),
        policy_constraints: None,
        inhibit_any_policy: None,
        unrecognized: Seq::empty(),
    }
}

/// The extensions that this crate knows, and all others.
#[derive(Clone, Copy, Debug, PartialEq, Eq, Structural)]
pub enum ExtensionKind {
    SubjectKeyIdentifier,
    AuthorityKeyIdentifier,
    CertificatePolicies,
    NameConstraints,
    BasicConstraints,
    SubjectAltName,
    PolicyConstraints,
    InhibitAnyPolicy,
    Unrecognized,
}

/// The extension that an identifier names.
pub open spec fn kind_of(id: Seq<u8>) -> ExtensionKind {
    if id == oid::subject_key_identifier() {
        ExtensionKind::SubjectKeyIdentifier
    } else if id == oid::authority_key_identifier() {
        ExtensionKind::AuthorityKeyIdentifier
    } else if id == oid::certificate_policies() {
        ExtensionKind::CertificatePolicies
    } else if id == oid::name_constraints() {
        ExtensionKind::NameConstraints
    } else if id == oid::basic_constraints() {
        ExtensionKind::BasicConstraints
    } else if id == oid::subject_alt_name() {
        ExtensionKind::SubjectAltName
    } else if id == oid::policy_constraints() {
        ExtensionKind::PolicyConstraints
    } else if id == oid::inhibit_any_policy() {
        ExtensionKind::InhibitAnyPolicy
    } else {
        ExtensionKind::Unrecognized
    }
}

/// The extension that an identifier names.
pub fn classify(id: &[u8]) -> (kind: ExtensionKind)
    ensures
        kind == kind_of(id@),
{
    if oid::is_extension(id, 0x0e) {
        ExtensionKind::SubjectKeyIdentifier
    } else if oid::is_extension(id, 0x23) {
        ExtensionKind::AuthorityKeyIdentifier
    } else if oid::is_extension(id, 0x20) {
        ExtensionKind::CertificatePolicies
    } else if oid::is_extension(id, 0x1e) {
        ExtensionKind::NameConstraints
    } else if oid::is_extension(id, 0x13) {
        ExtensionKind::BasicConstraints
    } else if oid::is_extension(id, 0x11) {
        ExtensionKind::SubjectAltName
    } else if oid::is_extension(id, 0x24) {
        ExtensionKind::PolicyConstraints
    } else if oid::is_extension(id, 0x36) {
        ExtensionKind::InhibitAnyPolicy
    } else {
        ExtensionKind::Unrecognized
    }
}

/// The decoded content of an extension, by its identifier; `None` where
/// the content does not follow the grammar of the extension.
pub open spec fn decoded_of(extension: ExtensionValue) -> Option<DecodedValue> {
    match kind_of(extension.id) {
        ExtensionKind::SubjectKeyIdentifier => match octet_string_der(extension.value) {
            Some(id) => Some(DecodedValue::SubjectKeyIdentifier(id)),
            None => None,
        },
        ExtensionKind::AuthorityKeyIdentifier => match authority_key_identifier_der(
            extension.value,
        ) {
            Some(id) => Some(DecodedValue::AuthorityKeyIdentifier(id)),
            None => None,
        },
        ExtensionKind::CertificatePolicies => match certificate_policies_der(extension.value) {
            Some(policies) => Some(DecodedValue::CertificatePolicies(policies)),
            None => None,
        },
        ExtensionKind::NameConstraints => match parse_name_constraints(extension.value) {
            Some(constraints) => Some(DecodedValue::NameConstraints(constraints)),
            None => None,
        },
        ExtensionKind::BasicConstraints => match basic_constraints_der(extension.value) {
            Some(constraints) => Some(DecodedValue::BasicConstraints(constraints)),
            None => None,
        },
        ExtensionKind::SubjectAltName => match parse_general_names(extension.value) {
            Some(names) => Some(DecodedValue::SubjectAltName(names)),
            None => None,
        },
        ExtensionKind::PolicyConstraints => match policy_constraints_der(extension.value) {
            Some(constraints) => Some(DecodedValue::PolicyConstraints(constraints)),
            None => None,
        },
        ExtensionKind::InhibitAnyPolicy => match inhibit_any_policy_der(extension.value) {
            Some(skip) => Some(DecodedValue::InhibitAnyPolicy(skip)),
            None => None,
        },
        ExtensionKind::Unrecognized => Some(DecodedValue::Unrecognized),
    }
}

/// What taking over the decoded content of `extension` makes of what was
/// extracted before. Policies that name an identifier twice, name
/// constraints that are not admissible and a critical extension that is
/// not known are errors.
pub open spec fn installed(
    before: ExtractedValue,
    extension: ExtensionValue,
    decoded: DecodedValue,
) -> Result<ExtractedValue, Fault> {
    match decoded {
        DecodedValue::SubjectKeyIdentifier(id) => Ok(ExtractedValue { key_id: Some(id), ..before }),
        DecodedValue::AuthorityKeyIdentifier(id) => Ok(
            ExtractedValue { authority_key_id: id, ..before },
        ),
        DecodedValue::CertificatePolicies(policies) => match policy_set_of(policies) {
            Some(set) => Ok(ExtractedValue { policies: Some(set), ..before }),
            None => Err(Fault::InvalidPolicies),
        },
        DecodedValue::NameConstraints(constraints) => if admissible(constraints) {
            Ok(
                ExtractedValue {
                    name_constraints: Some(
                        ConstraintsValue {
                            permitted: distinct(bases(constraints.permitted)),
                            excluded: distinct(bases(constraints.excluded)),
                        },
                    ),
                    ..before
                },
            )
        } else {
            Err(Fault::InvalidNameConstraints)
        },
        DecodedValue::BasicConstraints(constraints) => Ok(
            ExtractedValue { basic_constraints: Some(constraints), ..before },
        ),
        DecodedValue::SubjectAltName(names) => Ok(ExtractedValue { alt_names: names, ..before }),
        DecodedValue::PolicyConstraints(constraints) => Ok(
            ExtractedValue { policy_constraints: Some(constraints), ..before },
        ),
        DecodedValue::InhibitAnyPolicy(skip) => Ok(
            ExtractedValue { inhibit_any_policy: Some(skip), ..before },
        ),
        DecodedValue::Unrecognized => if extension.critical {
            Err(Fault::UnsupportedCriticalExtension)
        } else {
            Ok(ExtractedValue { unrecognized: before.unrecognized.push(extension), ..before })
        },
    }
}

/// What one more extension makes of what was extracted before.
pub open spec fn absorbed(before: ExtractedValue, extension: ExtensionValue) -> Result<
    ExtractedValue,
    Fault,
> {
    match decoded_of(extension) {
        Some(decoded) => installed(before, extension, decoded),
        None => Err(Fault::Asn1),
    }
}

/// What a list of extensions states, taken in order; the error of the
/// first extension that has one.
pub open spec fn extracted(extensions: Seq<ExtensionValue>) -> Result<ExtractedValue, Fault>
    decreases extensions.len(),
{
    if extensions.len() == 0 {
        Ok(nothing_extracted())
    } else {
        match extracted(extensions.drop_last()) {
            Ok(before) => absorbed(before, extensions.last()),
            Err(fault) => Err(fault),
        }
    }
}

/// The content of one extension, decoded.
#[derive(Debug)]
pub enum Decoded<'a> {
    SubjectKeyIdentifier(SubjectKeyIdentifierRef<'a>),
    AuthorityKeyIdentifier(Option<Vec<u8>>),
    CertificatePolicies(Vec<Vec<u8>>),
    NameConstraints(NameConstraintsRef<'a>),
    BasicConstraints(BasicConstraints),
    SubjectAltName(Vec<GeneralNameRef<'a>>),
    PolicyConstraints(PolicyConstraints),
    InhibitAnyPolicy(u32),
    Unrecognized,
}

impl<'a> View for Decoded<'a> {
    type V = DecodedValue;

    open spec fn view(&self) -> DecodedValue {
        match self {
            Decoded::SubjectKeyIdentifier(id) => DecodedValue::SubjectKeyIdentifier(id.0@),
            Decoded::AuthorityKeyIdentifier(id) => DecodedValue::AuthorityKeyIdentifier(
                match id {
                    Some(i) => Some(i@),
                    None => None,
                },
            ),
            Decoded::CertificatePolicies(policies) => DecodedValue::CertificatePolicies(
                byte_views(policies@),
            ),
            Decoded::NameConstraints(constraints) => DecodedValue::NameConstraints(constraints@),
            Decoded::BasicConstraints(constraints) => DecodedValue::BasicConstraints(*constraints),
            Decoded::SubjectAltName(names) => DecodedValue::SubjectAltName(
                general_name_views(names@),
            ),
            Decoded::PolicyConstraints(constraints) => DecodedValue::PolicyConstraints(
                *constraints,
            ),
            Decoded::InhibitAnyPolicy(skip) => DecodedValue::InhibitAnyPolicy(*skip),
            Decoded::Unrecognized => DecodedValue::Unrecognized,
        }
    }
}

impl<'a> Decoded<'a> {
    /// Decodes the content of an extension, by its identifier. Fails with
    /// `CertificateError::Asn1` where the content does not follow the
    /// grammar of the extension.
    pub fn of(extension: &'a Extension) -> (r: Result<Decoded<'a>, CertificateError>)
        ensures
            match r {
                Ok(decoded) => decoded_of(extension@) == Some(decoded@),
                Err(e) => decoded_of(extension@) is None && e is Asn1,
            },
    {
        let value = extension.value.as_slice();
        match classify(extension.id.as_slice()) {
            ExtensionKind::SubjectKeyIdentifier => match SubjectKeyIdentifierRef::from_der(value) {
                Ok(key_id) => Ok(Decoded::SubjectKeyIdentifier(key_id)),
                Err(e) => Err(e),
            },
            ExtensionKind::AuthorityKeyIdentifier => match decode_authority_key_identifier(value) {
                Some(key_id) => Ok(Decoded::AuthorityKeyIdentifier(key_id)),
                None => Err(CertificateError::Asn1),
            },
            ExtensionKind::CertificatePolicies => match decode_certificate_policies(value) {
                Some(policies) => Ok(Decoded::CertificatePolicies(policies)),
                None => Err(CertificateError::Asn1),
            },
            ExtensionKind::NameConstraints => match NameConstraintsRef::from_der(value) {
                Ok(constraints) => Ok(Decoded::NameConstraints(constraints)),
                Err(e) => Err(e),
            },
            ExtensionKind::BasicConstraints => match decode_basic_constraints(value) {
                Some(constraints) => Ok(Decoded::BasicConstraints(constraints)),
                None => Err(CertificateError::Asn1),
            },
            ExtensionKind::SubjectAltName => match read_general_names(value) {
                Some(names) => Ok(Decoded::SubjectAltName(names)),
                None => Err(CertificateError::Asn1),
            },
            ExtensionKind::PolicyConstraints => match decode_policy_constraints(value) {
                Some(constraints) => Ok(Decoded::PolicyConstraints(constraints)),
                None => Err(CertificateError::Asn1),
            },
            ExtensionKind::InhibitAnyPolicy => match decode_inhibit_any_policy(value) {
                Some(skip) => Ok(Decoded::InhibitAnyPolicy(skip)),
                None => Err(CertificateError::Asn1),
            },
            ExtensionKind::Unrecognized => Ok(Decoded::Unrecognized),
        }
    }
}

/// What the extensions of a certificate state.
#[derive(Debug)]
pub struct Extracted<'a> {
    /// What the subject key identifier extension holds.
    pub key_id: Option<SubjectKeyIdentifierRef<'a>>,
    /// The key identifier of the authority key identifier extension.
    pub authority_key_id: Option<Vec<u8>>,
    /// The policies that the certificate asserts.
    pub policies: Option<PolicySet>,
    /// The name constraints that the certificate imposes.
    pub name_constraints: Option<NameConstraints<'a, 'a>>,
    /// The basic constraints of the certificate.
    pub basic_constraints: Option<BasicConstraints>,
    /// The subject alternative names.
    pub alt_names: Vec<GeneralNameRef<'a>>,
    /// The policy constraints that the certificate imposes.
    pub policy_constraints: Option<PolicyConstraints>,
    /// After how many certificates `anyPolicy` is inhibited.
    pub inhibit_any_policy: Option<u32>,
    /// The extensions that are not known and not critical.
    pub unrecognized: Vec<&'a Extension>,
}

/// The extensions that a list of borrowed extensions holds.
pub open spec fn borrowed_views(extensions: Seq<&Extension>) -> Seq<ExtensionValue> {
    Seq::new(extensions.len(), |i: int| extensions[i]@)
}

impl<'a> View for Extracted<'a> {
    type V = ExtractedValue;

    open spec fn view(&self) -> ExtractedValue {
        ExtractedValue {
            key_id: match self.key_id {
                Some(id) => Some(id.0@),
                None => None,
            },
            authority_key_id: match self.authority_key_id {
                Some(id) => Some(id@),
                None => None,
            },
            policies: match self.policies {
                Some(p) => Some(p@),
                None => None,
            },
            name_constraints: match self.name_constraints {
                Some(c) => Some(
                    ConstraintsValue { permitted: c.permitted(), excluded: c.excluded() },
                ),
                None => None,
            },
            basic_constraints: self.basic_constraints,
            alt_names: general_name_views(self.alt_names@),
            policy_constraints: self.policy_constraints,
            inhibit_any_policy: self.inhibit_any_policy,
            unrecognized: borrowed_views(self.unrecognized@),
        }
    }
}

impl<'a> Extracted<'a> {
    /// What a certificate without extensions states.
    pub fn new() -> (nothing: Extracted<'a>)
        ensures
            nothing@ == nothing_extracted(),
    {
        let nothing = Extracted {
            key_id: None,
            authority_key_id: None,
            policies: None,
            name_constraints: None,
            basic_constraints: None,
            alt_names: Vec::new(),
            policy_constraints: None,
            inhibit_any_policy: None,
            unrecognized: Vec::new(),
        };
        assert(nothing@.alt_names =~= Seq::<GeneralName>::empty());
        assert(nothing@.unrecognized =~= Seq::<ExtensionValue>::empty());
        nothing
    }

    /// Takes over the decoded content of `extension`. Fails with
    /// `InvalidPolicies` where the policies name an identifier twice, with
    /// `InvalidNameConstraints` where the name constraints are not
    /// admissible, and with `UnsupportedCriticalExtension` and the
    /// identifier where the extension is critical and not known.
    pub fn install(self, extension: &'a Extension, decoded: Decoded<'a>) -> (r: Result<
        Extracted<'a>,
        CertificateError,
    >)
        ensures
            match r {
                Ok(after) => installed(self@, extension@, decoded@) == Ok::<ExtractedValue, Fault>(
                    after@,
                ),
                Err(e) => installed(self@, extension@, decoded@) == Err::<ExtractedValue, Fault>(
                    e.fault(),
                ) && (e matches CertificateError::UnsupportedCriticalExtension(id) ==> id@
                    == extension@.id),
            },
    {
        let mut after = self;
        match decoded {
            Decoded::SubjectKeyIdentifier(id) => {
                after.key_id = Some(id);
            },
            Decoded::AuthorityKeyIdentifier(id) => {
                after.authority_key_id = id;
            },
            Decoded::CertificatePolicies(policies) => {
                match PolicySet::try_from(&policies) {
                    Ok(set) => {
                        after.policies = Some(set);
                    },
                    Err(e) => {
                        return Err(e);
                    },
                }
            },
            Decoded::NameConstraints(constraints) => {
                match NameConstraints::try_from(constraints) {
                    Ok(c) => {
                        after.name_constraints = Some(c);
                    },
                    Err(e) => {
                        return Err(e);
                    },
                }
            },
            Decoded::BasicConstraints(constraints) => {
                after.basic_constraints = Some(constraints);
            },
            Decoded::SubjectAltName(names) => {
                after.alt_names = names;
            },
            Decoded::PolicyConstraints(constraints) => {
                after.policy_constraints = Some(constraints);
            },
            Decoded::InhibitAnyPolicy(skip) => {
                after.inhibit_any_policy = Some(skip);
            },
            Decoded::Unrecognized => {
                if extension.critical {
                    return Err(
                        CertificateError::UnsupportedCriticalExtension(
                            slice_to_vec(extension.id.as_slice()),
                        ),
                    );
                }
                after.unrecognized.push(extension);
                assert(after@.unrecognized =~= self@.unrecognized.push(extension@));
            },
        }
        Ok(after)
    }

    /// Takes over one more extension.
    pub fn absorb(self, extension: &'a Extension) -> (r: Result<Extracted<'a>, CertificateError>)
        ensures
            match r {
                Ok(after) => absorbed(self@, extension@) == Ok::<ExtractedValue, Fault>(after@),
                Err(e) => absorbed(self@, extension@) == Err::<ExtractedValue, Fault>(e.fault())
                    && (e matches CertificateError::UnsupportedCriticalExtension(id) ==> id@
                    == extension@.id),
            },
    {
        match Decoded::of(extension) {
            Ok(decoded) => self.install(extension, decoded),
            Err(e) => Err(e),
        }
    }

    /// What the extensions of a certificate state. Fails with the error of
    /// the first extension that has one.
    pub fn of(certificate: &'a Certificate) -> (r: Result<Extracted<'a>, CertificateError>)
        ensures
            match r {
                Ok(all) => extracted(certificate@.extensions) == Ok::<ExtractedValue, Fault>(all@),
                Err(e) => extracted(certificate@.extensions) == Err::<ExtractedValue, Fault>(
                    e.fault(),
                ),
            },
    {
        let ghost list = certificate@.extensions;
        let mut all = Extracted::new();
        let mut i: usize = 0;
        assert(list.subrange(0, 0) =~= Seq::<ExtensionValue>::empty());
        while i < certificate.extensions.len()
            invariant
                i <= certificate.extensions@.len(),
                list == extension_views(certificate.extensions@),
                extracted(list.subrange(0, i as int)) == Ok::<ExtractedValue, Fault>(all@),
            decreases certificate.extensions@.len() - i,
        {
            let ghost next = list.subrange(0, i + 1);
            proof {
                assert(next.drop_last() =~= list.subrange(0, i as int));
                assert(next.last() == certificate.extensions@[i as int]@);
            }
            match all.absorb(&certificate.extensions[i]) {
                Ok(after) => {
                    all = after;
                },
                Err(e) => {
                    proof {
                        lemma_extracted_error_stays(list, i + 1);
                    }
                    return Err(e);
                },
            }
            i += 1;
        }
        assert(list.subrange(0, i as int) =~= list);
        Ok(all)
    }
}

/// Where no extension of a list is a subject key identifier, the list
/// states no key identifier.
pub proof fn lemma_no_key_identifier_stated(extensions: Seq<ExtensionValue>)
    requires
        extracted(extensions) is Ok,
        forall|i: int|
            0 <= i < extensions.len() ==> kind_of((#[trigger] extensions[i]).id)
                != ExtensionKind::SubjectKeyIdentifier,
    ensures
        extracted(extensions).unwrap().key_id is None,
    decreases extensions.len(),
{
    if extensions.len() > 0 {
        let front = extensions.drop_last();
        assert forall|i: int| 0 <= i < front.len() implies kind_of((#[trigger] front[i]).id)
            != ExtensionKind::SubjectKeyIdentifier by {
            assert(front[i] == extensions[i]);
        }
        lemma_no_key_identifier_stated(front);
        assert(extensions.last() == extensions[extensions.len() - 1]);
    }
}

/// An error among the first extensions is the error of the whole list.
pub proof fn lemma_extracted_error_stays(extensions: Seq<ExtensionValue>, n: int)
    requires
        0 <= n <= extensions.len(),
        extracted(extensions.subrange(0, n)) is Err,
    ensures
        extracted(extensions) == extracted(extensions.subrange(0, n)),
    decreases extensions.len() - n,
{
    if n == extensions.len() {
        assert(extensions.subrange(0, n) =~= extensions);
    } else {
        let longer = extensions.subrange(0, n + 1);
        assert(longer.drop_last() =~= extensions.subrange(0, n));
        lemma_extracted_error_stays(extensions, n + 1);
    }
}

} // verus!
