use der::asn1::{Ia5String, OctetString};
use der::Encode;
use x509_cert::ext::pkix::constraints::name::{GeneralSubtree, NameConstraints as OutsideConstraints};
use x509_cert::ext::pkix::name::GeneralName;
use x509_path::error::{CertificateError, Error, Fault};
use x509_path::name::constraints::read_uint;
use x509_path::name::general::{read_general_names, write_general_names};
use x509_path::name::{
    DirectoryStringRef, DistributionPointNameRef, EdiPartyNameRef, GeneralNameRef,
    GeneralSubtreeRef, Name, NameConstraints, NameConstraintsRef, Names, OtherNameRef,
};
use x509_path::tlv::{read_all, read_tlv, read_whole, write_tlv, MAX_LENGTH};

fn framed(tag: u8, content: &[u8]) -> Vec<u8> {
    let mut out = Vec::new();
    assert!(write_tlv(&mut out, tag, content));
    out
}

#[test]
fn short_element_is_framed_with_one_length_octet() {
    assert_eq!(framed(0x04, &[1, 2, 3]), vec![0x04, 0x03, 1, 2, 3]);
    assert_eq!(framed(0x30, &[]), vec![0x30, 0x00]);
    let content = vec![7u8; 127];
    let out = framed(0x04, &content);
    assert_eq!(&out[..2], &[0x04, 0x7f]);
    assert_eq!(out.len(), 129);
}

#[test]
fn long_elements_are_framed_as_the_decoder_crate_frames_them() {
    for n in [0usize, 1, 127, 128, 255, 256, 65535, 65536, 70000] {
        let content = vec![0xabu8; n];
        let ours = framed(0x04, &content);
        let theirs = OctetString::new(content.clone()).unwrap().to_der().unwrap();
        assert_eq!(ours, theirs);
        let (tag, read, rest) = read_tlv(&ours).unwrap();
        assert_eq!(tag, 0x04);
        assert_eq!(read, &content[..]);
        assert!(rest.is_empty());
    }
    assert_eq!(&framed(0x04, &vec![0u8; 128])[..3], &[0x04, 0x81, 0x80]);
    assert_eq!(&framed(0x04, &vec![0u8; 256])[..4], &[0x04, 0x82, 0x01, 0x00]);
    assert_eq!(&framed(0x04, &vec![0u8; 65536])[..5], &[0x04, 0x83, 0x01, 0x00, 0x00]);
}

#[test]
fn element_is_read_with_what_follows_it() {
    let (tag, content, rest) = read_tlv(&[0x02, 0x01, 0x05, 0xff, 0xfe]).unwrap();
    assert_eq!((tag, content, rest), (0x02, &[0x05u8][..], &[0xffu8, 0xfe][..]));
    assert_eq!(read_whole(&[0x02, 0x01, 0x05]), Some((0x02, &[0x05u8][..])));
    assert_eq!(read_whole(&[0x02, 0x01, 0x05, 0xff]), None);
    let items = read_all(&[0x02, 0x01, 0x05, 0x04, 0x00, 0x05, 0x00]).unwrap();
    assert_eq!(items, vec![(0x02, &[0x05u8][..]), (0x04, &[][..]), (0x05, &[][..])]);
    assert_eq!(read_all(&[]), Some(vec![]));
}

#[test]
fn lengths_in_a_longer_form_than_needed_are_refused() {
    assert!(read_tlv(&[0x04, 0x81, 0x01, 0x00]).is_none());
    assert!(read_tlv(&[0x04, 0x82, 0x00, 0x80]).is_none());
    assert!(read_tlv(&[0x04, 0x80]).is_none());
    assert!(read_tlv(&[0x04, 0x85, 0, 0, 0, 0, 1, 0]).is_none());
    assert!(read_tlv(&[0x04, 0x84, 0x10, 0, 0, 0]).is_none());
    assert!(read_tlv(&[0x04]).is_none());
    assert!(read_tlv(&[]).is_none());
    assert!(read_tlv(&[0x04, 0x02, 0x01]).is_none());
    assert!(read_all(&[0x04, 0x01, 0x01, 0x04]).is_none());
}

#[test]
fn content_beyond_the_longest_length_is_not_written() {
    let mut out = vec![9u8];
    let content = vec![0u8; MAX_LENGTH + 1];
    assert!(!write_tlv(&mut out, 0x04, &content));
    assert_eq!(out, vec![9u8]);
}

#[test]
fn integers_are_read_in_their_shortest_form_only() {
    assert_eq!(read_uint(&[0x00]), Some(0));
    assert_eq!(read_uint(&[0x7f]), Some(127));
    assert_eq!(read_uint(&[0x00, 0x80]), Some(128));
    assert_eq!(read_uint(&[0x01, 0x00]), Some(256));
    assert_eq!(read_uint(&[0x00, 0xff, 0xff, 0xff, 0xff]), Some(u32::MAX));
    assert_eq!(read_uint(&[0x01, 0x00, 0x00, 0x00, 0x00]), None);
    assert_eq!(read_uint(&[0x00, 0x7f]), None);
    assert_eq!(read_uint(&[0x80]), None);
    assert_eq!(read_uint(&[]), None);
    assert_eq!(read_uint(&[0, 0, 0, 0, 0, 1]), None);
}

fn subtree(name: GeneralName) -> GeneralSubtree {
    GeneralSubtree { base: name, minimum: 0, maximum: None }
}

fn dns(name: &str) -> GeneralName {
    GeneralName::DnsName(Ia5String::new(name).unwrap())
}

#[test]
fn name_constraints_of_the_certificate_crate_are_read() {
    let directory = x509_cert::name::Name::default();
    let outside = OutsideConstraints {
        permitted_subtrees: Some(vec![subtree(dns(".example.com")), subtree(dns("example.org"))]),
        excluded_subtrees: Some(vec![
            subtree(GeneralName::Rfc822Name(Ia5String::new("someone@example.com").unwrap())),
            subtree(GeneralName::IpAddress(OctetString::new(vec![10, 0, 0, 0, 255, 0, 0, 0]).unwrap())),
            subtree(GeneralName::DirectoryName(directory)),
        ]),
    };
    let encoded = outside.to_der().unwrap();
    let read = NameConstraintsRef::from_der(&encoded).unwrap();
    let permitted = read.permitted_subtrees.as_ref().unwrap();
    assert_eq!(permitted.len(), 2);
    assert_eq!(permitted[0].base, GeneralNameRef::DnsName(b".example.com"));
    assert_eq!(permitted[0].minimum, 0);
    assert_eq!(permitted[0].maximum, None);
    assert_eq!(permitted[1].base, GeneralNameRef::DnsName(b"example.org"));
    let excluded = read.excluded_subtrees.as_ref().unwrap();
    assert_eq!(excluded.len(), 3);
    assert_eq!(excluded[0].base, GeneralNameRef::Rfc822Name(b"someone@example.com"));
    assert_eq!(excluded[1].base, GeneralNameRef::IpAddress(&[10, 0, 0, 0, 255, 0, 0, 0]));
    assert_eq!(excluded[2].base, GeneralNameRef::DirectoryName(Name::new()));
    let constraints = NameConstraints::try_from(read).unwrap();
    assert_eq!(constraints.permitted_subtrees().len(), 2);
    assert_eq!(constraints.excluded_subtrees().len(), 3);
    assert_eq!(constraints.to_der().unwrap(), encoded);
}

#[test]
fn name_constraints_round_trip() {
    let mut permitted = Names::new();
    permitted.insert(GeneralNameRef::DnsName(b".example.com"));
    permitted.insert(GeneralNameRef::UniformResourceIdentifier(b".example.net"));
    let mut directory = Name::new();
    directory.push(vec![0x30, 0x09, 0x06, 0x03, 0x55, 0x04, 0x06, 0x13, 0x02, 0x55, 0x53]);
    permitted.insert(GeneralNameRef::DirectoryName(directory));
    let mut excluded = Names::new();
    excluded.insert(GeneralNameRef::IpAddress(&[192, 168, 0, 0, 255, 255, 0, 0]));
    excluded.insert(GeneralNameRef::OtherName(OtherNameRef {
        type_id: &[0x2a, 0x03, 0x04],
        value: &[0x05, 0x00],
    }));
    excluded.insert(GeneralNameRef::RegisteredId(&[0x2a, 0x03, 0x04]));
    excluded.insert(GeneralNameRef::EdiPartyName(EdiPartyNameRef {
        name_assigner: Some(DirectoryStringRef::PrintableString(b"Assigner 1")),
        party_name: DirectoryStringRef::Utf8String("Pa\u{e9}rty".as_bytes()),
    }));
    let constraints = NameConstraints::new(permitted.clone(), excluded.clone()).unwrap();
    let encoded = constraints.to_der().unwrap();
    let read = NameConstraints::try_from(NameConstraintsRef::from_der(&encoded).unwrap()).unwrap();
    assert_eq!(read.permitted_subtrees(), &permitted);
    assert_eq!(read.excluded_subtrees(), &excluded);
    let only_excluded = NameConstraints::new(Names::new(), excluded.clone()).unwrap();
    let encoded = only_excluded.to_der().unwrap();
    assert_eq!(encoded[2], 0xa1);
    let read = NameConstraints::try_from(NameConstraintsRef::from_der(&encoded).unwrap()).unwrap();
    assert!(read.permitted_subtrees().is_empty());
    assert_eq!(read.excluded_subtrees(), &excluded);
}

#[test]
fn empty_name_constraints_are_invalid() {
    assert!(matches!(
        NameConstraints::new(Names::new(), Names::new()),
        Err(CertificateError::InvalidNameConstraints)
    ));
    let nothing = NameConstraintsRef { permitted_subtrees: None, excluded_subtrees: None };
    assert!(matches!(
        NameConstraints::try_from(nothing),
        Err(CertificateError::InvalidNameConstraints)
    ));
    let empty_lists =
        NameConstraintsRef { permitted_subtrees: Some(vec![]), excluded_subtrees: Some(vec![]) };
    assert!(matches!(
        NameConstraints::try_from(empty_lists),
        Err(CertificateError::InvalidNameConstraints)
    ));
    let read = NameConstraintsRef::from_der(&[0x30, 0x00]).unwrap();
    assert!(read.permitted_subtrees.is_none() && read.excluded_subtrees.is_none());
    assert!(matches!(
        NameConstraints::try_from(read),
        Err(CertificateError::InvalidNameConstraints)
    ));
}

#[test]
fn bounds_other_than_the_default_are_invalid() {
    let with_minimum = NameConstraintsRef {
        permitted_subtrees: Some(vec![GeneralSubtreeRef {
            base: GeneralNameRef::DnsName(b"example.com"),
            minimum: 1,
            maximum: None,
        }]),
        excluded_subtrees: None,
    };
    assert!(matches!(
        NameConstraints::try_from(with_minimum),
        Err(CertificateError::InvalidNameConstraints)
    ));
    let with_maximum = NameConstraintsRef {
        permitted_subtrees: Some(vec![GeneralSubtreeRef {
            base: GeneralNameRef::DnsName(b"example.com"),
            minimum: 0,
            maximum: None,
        }]),
        excluded_subtrees: Some(vec![GeneralSubtreeRef {
            base: GeneralNameRef::DnsName(b"example.org"),
            minimum: 0,
            maximum: Some(0),
        }]),
    };
    assert!(matches!(
        NameConstraints::try_from(with_maximum),
        Err(CertificateError::InvalidNameConstraints)
    ));
    let outside = OutsideConstraints {
        permitted_subtrees: Some(vec![GeneralSubtree {
            base: dns("example.com"),
            minimum: 2,
            maximum: Some(300),
        }]),
        excluded_subtrees: None,
    };
    let encoded = outside.to_der().unwrap();
    let read = NameConstraintsRef::from_der(&encoded).unwrap();
    let list = read.permitted_subtrees.as_ref().unwrap();
    assert_eq!(list[0].minimum, 2);
    assert_eq!(list[0].maximum, Some(300));
    assert!(matches!(
        NameConstraints::try_from(read),
        Err(CertificateError::InvalidNameConstraints)
    ));
}

#[test]
fn names_are_kept_once_where_constraints_repeat_them() {
    let repeated = NameConstraintsRef {
        permitted_subtrees: Some(vec![
            GeneralSubtreeRef { base: GeneralNameRef::DnsName(b"a"), minimum: 0, maximum: None },
            GeneralSubtreeRef { base: GeneralNameRef::DnsName(b"b"), minimum: 0, maximum: None },
            GeneralSubtreeRef { base: GeneralNameRef::DnsName(b"a"), minimum: 0, maximum: None },
        ]),
        excluded_subtrees: None,
    };
    let constraints = NameConstraints::try_from(repeated).unwrap();
    assert_eq!(constraints.permitted_subtrees().len(), 2);
    assert_eq!(constraints.permitted_subtrees().get(0), &GeneralNameRef::DnsName(b"a"));
    assert_eq!(constraints.permitted_subtrees().get(1), &GeneralNameRef::DnsName(b"b"));
    assert!(constraints.excluded_subtrees().is_empty());
}

#[test]
fn malformed_name_constraints_are_a_grammar_error() {
    assert!(matches!(NameConstraintsRef::from_der(&[]), Err(CertificateError::Asn1)));
    assert!(matches!(NameConstraintsRef::from_der(&[0x31, 0x00]), Err(CertificateError::Asn1)));
    assert!(matches!(
        NameConstraintsRef::from_der(&[0x30, 0x02, 0xa2, 0x00]),
        Err(CertificateError::Asn1)
    ));
    assert!(matches!(
        NameConstraintsRef::from_der(&[0x30, 0x04, 0xa1, 0x00, 0xa0, 0x00]),
        Err(CertificateError::Asn1)
    ));
    // a DNS name with an octet outside IA5
    assert!(matches!(
        NameConstraintsRef::from_der(&[0x30, 0x07, 0xa0, 0x05, 0x30, 0x03, 0x82, 0x01, 0xe9]),
        Err(CertificateError::Asn1)
    ));
    // an x400Address, which is not read
    assert!(matches!(
        NameConstraintsRef::from_der(&[0x30, 0x06, 0xa0, 0x04, 0x30, 0x02, 0xa3, 0x00]),
        Err(CertificateError::Asn1)
    ));
    assert!(NameConstraintsRef::from_der(&[0x30, 0x07, 0xa0, 0x05, 0x30, 0x03, 0x82, 0x01, 0x61])
        .is_ok());
}

#[test]
fn general_names_are_read_and_written() {
    let names = vec![dns("host.example.com"), dns("www.example.com")];
    let encoded = names.to_der().unwrap();
    let read = read_general_names(&encoded).unwrap();
    assert_eq!(
        read,
        vec![GeneralNameRef::DnsName(b"host.example.com"), GeneralNameRef::DnsName(b"www.example.com")]
    );
    assert_eq!(read[0].to_der().unwrap(), names[0].to_der().unwrap());
    assert_eq!(GeneralNameRef::from_der(&names[1].to_der().unwrap()).unwrap(), read[1]);
    assert!(read_general_names(&[0x30, 0x03, 0x82, 0x05, 0x61]).is_none());
    assert!(read_general_names(&[0x31, 0x00]).is_none());
    assert_eq!(read_general_names(&[0x30, 0x00]), Some(vec![]));
    assert!(GeneralNameRef::from_der(&[0x83, 0x00]).is_none());
    assert!(GeneralNameRef::from_tlv(0x86, &[0x80]).is_none());
    assert_eq!(
        GeneralNameRef::from_tlv(0x87, &[1, 2, 3, 4]),
        Some(GeneralNameRef::IpAddress(&[1, 2, 3, 4]))
    );
}

#[test]
fn errors_keep_their_kind_when_converted() {
    assert_eq!(CertificateError::InvalidPolicies.kind(), Fault::InvalidPolicies);
    assert_eq!(CertificateError::InvalidNameConstraints.kind(), Fault::InvalidNameConstraints);
    assert_eq!(
        CertificateError::UnsupportedCriticalExtension(vec![1]).kind(),
        Fault::UnsupportedCriticalExtension
    );
    assert_eq!(CertificateError::Asn1.kind(), Fault::Asn1);
    assert!(matches!(Error::from_certificate(CertificateError::Asn1), Error::Asn1));
    assert!(matches!(
        Error::from_certificate(CertificateError::InvalidPolicies),
        Error::Certificate(CertificateError::InvalidPolicies)
    ));
    assert_eq!(x509_path::verdict::Error::from_certificate(&CertificateError::Asn1), x509_path::verdict::Error::Der);
    assert_eq!(x509_path::verdict::Error::from_certificate(&CertificateError::InvalidPolicies), x509_path::verdict::Error::Der);
    assert_eq!(
        x509_path::verdict::Error::from_certificate(&CertificateError::InvalidNameConstraints),
        x509_path::verdict::Error::Der
    );
    assert_eq!(
        x509_path::verdict::Error::from_certificate(&CertificateError::UnsupportedCriticalExtension(vec![])),
        x509_path::verdict::Error::Verification
    );
}

#[test]
fn other_name_is_read_as_the_certificate_crate_writes_it() {
    let outside = GeneralName::OtherName(x509_cert::ext::pkix::name::OtherName {
        type_id: der::asn1::ObjectIdentifier::new_unwrap("1.3.6.1.4.1.311.20.2.3"),
        value: der::Any::new(der::Tag::Utf8String, "someone@example.com".as_bytes().to_vec())
            .unwrap(),
    });
    let encoded = outside.to_der().unwrap();
    let read = GeneralNameRef::from_der(&encoded).unwrap();
    match &read {
        GeneralNameRef::OtherName(name) => {
            assert_eq!(
                name.type_id,
                &[0x2b, 0x06, 0x01, 0x04, 0x01, 0x82, 0x37, 0x14, 0x02, 0x03]
            );
            assert_eq!(name.value[0], 0x0c);
            assert_eq!(&name.value[2..], b"someone@example.com");
        }
        _ => panic!("another form was read"),
    }
    assert_eq!(read.to_der().unwrap(), encoded);
    // the value has to be one element, and the identifier one
    assert!(GeneralNameRef::from_der(&[0xa0, 0x07, 0x06, 0x03, 0x2a, 0x03, 0x04, 0xa0, 0x00])
        .is_none());
    assert!(GeneralNameRef::from_der(&[
        0xa0, 0x09, 0x06, 0x03, 0x2a, 0x03, 0x84, 0xa0, 0x02, 0x05, 0x00
    ])
    .is_none());
    assert!(GeneralNameRef::from_der(&[
        0xa0, 0x09, 0x06, 0x03, 0x2a, 0x03, 0x04, 0xa0, 0x02, 0x05, 0x00
    ])
    .is_some());
}

#[test]
fn edi_party_name_is_read_as_the_certificate_crate_writes_it() {
    use_edi_party_name(Some("Assigner"), "Party");
    use_edi_party_name(None, "Party");
}

fn use_edi_party_name(assigner: Option<&str>, party: &str) {
    let string = |s: &str| {
        x509_cert::ext::pkix::name::DirectoryString::PrintableString(
            der::asn1::PrintableString::new(s).unwrap(),
        )
    };
    let outside = GeneralName::EdiPartyName(x509_cert::ext::pkix::name::EdiPartyName {
        name_assigner: assigner.map(string),
        party_name: string(party),
    });
    let encoded = outside.to_der().unwrap();
    let read = GeneralNameRef::from_der(&encoded).unwrap();
    let expected = GeneralNameRef::EdiPartyName(EdiPartyNameRef {
        name_assigner: assigner.map(|a| DirectoryStringRef::PrintableString(a.as_bytes())),
        party_name: DirectoryStringRef::PrintableString(party.as_bytes()),
    });
    assert_eq!(read, expected);
    assert_eq!(read.to_der().unwrap(), encoded);
}

#[test]
fn directory_strings_are_held_to_their_characters() {
    assert!(DirectoryStringRef::from_tlv(0x13, b"Example Corp (1), a=b?").is_some());
    assert!(DirectoryStringRef::from_tlv(0x13, b"a@b").is_none());
    assert!(DirectoryStringRef::from_tlv(0x13, b"a*b").is_none());
    assert!(DirectoryStringRef::from_tlv(0x14, b"a@b*").is_some());
    assert!(DirectoryStringRef::from_tlv(0x14, &[0x80]).is_none());
    assert!(DirectoryStringRef::from_tlv(0x0c, "gr\u{fc}n".as_bytes()).is_some());
    assert!(DirectoryStringRef::from_tlv(0x0c, &[0xc3]).is_none());
    assert!(DirectoryStringRef::from_tlv(0x0c, &[0xff, 0x41]).is_none());
    assert!(DirectoryStringRef::from_tlv(0x16, b"abc").is_none());
    let read = DirectoryStringRef::from_explicit(&[0x0c, 0x01, 0x41]).unwrap();
    assert_eq!(read, DirectoryStringRef::Utf8String(b"A"));
    assert_eq!(read.tag(), 0x0c);
    assert_eq!(read.as_bytes(), b"A");
    assert!(DirectoryStringRef::from_explicit(&[0x0c, 0x01, 0x41, 0x00]).is_none());
    assert!(read != DirectoryStringRef::PrintableString(b"A"));
}

#[test]
fn registered_identifier_has_to_be_one() {
    let outside =
        GeneralName::RegisteredId(der::asn1::ObjectIdentifier::new_unwrap("1.2.840.113549"));
    let encoded = outside.to_der().unwrap();
    let read = GeneralNameRef::from_der(&encoded).unwrap();
    assert_eq!(read, GeneralNameRef::RegisteredId(&[0x2a, 0x86, 0x48, 0x86, 0xf7, 0x0d]));
    assert_eq!(read.to_der().unwrap(), encoded);
    assert!(GeneralNameRef::from_der(&[0x88, 0x00]).is_none());
    assert!(GeneralNameRef::from_der(&[0x88, 0x03, 0x2a, 0x03, 0x84]).is_none());
}

#[test]
fn distribution_point_names_are_read_and_written() {
    let outside = x509_cert::ext::pkix::name::DistributionPointName::FullName(vec![
        GeneralName::UniformResourceIdentifier(
            Ia5String::new("http://crl.example.com/root.crl").unwrap(),
        ),
        dns("crl.example.com"),
    ]);
    let encoded = outside.to_der().unwrap();
    let (tag, content) = read_whole(&encoded).unwrap();
    let read = DistributionPointNameRef::from_tlv(tag, content).unwrap();
    match &read {
        DistributionPointNameRef::FullName(names) => {
            assert_eq!(names.len(), 2);
            assert_eq!(
                names[0],
                GeneralNameRef::UniformResourceIdentifier(b"http://crl.example.com/root.crl")
            );
            assert_eq!(names[1], GeneralNameRef::DnsName(b"crl.example.com"));
        }
        _ => panic!("another form was read"),
    }
    assert_eq!(read.to_der().unwrap(), encoded);
    let relative = DistributionPointNameRef::from_tlv(0xa1, &[0x30, 0x03, 0x06, 0x01, 0x2a]);
    match relative.as_ref().unwrap() {
        DistributionPointNameRef::NameRelativeToCRLIssuer(rdn) => {
            assert_eq!(rdn, &vec![0x30, 0x03, 0x06, 0x01, 0x2a])
        }
        _ => panic!("another form was read"),
    }
    assert_eq!(
        relative.unwrap().to_der().unwrap(),
        vec![0xa1, 0x05, 0x30, 0x03, 0x06, 0x01, 0x2a]
    );
    assert!(DistributionPointNameRef::from_tlv(0xa2, &[]).is_none());
    assert!(DistributionPointNameRef::from_tlv(0xa0, &[0x82]).is_none());
}

#[test]
fn sequence_of_general_names_is_written_as_the_certificate_crate_writes_it() {
    let names = vec![dns("host.example.com"), dns("www.example.com")];
    let ours = write_general_names(&[
        GeneralNameRef::DnsName(b"host.example.com"),
        GeneralNameRef::DnsName(b"www.example.com"),
    ])
    .unwrap();
    assert_eq!(ours, names.to_der().unwrap());
    assert_eq!(write_general_names(&[]).unwrap(), vec![0x30, 0x00]);
}

#[test]
fn names_that_are_not_well_formed_are_not_written() {
    assert!(GeneralNameRef::DnsName(&[0xe9]).to_der().is_none());
    assert!(GeneralNameRef::Rfc822Name(&[0x80]).to_der().is_none());
    assert!(GeneralNameRef::UniformResourceIdentifier(&[0xff]).to_der().is_none());
    assert!(GeneralNameRef::RegisteredId(&[0x2a, 0x03, 0x84]).to_der().is_none());
    assert!(GeneralNameRef::OtherName(OtherNameRef { type_id: &[0x2a, 0x03, 0x04], value: &[] })
        .to_der()
        .is_none());
    assert!(GeneralNameRef::OtherName(OtherNameRef { type_id: &[], value: &[0x05, 0x00] })
        .to_der()
        .is_none());
    assert!(GeneralNameRef::EdiPartyName(EdiPartyNameRef {
        name_assigner: None,
        party_name: DirectoryStringRef::PrintableString(b"a@b"),
    })
    .to_der()
    .is_none());
    assert!(GeneralNameRef::EdiPartyName(EdiPartyNameRef {
        name_assigner: Some(DirectoryStringRef::Utf8String(&[0xc3])),
        party_name: DirectoryStringRef::PrintableString(b"ab"),
    })
    .to_der()
    .is_none());
    assert!(GeneralNameRef::IpAddress(&[1, 2, 3]).to_der().is_some());
    let mut excluded = Names::new();
    excluded.insert(GeneralNameRef::DnsName(&[0xe9]));
    let constraints = NameConstraints::new(Names::new(), excluded).unwrap();
    assert!(constraints.to_der().is_none());
    assert!(write_general_names(&[GeneralNameRef::DnsName(&[0xe9])]).is_none());
}

#[test]
fn encoded_name_constraints_are_read_and_taken_over() {
    let mut permitted = Names::new();
    permitted.insert(GeneralNameRef::DnsName(b".example.com"));
    let constraints = NameConstraints::new(permitted, Names::new()).unwrap();
    let encoded = constraints.to_der().unwrap();
    assert_eq!(
        encoded,
        vec![
            0x30, 0x12, 0xa0, 0x10, 0x30, 0x0e, 0x82, 0x0c, b'.', b'e', b'x', b'a', b'm', b'p',
            b'l', b'e', b'.', b'c', b'o', b'm'
        ]
    );
    let read = NameConstraints::from_der(&encoded).unwrap();
    assert!(read == constraints);
    assert!(read.clone() == constraints);
    assert!(matches!(NameConstraints::from_der(&[0x30]), Err(CertificateError::Asn1)));
    assert!(matches!(
        NameConstraints::from_der(&[0x30, 0x00]),
        Err(CertificateError::InvalidNameConstraints)
    ));
    assert!(matches!(
        NameConstraints::from_der(&[
            0x30, 0x0a, 0xa0, 0x08, 0x30, 0x06, 0x82, 0x01, 0x61, 0x80, 0x01, 0x01
        ]),
        Err(CertificateError::InvalidNameConstraints)
    ));
}
