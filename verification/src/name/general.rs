//! General names: the forms of name that a certificate can carry beside its
//! subject.
use crate::bytes::bytes_eq;
use crate::name::directory::{
    encode_name, lemma_parse_name_encoded, name_fits, parse_name, Name, TAG_SEQUENCE,
};
use crate::name::ediparty::{EdiPartyName, EdiPartyNameRef};
use crate::name::other::{OtherName, OtherNameRef};
use crate::oid::{format_oid, oid_text};
use crate::tlv::{
    encode_all, encode_one, lemma_encode_all_push, lemma_parse_all_encoded,
    lemma_parse_one_encoded, parse_all, parse_whole, read_all, read_whole, write_tlv, Tlv,
    MAX_LENGTH,
};
use vstd::prelude::*;

verus! {

/// The tag of an `otherName`.
pub const TAG_OTHER_NAME: u8 = 0xa0;

/// The tag of an `rfc822Name`.
pub const TAG_RFC822_NAME: u8 = 0x81;

/// The tag of a `dNSName`.
pub const TAG_DNS_NAME: u8 = 0x82;

/// The tag of a `directoryName`.
pub const TAG_DIRECTORY_NAME: u8 = 0xa4;

/// The tag of an `ediPartyName`.
pub const TAG_EDI_PARTY_NAME: u8 = 0xa5;

/// The tag of a `uniformResourceIdentifier`.
pub const TAG_URI: u8 = 0x86;

/// The tag of an `iPAddress`.
pub const TAG_IP_ADDRESS: u8 = 0x87;

/// The tag of a `registeredID`.
pub const TAG_REGISTERED_ID: u8 = 0x88;

/// A general name as a mathematical value. The forms that are written in
/// IA5 characters, the address and the identifier hold their octets; a
/// directory name holds its relative distinguished names.
pub enum GeneralName {
    OtherName(OtherName),
    Rfc822Name(Seq<u8>),
    DnsName(Seq<u8>),
    DirectoryName(Seq<Seq<u8>>),
    EdiPartyName(EdiPartyName),
    UniformResourceIdentifier(Seq<u8>),
    IpAddress(Seq<u8>),
    RegisteredId(Seq<u8>),
}

/// Whether every octet of `s` is an IA5 character.
pub open spec fn is_ia5(s: Seq<u8>) -> bool {
    forall|i: int| 0 <= i < s.len() ==> #[trigger] s[i] < 0x80
}

impl GeneralName {
    /// The element that encodes the name.
    pub open spec fn to_tlv(self) -> Tlv {
        match self {
            GeneralName::OtherName(n) => Tlv { tag: TAG_OTHER_NAME, content: n.to_content() },
            GeneralName::Rfc822Name(c) => Tlv { tag: TAG_RFC822_NAME, content: c },
            GeneralName::DnsName(c) => Tlv { tag: TAG_DNS_NAME, content: c },
            GeneralName::DirectoryName(rdns) => Tlv {
                tag: TAG_DIRECTORY_NAME,
                content: encode_name(rdns),
            },
            GeneralName::EdiPartyName(n) => Tlv {
                tag: TAG_EDI_PARTY_NAME,
                content: n.to_content(),
            },
            GeneralName::UniformResourceIdentifier(c) => Tlv { tag: TAG_URI, content: c },
            GeneralName::IpAddress(c) => Tlv { tag: TAG_IP_ADDRESS, content: c },
            GeneralName::RegisteredId(c) => Tlv { tag: TAG_REGISTERED_ID, content: c },
        }
    }

    /// The name that an element encodes. An unknown tag, a character outside
    /// IA5 where IA5 is asked for, content that does not follow the grammar
    /// of its form, and a registered identifier that is none give none.
    pub open spec fn from_tlv(t: Tlv) -> Option<GeneralName> {
        if t.tag == TAG_OTHER_NAME {
            match OtherName::from_content(t.content) {
                Some(n) => Some(GeneralName::OtherName(n)),
                None => None,
            }
        } else if t.tag == TAG_RFC822_NAME {
            if is_ia5(t.content) {
                Some(GeneralName::Rfc822Name(t.content))
            } else {
                None
            }
        } else if t.tag == TAG_DNS_NAME {
            if is_ia5(t.content) {
                Some(GeneralName::DnsName(t.content))
            } else {
                None
            }
        } else if t.tag == TAG_DIRECTORY_NAME {
            match parse_name(t.content) {
                Some(rdns) => Some(GeneralName::DirectoryName(rdns)),
                None => None,
            }
        } else if t.tag == TAG_EDI_PARTY_NAME {
            match EdiPartyName::from_content(t.content) {
                Some(n) => Some(GeneralName::EdiPartyName(n)),
                None => None,
            }
        } else if t.tag == TAG_URI {
            if is_ia5(t.content) {
                Some(GeneralName::UniformResourceIdentifier(t.content))
            } else {
                None
            }
        } else if t.tag == TAG_IP_ADDRESS {
            Some(GeneralName::IpAddress(t.content))
        } else if t.tag == TAG_REGISTERED_ID {
            if oid_text(t.content) is Some {
                Some(GeneralName::RegisteredId(t.content))
            } else {
                None
            }
        } else {
            None
        }
    }

    /// Whether the name can be encoded: its content, and what the content
    /// is made of, within `MAX_LENGTH`.
    pub open spec fn fits(self) -> bool {
        match self {
            GeneralName::DirectoryName(rdns) => name_fits(rdns) && encode_name(rdns).len()
                <= MAX_LENGTH,
            _ => self.to_tlv().content.len() <= MAX_LENGTH,
        }
    }

    /// Whether the name is one that an encoding can give: it fits, the
    /// forms written in IA5 hold IA5 characters only, a registered
    /// identifier is one, and the other forms follow their grammar.
    pub open spec fn well_formed(self) -> bool {
        &&& self.fits()
        &&& match self {
            GeneralName::OtherName(n) => n.well_formed(),
            GeneralName::Rfc822Name(c) => is_ia5(c),
            GeneralName::DnsName(c) => is_ia5(c),
            GeneralName::EdiPartyName(n) => n.well_formed(),
            GeneralName::UniformResourceIdentifier(c) => is_ia5(c),
            GeneralName::RegisteredId(c) => oid_text(c) is Some,
            _ => true,
        }
    }

    /// A well-formed name is read back from the element that encodes it.
    pub proof fn lemma_from_tlv_to_tlv(self)
        requires
            self.well_formed(),
        ensures
            GeneralName::from_tlv(self.to_tlv()) == Some(self),
            self.to_tlv().content.len() <= MAX_LENGTH,
    {
        match self {
            GeneralName::OtherName(n) => {
                n.lemma_from_content_to_content();
            },
            GeneralName::DirectoryName(rdns) => {
                lemma_parse_name_encoded(rdns);
            },
            GeneralName::EdiPartyName(n) => {
                n.lemma_from_content_to_content();
            },
            _ => {},
        }
    }
}

/// A general name whose octet strings are borrowed from the encoding that
/// it was read from. A directory name is held by value.
#[derive(Clone, Debug)]
pub enum GeneralNameRef<'a> {
    OtherName(OtherNameRef<'a>),
    Rfc822Name(&'a [u8]),
    DnsName(&'a [u8]),
    DirectoryName(Name),
    EdiPartyName(EdiPartyNameRef<'a>),
    UniformResourceIdentifier(&'a [u8]),
    IpAddress(&'a [u8]),
    RegisteredId(&'a [u8]),
}

impl<'a> View for GeneralNameRef<'a> {
    type V = GeneralName;

    open spec fn view(&self) -> GeneralName {
        match self {
            GeneralNameRef::OtherName(n) => GeneralName::OtherName(n@),
            GeneralNameRef::Rfc822Name(c) => GeneralName::Rfc822Name(c@),
            GeneralNameRef::DnsName(c) => GeneralName::DnsName(c@),
            GeneralNameRef::DirectoryName(name) => GeneralName::DirectoryName(name@),
            GeneralNameRef::EdiPartyName(n) => GeneralName::EdiPartyName(n@),
            GeneralNameRef::UniformResourceIdentifier(c) => GeneralName::UniformResourceIdentifier(
                c@,
            ),
            GeneralNameRef::IpAddress(c) => GeneralName::IpAddress(c@),
            GeneralNameRef::RegisteredId(c) => GeneralName::RegisteredId(c@),
        }
    }
}

/// Whether every octet of `s` is an IA5 character.
pub fn check_ia5(s: &[u8]) -> (ok: bool)
    ensures
        ok == is_ia5(s@),
{
    let mut i: usize = 0;
    while i < s.len()
        invariant
            i <= s@.len(),
            forall|j: int| 0 <= j < i ==> #[trigger] s@[j] < 0x80,
        decreases s@.len() - i,
    {
        if s[i] >= 0x80 {
            return false;
        }
        i += 1;
    }
    true
}

impl<'a> GeneralNameRef<'a> {
    /// Reads a general name from the tag and content of its element.
    pub fn from_tlv(tag: u8, content: &'a [u8]) -> (r: Option<GeneralNameRef<'a>>)
        ensures
            match r {
                Some(name) => GeneralName::from_tlv(Tlv { tag, content: content@ }) == Some(name@),
                None => GeneralName::from_tlv(Tlv { tag, content: content@ }) is None,
            },
    {
        if tag == TAG_OTHER_NAME {
            match OtherNameRef::from_content(content) {
                Some(name) => Some(GeneralNameRef::OtherName(name)),
                None => None,
            }
        } else if tag == TAG_RFC822_NAME {
            if check_ia5(content) {
                Some(GeneralNameRef::Rfc822Name(content))
            } else {
                None
            }
        } else if tag == TAG_DNS_NAME {
            if check_ia5(content) {
                Some(GeneralNameRef::DnsName(content))
            } else {
                None
            }
        } else if tag == TAG_DIRECTORY_NAME {
            match Name::from_der(content) {
                Some(name) => Some(GeneralNameRef::DirectoryName(name)),
                None => None,
            }
        } else if tag == TAG_EDI_PARTY_NAME {
            match EdiPartyNameRef::from_content(content) {
                Some(name) => Some(GeneralNameRef::EdiPartyName(name)),
                None => None,
            }
        } else if tag == TAG_URI {
            if check_ia5(content) {
                Some(GeneralNameRef::UniformResourceIdentifier(content))
            } else {
                None
            }
        } else if tag == TAG_IP_ADDRESS {
            Some(GeneralNameRef::IpAddress(content))
        } else if tag == TAG_REGISTERED_ID {
            if format_oid(content).is_some() {
                Some(GeneralNameRef::RegisteredId(content))
            } else {
                None
            }
        } else {
            None
        }
    }

    /// Reads an encoded general name.
    pub fn from_der(bytes: &'a [u8]) -> (r: Option<GeneralNameRef<'a>>)
        ensures
            match r {
                Some(name) => parse_whole(bytes@) matches Some(t) && GeneralName::from_tlv(t)
                    == Some(name@),
                None => parse_whole(bytes@) matches Some(t) ==> GeneralName::from_tlv(t) is None,
            },
    {
        match read_whole(bytes) {
            Some((tag, content)) => GeneralNameRef::from_tlv(tag, content),
            None => None,
        }
    }

    /// Appends the encoding of the name to `out`. Fails, leaving `out` as it
    /// was, where the name is not well formed.
    pub fn write(&self, out: &mut Vec<u8>) -> (done: bool)
        ensures
            done == self@.well_formed(),
            done ==> final(out)@ == old(out)@ + encode_one(self@.to_tlv()),
            !done ==> final(out)@ == old(out)@,
    {
        match self {
            GeneralNameRef::OtherName(n) => {
                match n.to_content() {
                    Some(inner) => write_tlv(out, TAG_OTHER_NAME, inner.as_slice()),
                    None => false,
                }
            },
            GeneralNameRef::Rfc822Name(c) => check_ia5(c) && write_tlv(out, TAG_RFC822_NAME, c),
            GeneralNameRef::DnsName(c) => check_ia5(c) && write_tlv(out, TAG_DNS_NAME, c),
            GeneralNameRef::DirectoryName(name) => {
                match name.to_der() {
                    Some(inner) => write_tlv(out, TAG_DIRECTORY_NAME, inner.as_slice()),
                    None => false,
                }
            },
            GeneralNameRef::EdiPartyName(n) => {
                match n.to_content() {
                    Some(inner) => write_tlv(out, TAG_EDI_PARTY_NAME, inner.as_slice()),
                    None => false,
                }
            },
            GeneralNameRef::UniformResourceIdentifier(c) => check_ia5(c) && write_tlv(
                out,
                TAG_URI,
                c,
            ),
            GeneralNameRef::IpAddress(c) => write_tlv(out, TAG_IP_ADDRESS, c),
            GeneralNameRef::RegisteredId(c) => format_oid(c).is_some() && write_tlv(
                out,
                TAG_REGISTERED_ID,
                c,
            ),
        }
    }

    /// The encoding of the name. `None` where the name is not well formed.
    pub fn to_der(&self) -> (r: Option<Vec<u8>>)
        ensures
            match r {
                Some(out) => out@ == encode_one(self@.to_tlv()) && self@.well_formed(),
                None => !self@.well_formed(),
            },
    {
        let mut out: Vec<u8> = Vec::new();
        if self.write(&mut out) {
            assert(out@ =~= encode_one(self@.to_tlv()));
            Some(out)
        } else {
            None
        }
    }

    /// Whether two names have the same form and the same content, octet for
    /// octet. Letters are not folded and nothing is normalised.
    pub fn same(&self, other: &GeneralNameRef<'_>) -> (same: bool)
        ensures
            same == (self@ == other@),
    {
        match (self, other) {
            (GeneralNameRef::OtherName(a), GeneralNameRef::OtherName(b)) => a.same(b),
            (GeneralNameRef::Rfc822Name(a), GeneralNameRef::Rfc822Name(b)) => bytes_eq(a, b),
            (GeneralNameRef::DnsName(a), GeneralNameRef::DnsName(b)) => bytes_eq(a, b),
            (GeneralNameRef::DirectoryName(a), GeneralNameRef::DirectoryName(b)) => a.same(b),
            (GeneralNameRef::EdiPartyName(a), GeneralNameRef::EdiPartyName(b)) => a.same(b),
            (
                GeneralNameRef::UniformResourceIdentifier(a),
                GeneralNameRef::UniformResourceIdentifier(b),
            ) => bytes_eq(a, b),
            (GeneralNameRef::IpAddress(a), GeneralNameRef::IpAddress(b)) => bytes_eq(a, b),
            (GeneralNameRef::RegisteredId(a), GeneralNameRef::RegisteredId(b)) => bytes_eq(a, b),
            _ => false,
        }
    }

    /// A copy of the name; its octet strings stay borrowed.
    pub fn copy(&self) -> (name: GeneralNameRef<'a>)
        ensures
            name@ == self@,
    {
        match self {
            GeneralNameRef::OtherName(n) => GeneralNameRef::OtherName(*n),
            GeneralNameRef::Rfc822Name(c) => GeneralNameRef::Rfc822Name(c),
            GeneralNameRef::DnsName(c) => GeneralNameRef::DnsName(c),
            GeneralNameRef::DirectoryName(name) => GeneralNameRef::DirectoryName(name.copy()),
            GeneralNameRef::EdiPartyName(n) => GeneralNameRef::EdiPartyName(*n),
            GeneralNameRef::UniformResourceIdentifier(c) => GeneralNameRef::UniformResourceIdentifier(
                c,
            ),
            GeneralNameRef::IpAddress(c) => GeneralNameRef::IpAddress(c),
            GeneralNameRef::RegisteredId(c) => GeneralNameRef::RegisteredId(c),
        }
    }
}

impl<'a> PartialEq for GeneralNameRef<'a> {
    fn eq(&self, other: &GeneralNameRef<'a>) -> (same: bool) {
        self.same(other)
    }
}

impl<'a> vstd::std_specs::cmp::PartialEqSpecImpl for GeneralNameRef<'a> {
    open spec fn obeys_eq_spec() -> bool {
        true
    }

    open spec fn eq_spec(&self, other: &GeneralNameRef<'a>) -> bool {
        self@ == other@
    }
}

impl<'a> Eq for GeneralNameRef<'a> {

}

/// The general names that a run of elements encodes.
pub open spec fn names_of(ts: Seq<Tlv>) -> Option<Seq<GeneralName>> {
    if forall|i: int| 0 <= i < ts.len() ==> GeneralName::from_tlv(#[trigger] ts[i]) is Some {
        Some(Seq::new(ts.len(), |i: int| GeneralName::from_tlv(ts[i]).unwrap()))
    } else {
        None
    }
}

/// The general names that `bytes` encodes: a SEQUENCE of them.
pub open spec fn parse_general_names(bytes: Seq<u8>) -> Option<Seq<GeneralName>> {
    match parse_whole(bytes) {
        Some(t) => if t.tag == TAG_SEQUENCE {
            names_of_content(t.content)
        } else {
            None
        },
        None => None,
    }
}

/// The general names that a list of borrowed names stands for.
pub open spec fn general_name_views(names: Seq<GeneralNameRef<'_>>) -> Seq<GeneralName> {
    Seq::new(names.len(), |i: int| names[i]@)
}

/// A list of general names.
pub type GeneralNameRefs<'a> = Vec<GeneralNameRef<'a>>;

/// The elements that encode a list of general names.
pub open spec fn name_tlvs(names: Seq<GeneralName>) -> Seq<Tlv> {
    Seq::new(names.len(), |i: int| names[i].to_tlv())
}

/// The general names that a content encodes: a run of them.
pub open spec fn names_of_content(content: Seq<u8>) -> Option<Seq<GeneralName>> {
    match parse_all(content) {
        Some(ts) => names_of(ts),
        None => None,
    }
}

/// Whether every name of a list is well formed.
pub open spec fn all_names_well_formed(names: Seq<GeneralName>) -> bool {
    forall|i: int| 0 <= i < names.len() ==> (#[trigger] names[i]).well_formed()
}

/// Whether a SEQUENCE of general names can be written: every name is well
/// formed, and all of them together are within `MAX_LENGTH`.
pub open spec fn names_encodable(names: Seq<GeneralName>) -> bool {
    all_names_well_formed(names) && encode_all(name_tlvs(names)).len() <= MAX_LENGTH
}

/// The encoding of a SEQUENCE of general names.
pub open spec fn encode_general_names(names: Seq<GeneralName>) -> Seq<u8> {
    encode_one(Tlv { tag: TAG_SEQUENCE, content: encode_all(name_tlvs(names)) })
}

/// A run of well-formed names is read back from its encoding.
pub proof fn lemma_names_round_trip(names: Seq<GeneralName>)
    requires
        all_names_well_formed(names),
    ensures
        names_of_content(encode_all(name_tlvs(names))) == Some(names),
{
    let ts = name_tlvs(names);
    assert forall|i: int| 0 <= i < ts.len() implies (#[trigger] ts[i]).content.len() <= MAX_LENGTH
        && GeneralName::from_tlv(ts[i]) == Some(names[i]) by {
        names[i].lemma_from_tlv_to_tlv();
    }
    lemma_parse_all_encoded(ts);
    assert(names_of(ts).unwrap() =~= names);
}

/// A SEQUENCE of names that can be written is read back from its encoding.
pub proof fn lemma_general_names_round_trip(names: Seq<GeneralName>)
    requires
        names_encodable(names),
    ensures
        parse_general_names(encode_general_names(names)) == Some(names),
{
    let outer = Tlv { tag: TAG_SEQUENCE, content: encode_all(name_tlvs(names)) };
    lemma_names_round_trip(names);
    lemma_parse_one_encoded(outer, Seq::empty());
    assert(encode_one(outer) + Seq::<u8>::empty() =~= encode_one(outer));
}

/// Reads a run of general names.
pub fn read_names<'a>(content: &'a [u8]) -> (r: Option<Vec<GeneralNameRef<'a>>>)
    ensures
        match r {
            Some(names) => names_of_content(content@) == Some(general_name_views(names@)),
            None => names_of_content(content@) is None,
        },
{
    let items = match read_all(content) {
        Some(items) => items,
        None => {
            return None;
        },
    };
    let ghost ts = parse_all(content@).unwrap();
    let mut names: Vec<GeneralNameRef<'a>> = Vec::new();
    let mut i: usize = 0;
    while i < items.len()
        invariant
            i <= items@.len(),
            parse_all(content@) == Some(ts),
            ts.len() == items@.len(),
            forall|j: int|
                0 <= j < ts.len() ==> (#[trigger] ts[j]) == (Tlv {
                    tag: items@[j].0,
                    content: items@[j].1@,
                }),
            names@.len() == i,
            forall|j: int|
                0 <= j < i ==> GeneralName::from_tlv(#[trigger] ts[j]) == Some(names@[j]@),
        decreases items@.len() - i,
    {
        match GeneralNameRef::from_tlv(items[i].0, items[i].1) {
            Some(name) => {
                names.push(name);
            },
            None => {
                assert(GeneralName::from_tlv(ts[i as int]) is None);
                return None;
            },
        }
        i += 1;
    }
    assert(names_of(ts).unwrap() =~= general_name_views(names@));
    Some(names)
}

/// Writes a run of general names. `None` where one of them is not well
/// formed.
pub fn write_names(names: &[GeneralNameRef<'_>]) -> (r: Option<Vec<u8>>)
    ensures
        match r {
            Some(out) => out@ == encode_all(name_tlvs(general_name_views(names@)))
                && all_names_well_formed(general_name_views(names@)),
            None => !all_names_well_formed(general_name_views(names@)),
        },
{
    let ghost views = general_name_views(names@);
    let ghost ts = name_tlvs(views);
    let mut out: Vec<u8> = Vec::new();
    let mut i: usize = 0;
    assert(ts.subrange(0, 0) =~= Seq::<Tlv>::empty());
    while i < names.len()
        invariant
            i <= names@.len(),
            views == general_name_views(names@),
            ts == name_tlvs(views),
            out@ == encode_all(ts.subrange(0, i as int)),
            forall|j: int| 0 <= j < i ==> (#[trigger] views[j]).well_formed(),
        decreases names@.len() - i,
    {
        assert(views[i as int] == names@[i as int]@);
        if !names[i].write(&mut out) {
            return None;
        }
        proof {
            lemma_encode_all_push(ts.subrange(0, i as int), ts[i as int]);
            assert(ts.subrange(0, i + 1) =~= ts.subrange(0, i as int).push(ts[i as int]));
        }
        i += 1;
    }
    assert(ts.subrange(0, i as int) =~= ts);
    Some(out)
}

/// Reads a SEQUENCE of general names, such as the value of a subject
/// alternative name extension.
pub fn read_general_names<'a>(bytes: &'a [u8]) -> (r: Option<Vec<GeneralNameRef<'a>>>)
    ensures
        match r {
            Some(names) => parse_general_names(bytes@) == Some(general_name_views(names@)),
            None => parse_general_names(bytes@) is None,
        },
{
    match read_whole(bytes) {
        Some((tag, content)) => {
            if tag == TAG_SEQUENCE {
                read_names(content)
            } else {
                None
            }
        },
        None => None,
    }
}

/// Writes a SEQUENCE of general names. `None` where a name is not well
/// formed, or all of them together do not fit.
pub fn write_general_names(names: &[GeneralNameRef<'_>]) -> (r: Option<Vec<u8>>)
    ensures
        match r {
            Some(out) => out@ == encode_general_names(general_name_views(names@))
                && names_encodable(general_name_views(names@)),
            None => !names_encodable(general_name_views(names@)),
        },
{
    let content = match write_names(names) {
        Some(content) => content,
        None => {
            return None;
        },
    };
    let mut out: Vec<u8> = Vec::new();
    if write_tlv(&mut out, TAG_SEQUENCE, content.as_slice()) {
        assert(out@ =~= encode_general_names(general_name_views(names@)));
        Some(out)
    } else {
        None
    }
}

} // verus!
