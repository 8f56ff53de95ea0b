//! EDI party names.
use crate::name::dirstr::{DirectoryString, DirectoryStringRef};
use crate::tlv::{
    all_fit, encode_all, encode_one, lemma_encode_all_push, lemma_parse_all_encoded,
    lemma_parse_one_encoded, parse_all, read_all, write_tlv, Tlv, MAX_LENGTH,
};
use vstd::prelude::*;

verus! {

/// The tag of the `nameAssigner` of an EDI party name.
pub const TAG_NAME_ASSIGNER: u8 = 0xa0;

/// The tag of the `partyName` of an EDI party name.
pub const TAG_PARTY_NAME: u8 = 0xa1;

/// An EDI party name as a mathematical value.
pub struct EdiPartyName {
    pub name_assigner: Option<DirectoryString>,
    pub party_name: DirectoryString,
}

impl EdiPartyName {
    /// The elements that encode the name: the assigner, if there is one,
    /// and the party, each tagged explicitly.
    pub open spec fn to_tlvs(self) -> Seq<Tlv> {
        let party = Tlv { tag: TAG_PARTY_NAME, content: encode_one(self.party_name.to_tlv()) };
        match self.name_assigner {
            Some(a) => seq![
                Tlv { tag: TAG_NAME_ASSIGNER, content: encode_one(a.to_tlv()) },
                party,
            ],
            None => seq![party],
        }
    }

    /// The content of the name's encoding.
    pub open spec fn to_content(self) -> Seq<u8> {
        encode_all(self.to_tlvs())
    }

    /// The name that elements encode.
    pub open spec fn from_tlvs(ts: Seq<Tlv>) -> Option<EdiPartyName> {
        if ts.len() == 1 && ts[0].tag == TAG_PARTY_NAME {
            match DirectoryString::from_explicit(ts[0].content) {
                Some(party_name) => Some(EdiPartyName { name_assigner: None, party_name }),
                None => None,
            }
        } else if ts.len() == 2 && ts[0].tag == TAG_NAME_ASSIGNER && ts[1].tag == TAG_PARTY_NAME {
            match (
                DirectoryString::from_explicit(ts[0].content),
                DirectoryString::from_explicit(ts[1].content),
            ) {
                (Some(a), Some(party_name)) => Some(
                    EdiPartyName { name_assigner: Some(a), party_name },
                ),
                _ => None,
            }
        } else {
            None
        }
    }

    /// The name that a content encodes.
    pub open spec fn from_content(content: Seq<u8>) -> Option<EdiPartyName> {
        match parse_all(content) {
            Some(ts) => EdiPartyName::from_tlvs(ts),
            None => None,
        }
    }

    /// Whether the name is one that an encoding can give: its strings are
    /// well formed, and each string within its explicit tag, and both
    /// together, are within `MAX_LENGTH`.
    pub open spec fn well_formed(self) -> bool {
        &&& self.party_name.well_formed()
        &&& encode_one(self.party_name.to_tlv()).len() <= MAX_LENGTH
        &&& match self.name_assigner {
            Some(a) => a.well_formed() && encode_one(a.to_tlv()).len() <= MAX_LENGTH,
            None => true,
        }
        &&& self.to_content().len() <= MAX_LENGTH
    }

    /// A well-formed name is read back from the content that encodes it.
    pub proof fn lemma_from_content_to_content(self)
        requires
            self.well_formed(),
        ensures
            EdiPartyName::from_content(self.to_content()) == Some(self),
    {
        let ts = self.to_tlvs();
        assert(all_fit(ts));
        lemma_parse_all_encoded(ts);
        let party = self.party_name.to_tlv();
        lemma_parse_one_encoded(party, Seq::empty());
        assert(encode_one(party) + Seq::<u8>::empty() =~= encode_one(party));
        self.party_name.lemma_from_tlv_to_tlv();
        match self.name_assigner {
            Some(a) => {
                lemma_parse_one_encoded(a.to_tlv(), Seq::empty());
                assert(encode_one(a.to_tlv()) + Seq::<u8>::empty() =~= encode_one(a.to_tlv()));
                a.lemma_from_tlv_to_tlv();
            },
            None => {},
        }
    }
}

/// An EDI party name whose strings are borrowed from the encoding that it
/// was read from.
#[derive(Clone, Copy, Debug)]
pub struct EdiPartyNameRef<'a> {
    pub name_assigner: Option<DirectoryStringRef<'a>>,
    pub party_name: DirectoryStringRef<'a>,
}

impl<'a> View for EdiPartyNameRef<'a> {
    type V = EdiPartyName;

    open spec fn view(&self) -> EdiPartyName {
        EdiPartyName {
            name_assigner: match self.name_assigner {
                Some(a) => Some(a@),
                None => None,
            },
            party_name: self.party_name@,
        }
    }
}

/// Writes a directory string within an explicit tag.
fn write_explicit(out: &mut Vec<u8>, tag: u8, string: &DirectoryStringRef<'_>) -> (done: bool)
    ensures
        done == (string@.well_formed() && encode_one(string@.to_tlv()).len() <= MAX_LENGTH),
        done ==> final(out)@ == old(out)@ + encode_one(
            Tlv { tag, content: encode_one(string@.to_tlv()) },
        ),
        !done ==> final(out)@ == old(out)@,
{
    let mut inner: Vec<u8> = Vec::new();
    if !string.write(&mut inner) {
        return false;
    }
    assert(inner@ =~= encode_one(string@.to_tlv()));
    write_tlv(out, tag, inner.as_slice())
}

impl<'a> EdiPartyNameRef<'a> {
    /// Reads an EDI party name from the content of its element.
    pub fn from_content(content: &'a [u8]) -> (r: Option<EdiPartyNameRef<'a>>)
        ensures
            match r {
                Some(name) => EdiPartyName::from_content(content@) == Some(name@),
                None => EdiPartyName::from_content(content@) is None,
            },
    {
        let items = match read_all(content) {
            Some(items) => items,
            None => {
                return None;
            },
        };
        let ghost ts = parse_all(content@).unwrap();
        if items.len() == 1 {
            assert(ts[0] == Tlv { tag: items@[0].0, content: items@[0].1@ });
            if items[0].0 != TAG_PARTY_NAME {
                return None;
            }
            match DirectoryStringRef::from_explicit(items[0].1) {
                Some(party_name) => Some(EdiPartyNameRef { name_assigner: None, party_name }),
                None => None,
            }
        } else if items.len() == 2 {
            assert(ts[0] == Tlv { tag: items@[0].0, content: items@[0].1@ });
            assert(ts[1] == Tlv { tag: items@[1].0, content: items@[1].1@ });
            if items[0].0 != TAG_NAME_ASSIGNER || items[1].0 != TAG_PARTY_NAME {
                return None;
            }
            match (
                DirectoryStringRef::from_explicit(items[0].1),
                DirectoryStringRef::from_explicit(items[1].1),
            ) {
                (Some(a), Some(party_name)) => Some(
                    EdiPartyNameRef { name_assigner: Some(a), party_name },
                ),
                _ => None,
            }
        } else {
            None
        }
    }

    /// Writes the content of the name's element. `None` where the name
    /// is not well formed.
    pub fn to_content(&self) -> (r: Option<Vec<u8>>)
        ensures
            match r {
                Some(out) => out@ == self@.to_content() && self@.well_formed(),
                None => !self@.well_formed(),
            },
    {
        let mut out: Vec<u8> = Vec::new();
        let ghost party = Tlv {
            tag: TAG_PARTY_NAME,
            content: encode_one(self.party_name@.to_tlv()),
        };
        match &self.name_assigner {
            Some(a) => {
                let ghost first = Tlv { tag: TAG_NAME_ASSIGNER, content: encode_one(a@.to_tlv()) };
                if !write_explicit(&mut out, TAG_NAME_ASSIGNER, a) {
                    return None;
                }
                if !write_explicit(&mut out, TAG_PARTY_NAME, &self.party_name) {
                    return None;
                }
                proof {
                    lemma_encode_all_push(Seq::empty(), first);
                    lemma_encode_all_push(seq![first], party);
                    assert(Seq::<Tlv>::empty().push(first) =~= seq![first]);
                    assert(seq![first].push(party) =~= self@.to_tlvs());
                    assert(out@ =~= self@.to_content());
                }
            },
            None => {
                if !write_explicit(&mut out, TAG_PARTY_NAME, &self.party_name) {
                    return None;
                }
                proof {
                    lemma_encode_all_push(Seq::empty(), party);
                    assert(Seq::<Tlv>::empty().push(party) =~= self@.to_tlvs());
                    assert(out@ =~= self@.to_content());
                }
            },
        }
        if out.len() > MAX_LENGTH {
            None
        } else {
            Some(out)
        }
    }

    /// Whether two names hold the same strings.
    pub fn same(&self, other: &EdiPartyNameRef<'_>) -> (same: bool)
        ensures
            same == (self@ == other@),
    {
        let assigners = match (&self.name_assigner, &other.name_assigner) {
            (Some(a), Some(b)) => a.same(b),
            (None, None) => true,
            _ => false,
        };
        assigners && self.party_name.same(&other.party_name)
    }
}

} // verus!
