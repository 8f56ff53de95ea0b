//! Other names: a name of a kind that an identifier names.
use crate::bytes::bytes_eq;
use crate::oid::{format_oid, oid_text};
use crate::tlv::{
    all_fit, encode_all, lemma_encode_all_push, lemma_parse_all_encoded, parse_all,
    parse_whole, read_all, read_whole, write_tlv, Tlv, MAX_LENGTH,
};
use vstd::prelude::*;

verus! {

/// The tag of an OBJECT IDENTIFIER.
pub const TAG_OBJECT_IDENTIFIER: u8 = 0x06;

/// The tag of the `value` of an other name.
pub const TAG_VALUE: u8 = 0xa0;

/// An other name as a mathematical value: the content of the identifier
/// of its kind, and the encoding of its value.
pub struct OtherName {
    pub type_id: Seq<u8>,
    pub value: Seq<u8>,
}

impl OtherName {
    /// The elements that encode the name: the identifier, and the value
    /// tagged explicitly.
    pub open spec fn to_tlvs(self) -> Seq<Tlv> {
        seq![
            Tlv { tag: TAG_OBJECT_IDENTIFIER, content: self.type_id },
            Tlv { tag: TAG_VALUE, content: self.value },
        ]
    }

    /// The content of the name's encoding.
    pub open spec fn to_content(self) -> Seq<u8> {
        encode_all(self.to_tlvs())
    }

    /// The name that elements encode: an identifier, and within an
    /// explicit tag one element, whatever it is.
    pub open spec fn from_tlvs(ts: Seq<Tlv>) -> Option<OtherName> {
        if ts.len() == 2 && ts[0].tag == TAG_OBJECT_IDENTIFIER && oid_text(ts[0].content) is Some
            && ts[1].tag == TAG_VALUE && parse_whole(ts[1].content) is Some {
            Some(OtherName { type_id: ts[0].content, value: ts[1].content })
        } else {
            None
        }
    }

    /// The name that a content encodes.
    pub open spec fn from_content(content: Seq<u8>) -> Option<OtherName> {
        match parse_all(content) {
            Some(ts) => OtherName::from_tlvs(ts),
            None => None,
        }
    }

    /// Whether the name can be encoded: the identifier, the value, and
    /// both together, within `MAX_LENGTH`.
    pub open spec fn fits(self) -> bool {
        &&& self.type_id.len() <= MAX_LENGTH
        &&& self.value.len() <= MAX_LENGTH
        &&& self.to_content().len() <= MAX_LENGTH
    }

    /// Whether the name is one that an encoding can give: it fits, its
    /// identifier is one, and its value is one element.
    pub open spec fn well_formed(self) -> bool {
        &&& self.fits()
        &&& oid_text(self.type_id) is Some
        &&& parse_whole(self.value) is Some
    }

    /// A well-formed name is read back from the content that encodes it.
    pub proof fn lemma_from_content_to_content(self)
        requires
            self.well_formed(),
        ensures
            OtherName::from_content(self.to_content()) == Some(self),
    {
        assert(all_fit(self.to_tlvs()));
        lemma_parse_all_encoded(self.to_tlvs());
    }
}

/// An other name whose octets are borrowed from the encoding that it was
/// read from.
#[derive(Clone, Copy, Debug)]
pub struct OtherNameRef<'a> {
    /// The content of the identifier of the name's kind.
    pub type_id: &'a [u8],
    /// The encoding of the name's value.
    pub value: &'a [u8],
}

impl<'a> View for OtherNameRef<'a> {
    type V = OtherName;

    open spec fn view(&self) -> OtherName {
        OtherName { type_id: self.type_id@, value: self.value@ }
    }
}

impl<'a> OtherNameRef<'a> {
    /// Reads an other name from the content of its element.
    pub fn from_content(content: &'a [u8]) -> (r: Option<OtherNameRef<'a>>)
        ensures
            match r {
                Some(name) => OtherName::from_content(content@) == Some(name@),
                None => OtherName::from_content(content@) is None,
            },
    {
        let items = match read_all(content) {
            Some(items) => items,
            None => {
                return None;
            },
        };
        let ghost ts = parse_all(content@).unwrap();
        if items.len() != 2 {
            return None;
        }
        assert(ts[0] == Tlv { tag: items@[0].0, content: items@[0].1@ });
        assert(ts[1] == Tlv { tag: items@[1].0, content: items@[1].1@ });
        if items[0].0 != TAG_OBJECT_IDENTIFIER || items[1].0 != TAG_VALUE {
            return None;
        }
        if format_oid(items[0].1).is_none() {
            return None;
        }
        if read_whole(items[1].1).is_none() {
            return None;
        }
        Some(OtherNameRef { type_id: items[0].1, value: items[1].1 })
    }

    /// Writes the content of the name's element. `None` where the name
    /// is not well formed.
    pub fn to_content(&self) -> (r: Option<Vec<u8>>)
        ensures
            match r {
                Some(out) => out@ == self@.to_content() && self@.well_formed(),
                None => !self@.well_formed(),
            },
    {
        if format_oid(self.type_id).is_none() || read_whole(self.value).is_none() {
            return None;
        }
        let mut out: Vec<u8> = Vec::new();
        let ghost first = Tlv { tag: TAG_OBJECT_IDENTIFIER, content: self.type_id@ };
        let ghost second = Tlv { tag: TAG_VALUE, content: self.value@ };
        if !write_tlv(&mut out, TAG_OBJECT_IDENTIFIER, self.type_id) {
            return None;
        }
        if !write_tlv(&mut out, TAG_VALUE, self.value) {
            return None;
        }
        proof {
            lemma_encode_all_push(Seq::empty(), first);
            lemma_encode_all_push(seq![first], second);
            assert(Seq::<Tlv>::empty().push(first) =~= seq![first]);
            assert(seq![first].push(second) =~= self@.to_tlvs());
            assert(out@ =~= self@.to_content());
        }
        if out.len() > MAX_LENGTH {
            None
        } else {
            Some(out)
        }
    }

    /// Whether two names are of the same kind and hold the same value.
    pub fn same(&self, other: &OtherNameRef<'_>) -> (same: bool)
        ensures
            same == (self@ == other@),
    {
        bytes_eq(self.type_id, other.type_id) && bytes_eq(self.value, other.value)
    }
}

} // verus!
