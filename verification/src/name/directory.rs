//! Distinguished names.
use crate::bytes::bytes_eq;
use crate::tlv::{
    encode_all, encode_one, lemma_parse_all_encoded, lemma_parse_one_encoded, parse_all,
    parse_whole, read_all, read_whole, write_tlv, Tlv, MAX_LENGTH,
};
use vstd::prelude::*;
use vstd::slice::slice_to_vec;

verus! {

/// The tag of a SEQUENCE.
pub const TAG_SEQUENCE: u8 = 0x30;

/// The tag of a SET.
pub const TAG_SET: u8 = 0x31;

/// The elements that stand for a list of relative distinguished names.
pub open spec fn rdn_tlvs(rdns: Seq<Seq<u8>>) -> Seq<Tlv> {
    Seq::new(rdns.len(), |i: int| Tlv { tag: TAG_SET, content: rdns[i] })
}

/// The relative distinguished names that a run of elements holds: each
/// element has to be a SET.
pub open spec fn rdns_of(ts: Seq<Tlv>) -> Option<Seq<Seq<u8>>> {
    if forall|i: int| 0 <= i < ts.len() ==> (#[trigger] ts[i]).tag == TAG_SET {
        Some(Seq::new(ts.len(), |i: int| ts[i].content))
    } else {
        None
    }
}

/// The encoding of a distinguished name: a SEQUENCE of its relative
/// distinguished names, each a SET.
pub open spec fn encode_name(rdns: Seq<Seq<u8>>) -> Seq<u8> {
    encode_one(Tlv { tag: TAG_SEQUENCE, content: encode_all(rdn_tlvs(rdns)) })
}

/// The distinguished name that `s` encodes.
pub open spec fn parse_name(s: Seq<u8>) -> Option<Seq<Seq<u8>>> {
    match parse_whole(s) {
        Some(t) => if t.tag == TAG_SEQUENCE {
            match parse_all(t.content) {
                Some(ts) => rdns_of(ts),
                None => None,
            }
        } else {
            None
        },
        None => None,
    }
}

/// Whether a distinguished name can be encoded: each relative distinguished
/// name, and all of them together, within `MAX_LENGTH`.
pub open spec fn name_fits(rdns: Seq<Seq<u8>>) -> bool {
    &&& forall|i: int| 0 <= i < rdns.len() ==> (#[trigger] rdns[i]).len() <= MAX_LENGTH
    &&& encode_all(rdn_tlvs(rdns)).len() <= MAX_LENGTH
}

/// A name that fits is read back from its encoding.
pub proof fn lemma_parse_name_encoded(rdns: Seq<Seq<u8>>)
    requires
        name_fits(rdns),
    ensures
        parse_name(encode_name(rdns)) == Some(rdns),
{
    let ts = rdn_tlvs(rdns);
    let outer = Tlv { tag: TAG_SEQUENCE, content: encode_all(ts) };
    lemma_parse_all_encoded(ts);
    lemma_parse_one_encoded(outer, Seq::empty());
    assert(encode_one(outer) + Seq::<u8>::empty() =~= encode_one(outer));
    assert(rdns_of(ts).unwrap() =~= rdns);
}

/// A distinguished name: its relative distinguished names in order, each
/// held as the content octets of its SET.
#[derive(Clone, Debug)]
pub struct Name {
    pub rdns: Vec<Vec<u8>>,
}

impl View for Name {
    type V = Seq<Seq<u8>>;

    open spec fn view(&self) -> Seq<Seq<u8>> {
        Seq::new(self.rdns@.len(), |i: int| self.rdns@[i]@)
    }
}

impl Name {
    /// The empty name.
    pub fn new() -> (name: Name)
        ensures
            name@ == Seq::<Seq<u8>>::empty(),
    {
        let name = Name { rdns: Vec::new() };
        assert(name@ =~= Seq::<Seq<u8>>::empty());
        name
    }

    /// How many relative distinguished names the name has.
    pub fn len(&self) -> (n: usize)
        ensures
            n == self@.len(),
    {
        self.rdns.len()
    }

    /// Whether the name has no relative distinguished name.
    pub fn is_empty(&self) -> (empty: bool)
        ensures
            empty == (self@.len() == 0),
    {
        self.rdns.len() == 0
    }

    /// Adds a relative distinguished name at the end.
    pub fn push(&mut self, rdn: Vec<u8>)
        ensures
            final(self)@ == old(self)@.push(rdn@),
    {
        self.rdns.push(rdn);
        assert(self@ =~= old(self)@.push(rdn@));
    }

    /// A copy of the name.
    pub fn copy(&self) -> (name: Name)
        ensures
            name@ == self@,
    {
        let mut rdns: Vec<Vec<u8>> = Vec::new();
        let mut i: usize = 0;
        while i < self.rdns.len()
            invariant
                i <= self.rdns@.len(),
                rdns@.len() == i,
                forall|j: int| 0 <= j < i ==> rdns@[j]@ == self.rdns@[j]@,
            decreases self.rdns@.len() - i,
        {
            rdns.push(slice_to_vec(self.rdns[i].as_slice()));
            i += 1;
        }
        let name = Name { rdns };
        assert(name@ =~= self@);
        name
    }

    /// Whether two names have the same relative distinguished names in the
    /// same order, octet for octet.
    pub fn same(&self, other: &Name) -> (same: bool)
        ensures
            same == (self@ == other@),
    {
        if self.rdns.len() != other.rdns.len() {
            return false;
        }
        let mut i: usize = 0;
        while i < self.rdns.len()
            invariant
                self.rdns@.len() == other.rdns@.len(),
                i <= self.rdns@.len(),
                forall|j: int| 0 <= j < i ==> self@[j] == other@[j],
            decreases self.rdns@.len() - i,
        {
            if !bytes_eq(self.rdns[i].as_slice(), other.rdns[i].as_slice()) {
                assert(self@[i as int] != other@[i as int]);
                return false;
            }
            i += 1;
        }
        assert(self@ =~= other@);
        true
    }

    /// Whether the relative distinguished names of `self` are the leading
    /// ones of `other`, octet for octet.
    pub fn is_prefix_of(&self, other: &Name) -> (prefix: bool)
        ensures
            prefix == self@.is_prefix_of(other@),
    {
        if self.rdns.len() > other.rdns.len() {
            return false;
        }
        let mut i: usize = 0;
        while i < self.rdns.len()
            invariant
                self.rdns@.len() <= other.rdns@.len(),
                i <= self.rdns@.len(),
                forall|j: int| 0 <= j < i ==> self@[j] == other@[j],
            decreases self.rdns@.len() - i,
        {
            if !bytes_eq(self.rdns[i].as_slice(), other.rdns[i].as_slice()) {
                assert(self@[i as int] != other@[i as int]);
                assert(self@ != other@.subrange(0, self@.len() as int)) by {
                    assert(other@.subrange(0, self@.len() as int)[i as int] == other@[i as int]);
                }
                return false;
            }
            i += 1;
        }
        assert(self@ =~= other@.subrange(0, self@.len() as int));
        true
    }

    /// Reads the content of a name's SEQUENCE: a run of SETs.
    pub fn from_content(content: &[u8]) -> (r: Option<Name>)
        ensures
            match r {
                Some(name) => parse_all(content@) matches Some(ts) && rdns_of(ts) == Some(name@),
                None => parse_all(content@) matches Some(ts) ==> rdns_of(ts) is None,
            },
    {
        let items = match read_all(content) {
            Some(items) => items,
            None => {
                return None;
            },
        };
        let ghost ts = parse_all(content@).unwrap();
        let mut rdns: Vec<Vec<u8>> = Vec::new();
        let mut i: usize = 0;
        while i < items.len()
            invariant
                i <= items@.len(),
                parse_all(content@) == Some(ts),
                ts.len() == items@.len(),
                forall|j: int|
                    0 <= j < ts.len() ==> (#[trigger] ts[j]) == (Tlv {
                        tag: items@[j].0,
                        content: items@[j].1@,
                    }),
                rdns@.len() == i,
                forall|j: int| 0 <= j < i ==> (#[trigger] ts[j]).tag == TAG_SET,
                forall|j: int| 0 <= j < i ==> (#[trigger] rdns@[j])@ == ts[j].content,
            decreases items@.len() - i,
        {
            let (tag, rdn) = items[i];
            if tag != TAG_SET {
                assert(ts[i as int].tag != TAG_SET);
                return None;
            }
            rdns.push(slice_to_vec(rdn));
            i += 1;
        }
        let name = Name { rdns };
        assert(rdns_of(ts).unwrap() =~= name@);
        Some(name)
    }

    /// Reads an encoded name.
    pub fn from_der(bytes: &[u8]) -> (r: Option<Name>)
        ensures
            match r {
                Some(name) => parse_name(bytes@) == Some(name@),
                None => parse_name(bytes@) is None,
            },
    {
        match read_whole(bytes) {
            Some((tag, content)) => {
                if tag == TAG_SEQUENCE {
                    Name::from_content(content)
                } else {
                    None
                }
            },
            None => None,
        }
    }

    /// Writes the content of the name's SEQUENCE: the SET of each relative
    /// distinguished name. `None` where one of them is longer than
    /// `MAX_LENGTH`.
    pub fn content_to_der(&self) -> (r: Option<Vec<u8>>)
        ensures
            match r {
                Some(out) => out@ == encode_all(rdn_tlvs(self@)) && forall|i: int|
                    0 <= i < self@.len() ==> (#[trigger] self@[i]).len() <= MAX_LENGTH,
                None => exists|i: int|
                    0 <= i < self@.len() && (#[trigger] self@[i]).len() > MAX_LENGTH,
            },
    {
        let mut out: Vec<u8> = Vec::new();
        let ghost ts = rdn_tlvs(self@);
        let mut i: usize = 0;
        while i < self.rdns.len()
            invariant
                i <= self.rdns@.len(),
                ts == rdn_tlvs(self@),
                out@ == encode_all(ts.subrange(0, i as int)),
                forall|j: int| 0 <= j < i ==> (#[trigger] self@[j]).len() <= MAX_LENGTH,
            decreases self.rdns@.len() - i,
        {
            let done = write_tlv(&mut out, TAG_SET, self.rdns[i].as_slice());
            if !done {
                assert(self@[i as int].len() > MAX_LENGTH);
                return None;
            }
            proof {
                crate::tlv::lemma_encode_all_push(ts.subrange(0, i as int), ts[i as int]);
                assert(ts.subrange(0, i + 1) =~= ts.subrange(0, i as int).push(ts[i as int]));
            }
            i += 1;
        }
        assert(ts.subrange(0, i as int) =~= ts);
        Some(out)
    }

    /// Writes the encoding of the name. `None` where the name does not fit.
    pub fn to_der(&self) -> (r: Option<Vec<u8>>)
        ensures
            match r {
                Some(out) => out@ == encode_name(self@) && name_fits(self@),
                None => !name_fits(self@),
            },
    {
        let content = match self.content_to_der() {
            Some(content) => content,
            None => {
                return None;
            },
        };
        let mut out: Vec<u8> = Vec::new();
        if write_tlv(&mut out, TAG_SEQUENCE, content.as_slice()) {
            assert(out@ =~= encode_name(self@));
            Some(out)
        } else {
            None
        }
    }
}

impl Default for Name {
    fn default() -> (name: Name)
        ensures
            name@ == Seq::<Seq<u8>>::empty(),
    {
        Name::new()
    }
}

impl PartialEq for Name {
    fn eq(&self, other: &Name) -> (same: bool) {
        self.same(other)
    }
}

impl vstd::std_specs::cmp::PartialEqSpecImpl for Name {
    open spec fn obeys_eq_spec() -> bool {
        true
    }

    open spec fn eq_spec(&self, other: &Name) -> bool {
        self@ == other@
    }
}

impl Eq for Name {

}

} // verus!
