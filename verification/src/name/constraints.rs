//! Name constraints: the subtrees of names that a certification authority
//! permits to, or excludes from, the certificates below it.
use crate::error::CertificateError;
use crate::name::directory::TAG_SEQUENCE;
use crate::name::general::{GeneralName, GeneralNameRef};
use crate::name::{distinct, inserted, lemma_distinct_of_no_duplicates, name_views, Names};
use crate::tlv::{
    all_fit, encode_all, encode_one, lemma_encode_all_push, lemma_parse_all_encoded,
    lemma_parse_one_encoded, parse_all, parse_whole, read_all, read_whole, write_tlv, Tlv,
    MAX_LENGTH,
};
use vstd::prelude::*;

verus! {

/// The tag of a subtree's `minimum`.
pub const TAG_MINIMUM: u8 = 0x80;

/// The tag of a subtree's `maximum`.
pub const TAG_MAXIMUM: u8 = 0x81;

/// The tag of `permittedSubtrees`.
pub const TAG_PERMITTED: u8 = 0xa0;

/// The tag of `excludedSubtrees`.
pub const TAG_EXCLUDED: u8 = 0xa1;

/// A subtree as a mathematical value: the name at its root and the bounds
/// on the distance from it.
pub struct GeneralSubtree {
    pub base: GeneralName,
    pub minimum: u32,
    pub maximum: Option<u32>,
}

/// The content of a name constraints extension as a mathematical value.
pub struct NameConstraintsValue {
    pub permitted: Option<Seq<GeneralSubtree>>,
    pub excluded: Option<Seq<GeneralSubtree>>,
}

/// The number that the octets of `s` write, most significant octet first.
pub open spec fn be_value(s: Seq<u8>) -> nat
    decreases s.len(),
{
    if s.len() == 0 {
        0
    } else {
        be_value(s.drop_last()) * 256 + s.last() as nat
    }
}

/// The number that the content of an INTEGER states, where it is the
/// shortest encoding of a number from 0 to `u32::MAX`.
pub open spec fn uint_of(content: Seq<u8>) -> Option<u32> {
    if content.len() == 0 || content.len() > 5 {
        None
    } else if content[0] >= 0x80 {
        None
    } else if content.len() > 1 && content[0] == 0 && content[1] < 0x80 {
        None
    } else if be_value(content) > u32::MAX {
        None
    } else {
        Some(be_value(content) as u32)
    }
}

/// The bounds that the elements after a subtree's base state: a minimum of
/// zero and no maximum where they are left out.
pub open spec fn bounds_of(ts: Seq<Tlv>) -> Option<(u32, Option<u32>)> {
    if ts.len() == 0 {
        Some((0u32, None))
    } else if ts.len() == 1 {
        if ts[0].tag == TAG_MINIMUM {
            match uint_of(ts[0].content) {
                Some(minimum) => Some((minimum, None)),
                None => None,
            }
        } else if ts[0].tag == TAG_MAXIMUM {
            match uint_of(ts[0].content) {
                Some(maximum) => Some((0u32, Some(maximum))),
                None => None,
            }
        } else {
            None
        }
    } else if ts.len() == 2 {
        if ts[0].tag == TAG_MINIMUM && ts[1].tag == TAG_MAXIMUM {
            match (uint_of(ts[0].content), uint_of(ts[1].content)) {
                (Some(minimum), Some(maximum)) => Some((minimum, Some(maximum))),
                _ => None,
            }
        } else {
            None
        }
    } else {
        None
    }
}

/// The subtree that an element encodes: a SEQUENCE of a general name and
/// the bounds.
pub open spec fn subtree_of(t: Tlv) -> Option<GeneralSubtree> {
    if t.tag != TAG_SEQUENCE {
        None
    } else {
        match parse_all(t.content) {
            Some(ts) => if ts.len() == 0 {
                None
            } else {
                match (GeneralName::from_tlv(ts[0]), bounds_of(ts.drop_first())) {
                    (Some(base), Some((minimum, maximum))) => Some(
                        GeneralSubtree { base, minimum, maximum },
                    ),
                    _ => None,
                }
            },
            None => None,
        }
    }
}

/// The subtrees that a run of elements encodes.
pub open spec fn subtrees_of(ts: Seq<Tlv>) -> Option<Seq<GeneralSubtree>> {
    if forall|i: int| 0 <= i < ts.len() ==> subtree_of(#[trigger] ts[i]) is Some {
        Some(Seq::new(ts.len(), |i: int| subtree_of(ts[i]).unwrap()))
    } else {
        None
    }
}

/// The subtrees that the content of a subtree list encodes.
pub open spec fn subtree_list_of(content: Seq<u8>) -> Option<Seq<GeneralSubtree>> {
    match parse_all(content) {
        Some(ts) => subtrees_of(ts),
        None => None,
    }
}

/// The two subtree lists that the elements of a name constraints SEQUENCE
/// encode: the permitted list, if there is one, before the excluded one.
pub open spec fn lists_of(ts: Seq<Tlv>) -> Option<NameConstraintsValue> {
    if ts.len() == 0 {
        Some(NameConstraintsValue { permitted: None, excluded: None })
    } else if ts.len() == 1 {
        if ts[0].tag == TAG_PERMITTED {
            match subtree_list_of(ts[0].content) {
                Some(list) => Some(NameConstraintsValue { permitted: Some(list), excluded: None }),
                None => None,
            }
        } else if ts[0].tag == TAG_EXCLUDED {
            match subtree_list_of(ts[0].content) {
                Some(list) => Some(NameConstraintsValue { permitted: None, excluded: Some(list) }),
                None => None,
            }
        } else {
            None
        }
    } else if ts.len() == 2 {
        if ts[0].tag == TAG_PERMITTED && ts[1].tag == TAG_EXCLUDED {
            match (subtree_list_of(ts[0].content), subtree_list_of(ts[1].content)) {
                (Some(permitted), Some(excluded)) => Some(
                    NameConstraintsValue { permitted: Some(permitted), excluded: Some(excluded) },
                ),
                _ => None,
            }
        } else {
            None
        }
    } else {
        None
    }
}

/// The name constraints that `bytes` encodes.
pub open spec fn parse_name_constraints(bytes: Seq<u8>) -> Option<NameConstraintsValue> {
    match parse_whole(bytes) {
        Some(t) => if t.tag != TAG_SEQUENCE {
            None
        } else {
            match parse_all(t.content) {
                Some(ts) => lists_of(ts),
                None => None,
            }
        },
        None => None,
    }
}

/// The names at the roots of a list of subtrees; none where there is no list.
pub open spec fn bases(list: Option<Seq<GeneralSubtree>>) -> Seq<GeneralName> {
    match list {
        Some(subtrees) => Seq::new(subtrees.len(), |i: int| subtrees[i].base),
        None => Seq::empty(),
    }
}

/// Whether every subtree of the list has a minimum of zero and no maximum.
pub open spec fn default_bounds(list: Option<Seq<GeneralSubtree>>) -> bool {
    match list {
        Some(subtrees) => forall|i: int|
            0 <= i < subtrees.len() ==> (#[trigger] subtrees[i]).minimum == 0
                && subtrees[i].maximum is None,
        None => true,
    }
}

/// Whether name constraints are admissible: every subtree has the default
/// bounds, and the two lists are not both empty.
pub open spec fn admissible(v: NameConstraintsValue) -> bool {
    &&& default_bounds(v.permitted)
    &&& default_bounds(v.excluded)
    &&& bases(v.permitted).len() + bases(v.excluded).len() > 0
}

/// Name constraints without a subtree are not admissible, nor are name
/// constraints with a subtree that states a minimum other than zero, or a
/// maximum.
pub proof fn lemma_not_admissible(v: NameConstraintsValue, list: Seq<GeneralSubtree>, i: int)
    ensures
        bases(v.permitted).len() == 0 && bases(v.excluded).len() == 0 ==> !admissible(v),
        (v.permitted == Some(list) || v.excluded == Some(list)) && 0 <= i < list.len() && (
        list[i].minimum != 0 || list[i].maximum is Some) ==> !admissible(v),
{
}

/// A subtree whose name is borrowed from the encoding that it was read from.
#[derive(Clone, Debug)]
pub struct GeneralSubtreeRef<'a> {
    pub base: GeneralNameRef<'a>,
    pub minimum: u32,
    pub maximum: Option<u32>,
}

impl<'a> View for GeneralSubtreeRef<'a> {
    type V = GeneralSubtree;

    open spec fn view(&self) -> GeneralSubtree {
        GeneralSubtree { base: self.base@, minimum: self.minimum, maximum: self.maximum }
    }
}

/// A list of subtrees.
pub type GeneralSubtreeRefs<'a> = Vec<GeneralSubtreeRef<'a>>;

/// The subtrees that a list of borrowed subtrees stands for.
pub open spec fn subtree_views(subtrees: Seq<GeneralSubtreeRef<'_>>) -> Seq<GeneralSubtree> {
    Seq::new(subtrees.len(), |i: int| subtrees[i]@)
}

/// The subtrees that an optional list of borrowed subtrees stands for.
pub open spec fn list_view(list: Option<Vec<GeneralSubtreeRef<'_>>>) -> Option<
    Seq<GeneralSubtree>,
> {
    match list {
        Some(subtrees) => Some(subtree_views(subtrees@)),
        None => None,
    }
}

/// The content of a name constraints extension, as it was read.
#[derive(Clone, Debug)]
pub struct NameConstraintsRef<'a> {
    pub permitted_subtrees: Option<Vec<GeneralSubtreeRef<'a>>>,
    pub excluded_subtrees: Option<Vec<GeneralSubtreeRef<'a>>>,
}

impl<'a> View for NameConstraintsRef<'a> {
    type V = NameConstraintsValue;

    open spec fn view(&self) -> NameConstraintsValue {
        NameConstraintsValue {
            permitted: list_view(self.permitted_subtrees),
            excluded: list_view(self.excluded_subtrees),
        }
    }
}

/// Reads the content of an INTEGER that states a number from 0 to `u32::MAX`.
pub fn read_uint(content: &[u8]) -> (r: Option<u32>)
    ensures
        r == uint_of(content@),
{
    let n = content.len();
    if n == 0 || n > 5 {
        return None;
    }
    if content[0] >= 0x80 {
        return None;
    }
    if n > 1 && content[0] == 0 && content[1] < 0x80 {
        return None;
    }
    let mut value: u64 = 0;
    let mut i: usize = 0;
    assert(content@.subrange(0, 0) =~= Seq::<u8>::empty());
    while i < n
        invariant
            n == content@.len(),
            n <= 5,
            i <= n,
            value == be_value(content@.subrange(0, i as int)),
            i <= 0 ==> value == 0,
            i <= 1 ==> value < 0x100,
            i <= 2 ==> value < 0x1_0000,
            i <= 3 ==> value < 0x100_0000,
            i <= 4 ==> value < 0x1_0000_0000,
            i <= 5 ==> value < 0x100_0000_0000,
        decreases n - i,
    {
        assert(content@.subrange(0, i + 1).drop_last() =~= content@.subrange(0, i as int));
        value = value * 256 + content[i] as u64;
        i += 1;
    }
    assert(content@.subrange(0, n as int) =~= content@);
    if value > 0xffff_ffff {
        None
    } else {
        Some(value as u32)
    }
}

impl<'a> GeneralSubtreeRef<'a> {
    /// Reads a subtree from the tag and content of its element.
    pub fn from_tlv(tag: u8, content: &'a [u8]) -> (r: Option<GeneralSubtreeRef<'a>>)
        ensures
            match r {
                Some(subtree) => subtree_of(Tlv { tag, content: content@ }) == Some(subtree@),
                None => subtree_of(Tlv { tag, content: content@ }) is None,
            },
    {
        if tag != TAG_SEQUENCE {
            return None;
        }
        let items = match read_all(content) {
            Some(items) => items,
            None => {
                return None;
            },
        };
        let ghost ts = parse_all(content@).unwrap();
        if items.len() == 0 || items.len() > 3 {
            return None;
        }
        assert(ts[0] == Tlv { tag: items@[0].0, content: items@[0].1@ });
        let base = match GeneralNameRef::from_tlv(items[0].0, items[0].1) {
            Some(base) => base,
            None => {
                return None;
            },
        };
        let ghost after = ts.drop_first();
        let mut minimum: u32 = 0;
        let mut maximum: Option<u32> = None;
        if items.len() == 2 {
            assert(after[0] == Tlv { tag: items@[1].0, content: items@[1].1@ });
            let value = match read_uint(items[1].1) {
                Some(value) => value,
                None => {
                    return None;
                },
            };
            if items[1].0 == TAG_MINIMUM {
                minimum = value;
            } else if items[1].0 == TAG_MAXIMUM {
                maximum = Some(value);
            } else {
                return None;
            }
        } else if items.len() == 3 {
            assert(after[0] == Tlv { tag: items@[1].0, content: items@[1].1@ });
            assert(after[1] == Tlv { tag: items@[2].0, content: items@[2].1@ });
            if items[1].0 != TAG_MINIMUM || items[2].0 != TAG_MAXIMUM {
                return None;
            }
            match (read_uint(items[1].1), read_uint(items[2].1)) {
                (Some(low), Some(high)) => {
                    minimum = low;
                    maximum = Some(high);
                },
                _ => {
                    return None;
                },
            }
        }
        Some(GeneralSubtreeRef { base, minimum, maximum })
    }
}

/// Reads the content of a subtree list.
pub fn read_subtree_list<'a>(content: &'a [u8]) -> (r: Option<Vec<GeneralSubtreeRef<'a>>>)
    ensures
        match r {
            Some(list) => subtree_list_of(content@) == Some(subtree_views(list@)),
            None => subtree_list_of(content@) is None,
        },
{
    let items = match read_all(content) {
        Some(items) => items,
        None => {
            return None;
        },
    };
    let ghost ts = parse_all(content@).unwrap();
    let mut list: Vec<GeneralSubtreeRef<'a>> = Vec::new();
    let mut i: usize = 0;
    while i < items.len()
        invariant
            i <= items@.len(),
            parse_all(content@) == Some(ts),
            ts.len() == items@.len(),
            forall|j: int|
                0 <= j < ts.len() ==> (#[trigger] ts[j]) == (Tlv {
                    tag: items@[j].0,
                    content: items@[j].1@,
                }),
            list@.len() == i,
            forall|j: int| 0 <= j < i ==> subtree_of(#[trigger] ts[j]) == Some(list@[j]@),
        decreases items@.len() - i,
    {
        match GeneralSubtreeRef::from_tlv(items[i].0, items[i].1) {
            Some(subtree) => {
                list.push(subtree);
            },
            None => {
                assert(subtree_of(ts[i as int]) is None);
                return None;
            },
        }
        i += 1;
    }
    assert(subtrees_of(ts).unwrap() =~= subtree_views(list@));
    Some(list)
}

impl<'a> NameConstraintsRef<'a> {
    /// Reads the content of a name constraints extension. Content that does
    /// not follow the grammar gives `CertificateError::Asn1`.
    pub fn from_der(bytes: &'a [u8]) -> (r: Result<NameConstraintsRef<'a>, CertificateError>)
        ensures
            match r {
                Ok(constraints) => parse_name_constraints(bytes@) == Some(constraints@),
                Err(e) => parse_name_constraints(bytes@) is None && e is Asn1,
            },
    {
        let (tag, content) = match read_whole(bytes) {
            Some(whole) => whole,
            None => {
                return Err(CertificateError::Asn1);
            },
        };
        if tag != TAG_SEQUENCE {
            return Err(CertificateError::Asn1);
        }
        let items = match read_all(content) {
            Some(items) => items,
            None => {
                return Err(CertificateError::Asn1);
            },
        };
        let ghost ts = parse_all(content@).unwrap();
        if items.len() == 0 {
            Ok(NameConstraintsRef { permitted_subtrees: None, excluded_subtrees: None })
        } else if items.len() == 1 {
            assert(ts[0] == Tlv { tag: items@[0].0, content: items@[0].1@ });
            let list = match read_subtree_list(items[0].1) {
                Some(list) => list,
                None => {
                    return Err(CertificateError::Asn1);
                },
            };
            if items[0].0 == TAG_PERMITTED {
                Ok(NameConstraintsRef { permitted_subtrees: Some(list), excluded_subtrees: None })
            } else if items[0].0 == TAG_EXCLUDED {
                Ok(NameConstraintsRef { permitted_subtrees: None, excluded_subtrees: Some(list) })
            } else {
                Err(CertificateError::Asn1)
            }
        } else if items.len() == 2 {
            assert(ts[0] == Tlv { tag: items@[0].0, content: items@[0].1@ });
            assert(ts[1] == Tlv { tag: items@[1].0, content: items@[1].1@ });
            if items[0].0 != TAG_PERMITTED || items[1].0 != TAG_EXCLUDED {
                return Err(CertificateError::Asn1);
            }
            match (read_subtree_list(items[0].1), read_subtree_list(items[1].1)) {
                (Some(permitted), Some(excluded)) => Ok(
                    NameConstraintsRef {
                        permitted_subtrees: Some(permitted),
                        excluded_subtrees: Some(excluded),
                    },
                ),
                _ => Err(CertificateError::Asn1),
            }
        } else {
            Err(CertificateError::Asn1)
        }
    }
}

/// The elements of a subtree list over `names`: each subtree a SEQUENCE that
/// holds the name alone, its bounds being the default ones.
pub open spec fn subtree_tlvs(names: Seq<GeneralName>) -> Seq<Tlv> {
    Seq::new(
        names.len(),
        |i: int| Tlv { tag: TAG_SEQUENCE, content: encode_one(names[i].to_tlv()) },
    )
}

/// The element that holds the subtree list over `names` under `tag`; an
/// empty list is left out.
pub open spec fn list_tlvs(tag: u8, names: Seq<GeneralName>) -> Seq<Tlv> {
    if names.len() == 0 {
        Seq::empty()
    } else {
        seq![Tlv { tag, content: encode_all(subtree_tlvs(names)) }]
    }
}

/// The encoding of name constraints over the two lists of names.
pub open spec fn encode_name_constraints(
    permitted: Seq<GeneralName>,
    excluded: Seq<GeneralName>,
) -> Seq<u8> {
    encode_one(
        Tlv {
            tag: TAG_SEQUENCE,
            content: encode_all(
                list_tlvs(TAG_PERMITTED, permitted) + list_tlvs(TAG_EXCLUDED, excluded),
            ),
        },
    )
}

/// Whether a subtree list over `names` can be encoded: each name is well
/// formed, and each subtree and the list are within `MAX_LENGTH`.
pub open spec fn list_encodable(names: Seq<GeneralName>) -> bool {
    &&& forall|i: int|
        0 <= i < names.len() ==> (#[trigger] names[i]).well_formed() && encode_one(
            names[i].to_tlv(),
        ).len() <= MAX_LENGTH
    &&& encode_all(subtree_tlvs(names)).len() <= MAX_LENGTH
}

/// Whether name constraints over the two lists can be encoded.
pub open spec fn constraints_encodable(
    permitted: Seq<GeneralName>,
    excluded: Seq<GeneralName>,
) -> bool {
    &&& list_encodable(permitted)
    &&& list_encodable(excluded)
    &&& encode_all(list_tlvs(TAG_PERMITTED, permitted) + list_tlvs(TAG_EXCLUDED, excluded)).len()
        <= MAX_LENGTH
}

/// The encoding of a run of one element.
pub proof fn lemma_encode_all_single(t: Tlv)
    ensures
        encode_all(seq![t]) == encode_one(t),
{
    lemma_encode_all_push(Seq::empty(), t);
    assert(Seq::<Tlv>::empty().push(t) =~= seq![t]);
    assert(encode_all(Seq::<Tlv>::empty()) + encode_one(t) =~= encode_one(t));
}

/// A subtree list that can be encoded is read back as its names, each
/// with the default bounds.
pub proof fn lemma_subtree_list_round_trip(names: Seq<GeneralName>)
    requires
        list_encodable(names),
    ensures
        subtree_list_of(encode_all(subtree_tlvs(names))) matches Some(list) && bases(Some(list))
            == names && default_bounds(Some(list)),
{
    let ts = subtree_tlvs(names);
    assert forall|i: int| 0 <= i < ts.len() implies subtree_of(#[trigger] ts[i]) == Some(
        GeneralSubtree { base: names[i], minimum: 0, maximum: None },
    ) by {
        let inner = names[i].to_tlv();
        names[i].lemma_from_tlv_to_tlv();
        lemma_encode_all_single(inner);
        assert(all_fit(seq![inner]));
        lemma_parse_all_encoded(seq![inner]);
        assert(seq![inner].drop_first() =~= Seq::<Tlv>::empty());
    }
    assert(all_fit(ts));
    lemma_parse_all_encoded(ts);
    let list = subtrees_of(ts).unwrap();
    assert(bases(Some(list)) =~= names);
}

/// Encoding then decoding gives the constraints back: where the two lists
/// hold no name twice, are not both empty and can be encoded, their
/// encoding is read as admissible name constraints over the same lists.
pub proof fn lemma_name_constraints_round_trip(
    permitted: Seq<GeneralName>,
    excluded: Seq<GeneralName>,
)
    requires
        permitted.no_duplicates(),
        excluded.no_duplicates(),
        permitted.len() + excluded.len() > 0,
        constraints_encodable(permitted, excluded),
    ensures
        parse_name_constraints(encode_name_constraints(permitted, excluded)) matches Some(v)
            && admissible(v) && distinct(bases(v.permitted)) == permitted && distinct(
            bases(v.excluded),
        ) == excluded,
{
    let p = list_tlvs(TAG_PERMITTED, permitted);
    let e = list_tlvs(TAG_EXCLUDED, excluded);
    let ts = p + e;
    let outer = Tlv { tag: TAG_SEQUENCE, content: encode_all(ts) };
    lemma_parse_one_encoded(outer, Seq::empty());
    assert(encode_one(outer) + Seq::<u8>::empty() =~= encode_one(outer));
    assert(all_fit(ts));
    lemma_parse_all_encoded(ts);
    lemma_subtree_list_round_trip(permitted);
    lemma_subtree_list_round_trip(excluded);
    lemma_distinct_of_no_duplicates(permitted);
    lemma_distinct_of_no_duplicates(excluded);
    let v = lists_of(ts).unwrap();
    if permitted.len() == 0 {
        assert(bases(v.permitted) =~= permitted);
    }
    if excluded.len() == 0 {
        assert(bases(v.excluded) =~= excluded);
    }
}

/// The names of a list of subtrees are the names of the list with one
/// subtree less, and the name of that subtree.
proof fn lemma_distinct_step(names: Seq<GeneralName>, i: int)
    requires
        0 <= i < names.len(),
    ensures
        distinct(names.subrange(0, i + 1)) == inserted(
            distinct(names.subrange(0, i)),
            names[i],
        ),
{
    assert(names.subrange(0, i + 1).drop_last() =~= names.subrange(0, i));
}

/// Collects the names at the roots of a list of subtrees, each once. `None`
/// where a subtree states a minimum other than zero, or a maximum.
fn collect_bases<'a>(list: &Option<Vec<GeneralSubtreeRef<'a>>>) -> (r: Option<Names<'a>>)
    ensures
        match r {
            Some(names) => default_bounds(list_view(*list)) && names@ == distinct(
                bases(list_view(*list)),
            ),
            None => !default_bounds(list_view(*list)),
        },
{
    let mut names = Names::new();
    let ghost all = bases(list_view(*list));
    match list {
        None => {},
        Some(subtrees) => {
            let mut i: usize = 0;
            assert(all.subrange(0, 0) =~= Seq::<GeneralName>::empty());
            while i < subtrees.len()
                invariant
                    i <= subtrees@.len(),
                    list_view(*list) == Some(subtree_views(subtrees@)),
                    all == bases(Some(subtree_views(subtrees@))),
                    names@ == distinct(all.subrange(0, i as int)),
                    forall|j: int|
                        0 <= j < i ==> (#[trigger] subtree_views(subtrees@)[j]).minimum == 0
                            && subtree_views(subtrees@)[j].maximum is None,
                decreases subtrees@.len() - i,
            {
                let subtree = &subtrees[i];
                if subtree.minimum != 0 || subtree.maximum.is_some() {
                    assert(subtree_views(subtrees@)[i as int] == subtree@);
                    return None;
                }
                assert(subtree_views(subtrees@)[i as int] == subtree@);
                proof {
                    lemma_distinct_step(all, i as int);
                }
                names.insert(subtree.base.copy());
                i += 1;
            }
            assert(all.subrange(0, i as int) =~= all);
        },
    }
    Some(names)
}

/// Writes under `tag` the subtree list over `names`, or nothing where the
/// list is empty. Fails, leaving `out` as it was, where the list cannot be
/// encoded.
fn write_subtree_list(names: &Names<'_>, tag: u8, out: &mut Vec<u8>) -> (done: bool)
    ensures
        done == list_encodable(names@),
        done ==> final(out)@ == old(out)@ + encode_all(list_tlvs(tag, names@)),
        !done ==> final(out)@ == old(out)@,
{
    let list = names.iter();
    let ghost ts = subtree_tlvs(names@);
    let mut content: Vec<u8> = Vec::new();
    let mut i: usize = 0;
    assert(ts.subrange(0, 0) =~= Seq::<Tlv>::empty());
    while i < list.len()
        invariant
            i <= list@.len(),
            name_views(list@) == names@,
            ts == subtree_tlvs(names@),
            content@ == encode_all(ts.subrange(0, i as int)),
            forall|j: int|
                0 <= j < i ==> (#[trigger] names@[j]).well_formed() && encode_one(
                    names@[j].to_tlv(),
                ).len() <= MAX_LENGTH,
            *out == *old(out),
        decreases list@.len() - i,
    {
        assert(names@[i as int] == list@[i as int]@);
        let inner = match list[i].to_der() {
            Some(inner) => inner,
            None => {
                return false;
            },
        };
        if !write_tlv(&mut content, TAG_SEQUENCE, inner.as_slice()) {
            return false;
        }
        proof {
            lemma_encode_all_push(ts.subrange(0, i as int), ts[i as int]);
            assert(ts.subrange(0, i + 1) =~= ts.subrange(0, i as int).push(ts[i as int]));
        }
        i += 1;
    }
    assert(ts.subrange(0, i as int) =~= ts);
    if list.len() == 0 {
        assert(out@ + encode_all(list_tlvs(tag, names@)) =~= out@);
        return true;
    }
    proof {
        lemma_encode_all_single(Tlv { tag, content: content@ });
    }
    write_tlv(out, tag, content.as_slice())
}

/// The names that a certification authority permits to, and excludes from,
/// the subjects of the certificates below it. At least one of the two sets
/// holds a name.
#[derive(Debug)]
pub struct NameConstraints<'a, 'b> {
    permitted_subtrees: Names<'a>,
    excluded_subtrees: Names<'b>,
}

impl<'a, 'b> NameConstraints<'a, 'b> {
    #[verifier::type_invariant]
    spec fn some_subtree(&self) -> bool {
        self.permitted_subtrees@.len() + self.excluded_subtrees@.len() > 0
    }

    /// The permitted names.
    pub closed spec fn permitted(&self) -> Seq<GeneralName> {
        self.permitted_subtrees@
    }

    /// The excluded names.
    pub closed spec fn excluded(&self) -> Seq<GeneralName> {
        self.excluded_subtrees@
    }

    /// Makes name constraints of two sets of names. Fails with
    /// `InvalidNameConstraints` where both are empty.
    pub fn new(permitted: Names<'a>, excluded: Names<'b>) -> (r: Result<
        NameConstraints<'a, 'b>,
        CertificateError,
    >)
        ensures
            match r {
                Ok(constraints) => permitted@.len() + excluded@.len() > 0 && constraints.permitted()
                    == permitted@ && constraints.excluded() == excluded@,
                Err(e) => permitted@.len() + excluded@.len() == 0 && e is InvalidNameConstraints,
            },
    {
        if permitted.is_empty() && excluded.is_empty() {
            Err(CertificateError::InvalidNameConstraints)
        } else {
            Ok(NameConstraints { permitted_subtrees: permitted, excluded_subtrees: excluded })
        }
    }

    /// The set of permitted names.
    pub fn permitted_subtrees(&self) -> (names: &Names<'a>)
        ensures
            names@ == self.permitted(),
            self.permitted().len() + self.excluded().len() > 0,
    {
        proof {
            use_type_invariant(self);
        }
        &self.permitted_subtrees
    }

    /// The set of excluded names.
    pub fn excluded_subtrees(&self) -> (names: &Names<'b>)
        ensures
            names@ == self.excluded(),
            self.permitted().len() + self.excluded().len() > 0,
    {
        proof {
            use_type_invariant(self);
        }
        &self.excluded_subtrees
    }

    /// A copy of the constraints.
    pub fn copy(&self) -> (constraints: NameConstraints<'a, 'b>)
        ensures
            constraints.permitted() == self.permitted(),
            constraints.excluded() == self.excluded(),
    {
        proof {
            use_type_invariant(self);
        }
        NameConstraints {
            permitted_subtrees: self.permitted_subtrees.copy(),
            excluded_subtrees: self.excluded_subtrees.copy(),
        }
    }

    /// Whether two constraints permit and exclude the same names in the
    /// same order.
    pub fn same(&self, other: &NameConstraints<'_, '_>) -> (same: bool)
        ensures
            same == (self.permitted() == other.permitted() && self.excluded() == other.excluded()),
    {
        self.permitted_subtrees.same(&other.permitted_subtrees) && self.excluded_subtrees.same(
            &other.excluded_subtrees,
        )
    }

    /// Writes the encoding of the constraints. `None` where they cannot be
    /// encoded: where a name is not well formed, or something is longer
    /// than an encoding can state. What is written is read back as these
    /// constraints.
    pub fn to_der(&self) -> (r: Option<Vec<u8>>)
        ensures
            match r {
                Some(out) => constraints_encodable(self.permitted(), self.excluded()) && out@
                    == encode_name_constraints(self.permitted(), self.excluded()),
                None => !constraints_encodable(self.permitted(), self.excluded()),
            },
            r matches Some(out) ==> parse_name_constraints(out@) matches Some(v) && admissible(v)
                && distinct(bases(v.permitted)) == self.permitted() && distinct(bases(v.excluded))
                == self.excluded(),
    {
        // Taking the lengths tells that neither set holds a name twice.
        let _permitted = self.permitted_subtrees.len();
        let _excluded = self.excluded_subtrees.len();
        proof {
            use_type_invariant(self);
            if constraints_encodable(self.permitted(), self.excluded()) {
                lemma_name_constraints_round_trip(self.permitted(), self.excluded());
            }
        }
        let ghost p = list_tlvs(TAG_PERMITTED, self.permitted());
        let ghost e = list_tlvs(TAG_EXCLUDED, self.excluded());
        let mut content: Vec<u8> = Vec::new();
        if !write_subtree_list(&self.permitted_subtrees, TAG_PERMITTED, &mut content) {
            return None;
        }
        assert(content@ =~= encode_all(p));
        if !write_subtree_list(&self.excluded_subtrees, TAG_EXCLUDED, &mut content) {
            return None;
        }
        proof {
            if e.len() == 0 {
                assert(p + e =~= p);
                assert(encode_all(p) + encode_all(e) =~= encode_all(p));
            } else {
                lemma_encode_all_push(p, e[0]);
                lemma_encode_all_single(e[0]);
                assert(p + e =~= p.push(e[0]));
                assert(e =~= seq![e[0]]);
            }
            assert(content@ == encode_all(p + e));
        }
        let mut out: Vec<u8> = Vec::new();
        if write_tlv(&mut out, TAG_SEQUENCE, content.as_slice()) {
            assert(out@ =~= encode_name_constraints(self.permitted(), self.excluded()));
            Some(out)
        } else {
            None
        }
    }
}

impl<'a> NameConstraints<'a, 'a> {
    /// Reads encoded name constraints and takes them over. Fails with
    /// `Asn1` where the octets do not encode name constraints, and with
    /// `InvalidNameConstraints` where those are not admissible.
    pub fn from_der(bytes: &'a [u8]) -> (r: Result<NameConstraints<'a, 'a>, CertificateError>)
        ensures
            match r {
                Ok(constraints) => parse_name_constraints(bytes@) matches Some(v) && admissible(v)
                    && constraints.permitted() == distinct(bases(v.permitted))
                    && constraints.excluded() == distinct(bases(v.excluded)),
                Err(CertificateError::Asn1) => parse_name_constraints(bytes@) is None,
                Err(e) => parse_name_constraints(bytes@) matches Some(v) && !admissible(v)
                    && e is InvalidNameConstraints,
            },
    {
        match NameConstraintsRef::from_der(bytes) {
            Ok(read) => NameConstraints::try_from(read),
            Err(e) => Err(e),
        }
    }

    /// Takes over name constraints as they were read. Fails with
    /// `InvalidNameConstraints` where a subtree states a minimum other than
    /// zero or a maximum, and where both lists are empty. Each name is kept
    /// once, where it first occurs.
    pub fn try_from(other: NameConstraintsRef<'a>) -> (r: Result<
        NameConstraints<'a, 'a>,
        CertificateError,
    >)
        ensures
            match r {
                Ok(constraints) => admissible(other@) && constraints.permitted() == distinct(
                    bases(other@.permitted),
                ) && constraints.excluded() == distinct(bases(other@.excluded)),
                Err(e) => !admissible(other@) && e is InvalidNameConstraints,
            },
    {
        let permitted = match collect_bases(&other.permitted_subtrees) {
            Some(names) => names,
            None => {
                return Err(CertificateError::InvalidNameConstraints);
            },
        };
        let excluded = match collect_bases(&other.excluded_subtrees) {
            Some(names) => names,
            None => {
                return Err(CertificateError::InvalidNameConstraints);
            },
        };
        proof {
            crate::name::lemma_distinct(bases(other@.permitted));
            crate::name::lemma_distinct(bases(other@.excluded));
            let p = bases(other@.permitted);
            let e = bases(other@.excluded);
            if p.len() > 0 {
                assert(p.contains(p[0]));
                assert(distinct(p).contains(p[0]));
            }
            if e.len() > 0 {
                assert(e.contains(e[0]));
                assert(distinct(e).contains(e[0]));
            }
        }
        NameConstraints::new(permitted, excluded)
    }
}

impl<'a, 'b> Clone for NameConstraints<'a, 'b> {
    fn clone(&self) -> (constraints: NameConstraints<'a, 'b>)
        ensures
            constraints.permitted() == self.permitted(),
            constraints.excluded() == self.excluded(),
    {
        self.copy()
    }
}

impl<'a, 'b> PartialEq for NameConstraints<'a, 'b> {
    fn eq(&self, other: &NameConstraints<'a, 'b>) -> (same: bool) {
        self.same(other)
    }
}

impl<'a, 'b> vstd::std_specs::cmp::PartialEqSpecImpl for NameConstraints<'a, 'b> {
    open spec fn obeys_eq_spec() -> bool {
        true
    }

    open spec fn eq_spec(&self, other: &NameConstraints<'a, 'b>) -> bool {
        self.permitted() == other.permitted() && self.excluded() == other.excluded()
    }
}

impl<'a, 'b> Eq for NameConstraints<'a, 'b> {

}

} // verus!
