//! Tag-length-value framing of the Distinguished Encoding Rules.
//!
//! Every structure this crate reads or writes itself is a nest of elements,
//! each a tag octet, a length in its shortest form and that many content
//! octets. This module frames and unframes such elements; what the contents
//! mean is decided where they are used.
use vstd::prelude::*;
use vstd::slice::slice_subrange;

verus! {

/// The longest content that an element may have.
pub const MAX_LENGTH: usize = 0x0fff_ffff;

/// One element: its tag octet and its content octets.
pub struct Tlv {
    pub tag: u8,
    pub content: Seq<u8>,
}

/// The length octets of a content of `n` octets, in the shortest form.
pub open spec fn length_octets(n: nat) -> Seq<u8> {
    if n < 0x80 {
        seq![n as u8]
    } else if n < 0x100 {
        seq![0x81u8, n as u8]
    } else if n < 0x1_0000 {
        seq![0x82u8, (n / 0x100) as u8, (n % 0x100) as u8]
    } else if n < 0x100_0000 {
        seq![0x83u8, (n / 0x1_0000) as u8, ((n / 0x100) % 0x100) as u8, (n % 0x100) as u8]
    } else {
        seq![
            0x84u8,
            ((n / 0x100_0000) % 0x100) as u8,
            ((n / 0x1_0000) % 0x100) as u8,
            ((n / 0x100) % 0x100) as u8,
            (n % 0x100) as u8,
        ]
    }
}

/// The encoding of one element.
pub open spec fn encode_one(t: Tlv) -> Seq<u8> {
    seq![t.tag] + length_octets(t.content.len()) + t.content
}

/// The encodings of the elements of `ts`, one after the other.
pub open spec fn encode_all(ts: Seq<Tlv>) -> Seq<u8>
    decreases ts.len(),
{
    if ts.len() == 0 {
        Seq::empty()
    } else {
        encode_one(ts[0]) + encode_all(ts.drop_first())
    }
}

/// Whether every element of `ts` has a content within `MAX_LENGTH`.
pub open spec fn all_fit(ts: Seq<Tlv>) -> bool {
    forall|i: int| 0 <= i < ts.len() ==> (#[trigger] ts[i]).content.len() <= MAX_LENGTH
}

/// Reads the length octets that start at `s[at]`: the length they state and
/// how many octets they take. Only the shortest form of a length within
/// `MAX_LENGTH` is read.
pub open spec fn parse_length(s: Seq<u8>, at: int) -> Option<(int, int)> {
    if at < 0 || s.len() <= at {
        None
    } else if s[at] < 0x80 {
        Some((s[at] as int, 1int))
    } else if s[at] == 0x81 {
        if s.len() > at + 1 && s[at + 1] >= 0x80 {
            Some((s[at + 1] as int, 2int))
        } else {
            None
        }
    } else if s[at] == 0x82 {
        if s.len() > at + 2 && s[at + 1] != 0 {
            Some((s[at + 1] * 0x100 + s[at + 2], 3int))
        } else {
            None
        }
    } else if s[at] == 0x83 {
        if s.len() > at + 3 && s[at + 1] != 0 {
            Some((s[at + 1] * 0x1_0000 + s[at + 2] * 0x100 + s[at + 3], 4int))
        } else {
            None
        }
    } else if s[at] == 0x84 {
        if s.len() > at + 4 && s[at + 1] != 0 && s[at + 1] < 0x10 {
            Some(
                (
                    s[at + 1] * 0x100_0000 + s[at + 2] * 0x1_0000 + s[at + 3] * 0x100 + s[at + 4],
                    5int,
                ),
            )
        } else {
            None
        }
    } else {
        None
    }
}

/// Reads the element at the start of `s`: the element and what follows it.
pub open spec fn parse_one(s: Seq<u8>) -> Option<(Tlv, Seq<u8>)> {
    match parse_length(s, 1) {
        None => None,
        Some((n, k)) => if 1 + k + n <= s.len() {
            Some(
                (
                    Tlv { tag: s[0], content: s.subrange(1 + k, 1 + k + n) },
                    s.subrange(1 + k + n, s.len() as int),
                ),
            )
        } else {
            None
        },
    }
}

/// Reads `s` as a run of elements that fills it exactly.
pub open spec fn parse_all(s: Seq<u8>) -> Option<Seq<Tlv>>
    decreases s.len(),
{
    if s.len() == 0 {
        Some(Seq::empty())
    } else {
        match parse_one(s) {
            None => None,
            Some((t, rest)) => if rest.len() < s.len() {
                match parse_all(rest) {
                    None => None,
                    Some(ts) => Some(seq![t] + ts),
                }
            } else {
                None
            },
        }
    }
}

/// Reads `s` as exactly one element with nothing after it.
pub open spec fn parse_whole(s: Seq<u8>) -> Option<Tlv> {
    match parse_one(s) {
        Some((t, rest)) => if rest.len() == 0 {
            Some(t)
        } else {
            None
        },
        None => None,
    }
}

/// The length octets of a length within `MAX_LENGTH` are read back as that length.
pub proof fn lemma_parse_length_octets(n: nat, before: Seq<u8>, after: Seq<u8>)
    requires
        n <= MAX_LENGTH,
    ensures
        parse_length(before + length_octets(n) + after, before.len() as int) == Some(
            (n as int, length_octets(n).len() as int),
        ),
        1 <= length_octets(n).len() <= 5,
{
    let l = length_octets(n);
    let s = before + l + after;
    let at = before.len() as int;
    assert forall|i: int| 0 <= i < l.len() implies s[at + i] == l[i] by {}
    if n < 0x80 {
        assert(s[at] == l[0]);
    } else if n < 0x100 {
        assert(s[at] == l[0]);
        assert(s[at + 1] == l[1]);
    } else if n < 0x1_0000 {
        assert(s[at] == l[0]);
        assert(s[at + 1] == l[1]);
        assert(s[at + 2] == l[2]);
    } else if n < 0x100_0000 {
        assert(s[at] == l[0]);
        assert(s[at + 1] == l[1]);
        assert(s[at + 2] == l[2]);
        assert(s[at + 3] == l[3]);
    } else {
        assert(s[at] == l[0]);
        assert(s[at + 1] == l[1]);
        assert(s[at + 2] == l[2]);
        assert(s[at + 3] == l[3]);
        assert(s[at + 4] == l[4]);
    }
}

/// Length octets that are read are the length octets of the length.
pub proof fn lemma_parse_length_sound(s: Seq<u8>, at: int)
    requires
        parse_length(s, at) is Some,
    ensures
        0 <= parse_length(s, at).unwrap().0 <= MAX_LENGTH,
        at + parse_length(s, at).unwrap().1 <= s.len(),
        s.subrange(at, at + parse_length(s, at).unwrap().1) == length_octets(
            parse_length(s, at).unwrap().0 as nat,
        ),
{
    let (n, k) = parse_length(s, at).unwrap();
    let read = s.subrange(at, at + k);
    let written = length_octets(n as nat);
    assert(read.len() == written.len());
    assert forall|i: int| 0 <= i < read.len() implies read[i] == written[i] by {
        assert(read[i] == s[at + i]);
    }
    assert(read =~= written);
}

/// What is read as an element and what follows it is the encoding of that
/// element, followed by the rest: only encodings are read.
pub proof fn lemma_parse_one_sound(s: Seq<u8>)
    requires
        parse_one(s) is Some,
    ensures
        s == encode_one(parse_one(s).unwrap().0) + parse_one(s).unwrap().1,
        parse_one(s).unwrap().0.content.len() <= MAX_LENGTH,
        parse_one(s).unwrap().1.len() + 2 <= s.len(),
{
    let (t, rest) = parse_one(s).unwrap();
    let (n, k) = parse_length(s, 1).unwrap();
    lemma_parse_length_sound(s, 1);
    assert(s =~= seq![s[0]] + s.subrange(1, 1 + k) + s.subrange(1 + k, 1 + k + n) + s.subrange(
        1 + k + n,
        s.len() as int,
    ));
}

/// What is read as a run of elements is the encoding of that run.
pub proof fn lemma_parse_all_sound(s: Seq<u8>)
    requires
        parse_all(s) is Some,
    ensures
        s == encode_all(parse_all(s).unwrap()),
        all_fit(parse_all(s).unwrap()),
    decreases s.len(),
{
    if s.len() > 0 {
        let (t, rest) = parse_one(s).unwrap();
        lemma_parse_one_sound(s);
        lemma_parse_all_sound(rest);
        let ts = parse_all(rest).unwrap();
        let all = seq![t] + ts;
        assert(all.drop_first() =~= ts);
        assert(all[0] == t);
        assert forall|i: int| 0 <= i < all.len() implies (#[trigger] all[i]).content.len()
            <= MAX_LENGTH by {
            if i > 0 {
                assert(all[i] == ts[i - 1]);
            }
        }
    } else {
        assert(s =~= Seq::<u8>::empty());
    }
}

/// An encoded element, whatever follows it, is read back as that element.
pub proof fn lemma_parse_one_encoded(t: Tlv, rest: Seq<u8>)
    requires
        t.content.len() <= MAX_LENGTH,
    ensures
        parse_one(encode_one(t) + rest) == Some((t, rest)),
        encode_one(t).len() >= 2,
{
    let n = t.content.len() as int;
    let l = length_octets(t.content.len());
    let s = encode_one(t) + rest;
    lemma_parse_length_octets(t.content.len(), seq![t.tag], t.content + rest);
    assert(s =~= seq![t.tag] + l + (t.content + rest));
    let k = l.len() as int;
    assert(s.subrange(1 + k, 1 + k + n) =~= t.content);
    assert(s.subrange(1 + k + n, s.len() as int) =~= rest);
    assert(s[0] == t.tag);
}

/// A run of encoded elements is read back as those elements.
pub proof fn lemma_parse_all_encoded(ts: Seq<Tlv>)
    requires
        all_fit(ts),
    ensures
        parse_all(encode_all(ts)) == Some(ts),
    decreases ts.len(),
{
    if ts.len() == 0 {
    } else {
        let rest = ts.drop_first();
        assert forall|i: int| 0 <= i < rest.len() implies (#[trigger] rest[i]).content.len()
            <= MAX_LENGTH by {
            assert(rest[i] == ts[i + 1]);
        }
        lemma_parse_all_encoded(rest);
        lemma_parse_one_encoded(ts[0], encode_all(rest));
        assert(seq![ts[0]] + rest =~= ts);
    }
}

/// The encoding of a run with one more element at its end.
pub proof fn lemma_encode_all_push(ts: Seq<Tlv>, t: Tlv)
    ensures
        encode_all(ts.push(t)) == encode_all(ts) + encode_one(t),
    decreases ts.len(),
{
    if ts.len() == 0 {
        assert(ts.push(t).drop_first() =~= Seq::<Tlv>::empty());
        assert(encode_all(ts.push(t)) =~= encode_one(t) + encode_all(Seq::<Tlv>::empty()));
        assert(encode_all(ts) + encode_one(t) =~= encode_one(t));
    } else {
        assert(ts.push(t).drop_first() =~= ts.drop_first().push(t));
        lemma_encode_all_push(ts.drop_first(), t);
        assert(encode_all(ts.push(t)) =~= encode_one(ts[0]) + (encode_all(ts.drop_first())
            + encode_one(t)));
        assert(encode_all(ts) + encode_one(t) =~= encode_one(ts[0]) + (encode_all(
            ts.drop_first(),
        ) + encode_one(t)));
    }
}

/// The elements that a list of tags and content slices stands for.
pub open spec fn tlvs_of(items: Seq<(u8, &[u8])>) -> Seq<Tlv> {
    Seq::new(items.len(), |i: int| Tlv { tag: items[i].0, content: items[i].1@ })
}

/// Reads the element at the start of `s`: its tag, its content and what follows it.
pub fn read_tlv<'a>(s: &'a [u8]) -> (r: Option<(u8, &'a [u8], &'a [u8])>)
    ensures
        match r {
            Some((tag, content, rest)) => parse_one(s@) == Some(
                (Tlv { tag, content: content@ }, rest@),
            ) && rest@.len() + 2 <= s@.len(),
            None => parse_one(s@) is None,
        },
{
    let len = s.len();
    if len < 2 {
        return None;
    }
    let first = s[1];
    let mut n: usize = 0;
    let mut k: usize = 0;
    if first < 0x80 {
        n = first as usize;
        k = 1;
    } else if first == 0x81 {
        if len > 2 && s[2] >= 0x80 {
            n = s[2] as usize;
            k = 2;
        } else {
            return None;
        }
    } else if first == 0x82 {
        if len > 3 && s[2] != 0 {
            n = (s[2] as usize) * 0x100 + (s[3] as usize);
            k = 3;
        } else {
            return None;
        }
    } else if first == 0x83 {
        if len > 4 && s[2] != 0 {
            n = (s[2] as usize) * 0x1_0000 + (s[3] as usize) * 0x100 + (s[4] as usize);
            k = 4;
        } else {
            return None;
        }
    } else if first == 0x84 {
        if len > 5 && s[2] != 0 && s[2] < 0x10 {
            n = (s[2] as usize) * 0x100_0000 + (s[3] as usize) * 0x1_0000 + (s[4] as usize)
                * 0x100 + (s[5] as usize);
            k = 5;
        } else {
            return None;
        }
    } else {
        return None;
    }
    assert(parse_length(s@, 1) == Some((n as int, k as int)));
    if len - 1 - k < n {
        return None;
    }
    let content = slice_subrange(s, 1 + k, 1 + k + n);
    let rest = slice_subrange(s, 1 + k + n, len);
    Some((s[0], content, rest))
}

/// Reads `s` as exactly one element with nothing after it: its tag and content.
pub fn read_whole<'a>(s: &'a [u8]) -> (r: Option<(u8, &'a [u8])>)
    ensures
        match r {
            Some((tag, content)) => parse_whole(s@) == Some(Tlv { tag, content: content@ }),
            None => parse_whole(s@) is None,
        },
{
    match read_tlv(s) {
        Some((tag, content, rest)) => {
            if rest.len() == 0 {
                Some((tag, content))
            } else {
                None
            }
        },
        None => None,
    }
}

/// Reads `s` as a run of elements that fills it exactly: the tag and content of each.
pub fn read_all<'a>(s: &'a [u8]) -> (r: Option<Vec<(u8, &'a [u8])>>)
    ensures
        match r {
            Some(items) => parse_all(s@) == Some(tlvs_of(items@)),
            None => parse_all(s@) is None,
        },
{
    let mut items: Vec<(u8, &'a [u8])> = Vec::new();
    let mut rest: &'a [u8] = s;
    while rest.len() > 0
        invariant
            parse_all(s@) == match parse_all(rest@) {
                Some(ts) => Some(tlvs_of(items@) + ts),
                None => None,
            },
        decreases rest@.len(),
    {
        match read_tlv(rest) {
            None => {
                return None;
            },
            Some((tag, content, after)) => {
                let ghost t = Tlv { tag, content: content@ };
                let ghost before = tlvs_of(items@);
                items.push((tag, content));
                proof {
                    assert(tlvs_of(items@) =~= before.push(t));
                    match parse_all(after@) {
                        Some(ts) => {
                            assert(before + (seq![t] + ts) =~= before.push(t) + ts);
                        },
                        None => {},
                    }
                }
                rest = after;
            },
        }
    }
    proof {
        assert(tlvs_of(items@) + Seq::<Tlv>::empty() =~= tlvs_of(items@));
    }
    Some(items)
}

/// Appends the encoding of one element to `out`. Fails, leaving `out` as it
/// was, where the content is longer than `MAX_LENGTH`.
pub fn write_tlv(out: &mut Vec<u8>, tag: u8, content: &[u8]) -> (done: bool)
    ensures
        done == (content@.len() <= MAX_LENGTH),
        done ==> final(out)@ == old(out)@ + encode_one(Tlv { tag, content: content@ }),
        !done ==> final(out)@ == old(out)@,
{
    let n = content.len();
    if n > MAX_LENGTH {
        return false;
    }
    let ghost start = out@;
    out.push(tag);
    if n < 0x80 {
        out.push(n as u8);
    } else if n < 0x100 {
        out.push(0x81);
        out.push(n as u8);
    } else if n < 0x1_0000 {
        out.push(0x82);
        out.push((n / 0x100) as u8);
        out.push((n % 0x100) as u8);
    } else if n < 0x100_0000 {
        out.push(0x83);
        out.push((n / 0x1_0000) as u8);
        out.push(((n / 0x100) % 0x100) as u8);
        out.push((n % 0x100) as u8);
    } else {
        out.push(0x84);
        out.push(((n / 0x100_0000) % 0x100) as u8);
        out.push(((n / 0x1_0000) % 0x100) as u8);
        out.push(((n / 0x100) % 0x100) as u8);
        out.push((n % 0x100) as u8);
    }
    assert(out@ =~= start + seq![tag] + length_octets(n as nat));
    let ghost head = out@;
    let mut i: usize = 0;
    while i < n
        invariant
            n == content@.len(),
            i <= n,
            out@ == head + content@.subrange(0, i as int),
        decreases n - i,
    {
        out.push(content[i]);
        assert(content@.subrange(0, i + 1) =~= content@.subrange(0, i as int).push(
            content@[i as int],
        ));
        i += 1;
    }
    assert(content@.subrange(0, n as int) =~= content@);
    assert(out@ =~= start + encode_one(Tlv { tag, content: content@ }));
    true
}

} // verus!
