//! Comparisons on octet strings.
use vstd::prelude::*;

verus! {

/// The octet strings that a list of vectors holds.
pub open spec fn byte_views(items: Seq<Vec<u8>>) -> Seq<Seq<u8>> {
    Seq::new(items.len(), |i: int| items[i]@)
}

/// The ASCII lower-case form of an octet; octets outside `A`..=`Z` are unchanged.
pub open spec fn lower(b: u8) -> u8 {
    if 0x41 <= b <= 0x5a {
        (b + 0x20) as u8
    } else {
        b
    }
}

/// Whether two octet strings are equal once ASCII letters are folded to lower case.
pub open spec fn eq_ignore_case(a: Seq<u8>, b: Seq<u8>) -> bool {
    &&& a.len() == b.len()
    &&& forall|i: int| 0 <= i < a.len() ==> lower(#[trigger] a[i]) == lower(b[i])
}

/// Whether `s` ends with `suffix`, ASCII letters compared without regard to case.
pub open spec fn ends_with_ignore_case(s: Seq<u8>, suffix: Seq<u8>) -> bool {
    &&& suffix.len() <= s.len()
    &&& eq_ignore_case(s.subrange(s.len() - suffix.len(), s.len() as int), suffix)
}

/// The position of the first `needle` in `s`, or `s.len()` where there is none.
pub open spec fn first_index_of(s: Seq<u8>, needle: u8) -> int
    decreases s.len(),
{
    if s.len() == 0 {
        0
    } else if s[0] == needle {
        0
    } else {
        1 + first_index_of(s.drop_first(), needle)
    }
}

/// The position of the last `needle` in `s`, or `-1` where there is none.
pub open spec fn last_index_of(s: Seq<u8>, needle: u8) -> int
    decreases s.len(),
{
    if s.len() == 0 {
        -1
    } else if s.last() == needle {
        s.len() - 1
    } else {
        last_index_of(s.drop_last(), needle)
    }
}

/// `first_index_of` is the least index that holds `needle`.
pub proof fn lemma_first_index_of(s: Seq<u8>, needle: u8)
    ensures
        0 <= first_index_of(s, needle) <= s.len(),
        first_index_of(s, needle) < s.len() ==> s[first_index_of(s, needle)] == needle,
        forall|i: int| 0 <= i < first_index_of(s, needle) ==> s[i] != needle,
    decreases s.len(),
{
    if s.len() > 0 && s[0] != needle {
        let t = s.drop_first();
        lemma_first_index_of(t, needle);
        assert forall|i: int| 0 <= i < first_index_of(s, needle) implies s[i] != needle by {
            if i > 0 {
                assert(s[i] == t[i - 1]);
            }
        }
    }
}

/// `last_index_of` is the greatest index that holds `needle`.
pub proof fn lemma_last_index_of(s: Seq<u8>, needle: u8)
    ensures
        -1 <= last_index_of(s, needle) < s.len(),
        last_index_of(s, needle) >= 0 ==> s[last_index_of(s, needle)] == needle,
        forall|i: int| last_index_of(s, needle) < i < s.len() ==> s[i] != needle,
    decreases s.len(),
{
    if s.len() > 0 && s.last() != needle {
        let t = s.drop_last();
        lemma_last_index_of(t, needle);
        assert forall|i: int| last_index_of(s, needle) < i < s.len() implies s[i] != needle by {
            if i < s.len() - 1 {
                assert(s[i] == t[i]);
            }
        }
    }
}

/// Compares two octet strings.
pub fn bytes_eq(a: &[u8], b: &[u8]) -> (same: bool)
    ensures
        same == (a@ == b@),
{
    if a.len() != b.len() {
        return false;
    }
    let mut i: usize = 0;
    while i < a.len()
        invariant
            a@.len() == b@.len(),
            i <= a@.len(),
            forall|j: int| 0 <= j < i ==> a@[j] == b@[j],
        decreases a@.len() - i,
    {
        if a[i] != b[i] {
            return false;
        }
        i += 1;
    }
    assert(a@ =~= b@);
    true
}

/// Folds an ASCII upper-case letter to lower case.
pub fn to_lower(b: u8) -> (l: u8)
    ensures
        l == lower(b),
{
    if 0x41 <= b && b <= 0x5a {
        b + 0x20
    } else {
        b
    }
}

/// Compares `a[a_from..a_from + len]` with `b[b_from..b_from + len]`, ASCII
/// letters without regard to case.
pub fn range_eq_ignore_case(a: &[u8], a_from: usize, b: &[u8], b_from: usize, len: usize) -> (same:
    bool)
    requires
        a_from + len <= a@.len(),
        b_from + len <= b@.len(),
    ensures
        same == eq_ignore_case(
            a@.subrange(a_from as int, a_from + len),
            b@.subrange(b_from as int, b_from + len),
        ),
{
    let ghost x = a@.subrange(a_from as int, a_from + len);
    let ghost y = b@.subrange(b_from as int, b_from + len);
    let a_len = a.len();
    let b_len = b.len();
    let mut i: usize = 0;
    while i < len
        invariant
            a_len == a@.len(),
            b_len == b@.len(),
            a_from + len <= a@.len(),
            b_from + len <= b@.len(),
            i <= len,
            x == a@.subrange(a_from as int, a_from + len),
            y == b@.subrange(b_from as int, b_from + len),
            forall|j: int| 0 <= j < i ==> lower(#[trigger] x[j]) == lower(y[j]),
        decreases len - i,
    {
        if to_lower(a[a_from + i]) != to_lower(b[b_from + i]) {
            assert(lower(x[i as int]) != lower(y[i as int]));
            return false;
        }
        i += 1;
    }
    true
}

/// Finds the first `needle` in `s[from..to]`; `to` where there is none.
pub fn find_first(s: &[u8], from: usize, to: usize, needle: u8) -> (at: usize)
    requires
        from <= to <= s@.len(),
    ensures
        at == from + first_index_of(s@.subrange(from as int, to as int), needle),
        from <= at <= to,
{
    let ghost t = s@.subrange(from as int, to as int);
    proof {
        lemma_first_index_of(t, needle);
    }
    let mut i: usize = from;
    while i < to
        invariant
            from <= i <= to <= s@.len(),
            t == s@.subrange(from as int, to as int),
            forall|j: int| 0 <= j < i - from ==> t[j] != needle,
            0 <= first_index_of(t, needle) <= t.len(),
            first_index_of(t, needle) < t.len() ==> t[first_index_of(t, needle)] == needle,
            forall|j: int| 0 <= j < first_index_of(t, needle) ==> t[j] != needle,
        decreases to - i,
    {
        if s[i] == needle {
            assert(t[i - from] == needle);
            return i;
        }
        i += 1;
    }
    i
}

/// Finds the last `needle` in `s[from..to]`; `None` where there is none.
pub fn find_last(s: &[u8], from: usize, to: usize, needle: u8) -> (at: Option<usize>)
    requires
        from <= to <= s@.len(),
    ensures
        match at {
            Some(i) => from <= i < to && i == from + last_index_of(
                s@.subrange(from as int, to as int),
                needle,
            ),
            None => last_index_of(s@.subrange(from as int, to as int), needle) == -1,
        },
{
    let ghost t = s@.subrange(from as int, to as int);
    proof {
        lemma_last_index_of(t, needle);
    }
    let mut i: usize = to;
    while i > from
        invariant
            from <= i <= to <= s@.len(),
            t == s@.subrange(from as int, to as int),
            forall|j: int| i - from <= j < t.len() ==> t[j] != needle,
            -1 <= last_index_of(t, needle) < t.len(),
            last_index_of(t, needle) >= 0 ==> t[last_index_of(t, needle)] == needle,
            forall|j: int| last_index_of(t, needle) < j < t.len() ==> t[j] != needle,
        decreases i - from,
    {
        i -= 1;
        if s[i] == needle {
            assert(t[i - from] == needle);
            return Some(i);
        }
    }
    None
}

/// The position of the first `needle` in `s`; `s.len()` where there is none.
pub fn index_of_first(s: &[u8], needle: u8) -> (at: usize)
    ensures
        at == first_index_of(s@, needle),
        at <= s@.len(),
        at < s@.len() ==> s@[at as int] == needle,
{
    proof {
        assert(s@.subrange(0, s@.len() as int) =~= s@);
        lemma_first_index_of(s@, needle);
    }
    find_first(s, 0, s.len(), needle)
}

/// The position of the last `needle` in `s`; `None` where there is none.
pub fn index_of_last(s: &[u8], needle: u8) -> (at: Option<usize>)
    ensures
        match at {
            Some(i) => i == last_index_of(s@, needle) && i < s@.len() && s@[i as int] == needle,
            None => last_index_of(s@, needle) == -1,
        },
{
    proof {
        assert(s@.subrange(0, s@.len() as int) =~= s@);
        lemma_last_index_of(s@, needle);
    }
    find_last(s, 0, s.len(), needle)
}

} // verus!
