//! Directory strings: the three kinds of character string that an EDI party
//! name is written in.
use crate::bytes::bytes_eq;
use crate::tlv::{encode_one, read_whole, write_tlv, parse_whole, Tlv, MAX_LENGTH};
use vstd::prelude::*;

verus! {

/// The tag of a UTF8String.
pub const TAG_UTF8_STRING: u8 = 0x0c;

/// The tag of a PrintableString.
pub const TAG_PRINTABLE_STRING: u8 = 0x13;

/// The tag of a TeletexString.
pub const TAG_TELETEX_STRING: u8 = 0x14;

/// Whether `bytes` are well-formed UTF-8.
pub uninterp spec fn utf8_valid(bytes: Seq<u8>) -> bool;

/// `core::str::from_utf8`: whether the octets are well-formed UTF-8.
#[verifier::external_body]
pub(crate) fn is_utf8(bytes: &[u8]) -> (valid: bool)
    ensures
        valid == utf8_valid(bytes@),
{
    core::str::from_utf8(bytes).is_ok()
}

/// Whether an octet is a character of a PrintableString: a letter, a digit,
/// a space or one of `'()+,-./:=?`.
pub open spec fn printable(c: u8) -> bool {
    ||| 0x41 <= c <= 0x5a
    ||| 0x61 <= c <= 0x7a
    ||| 0x30 <= c <= 0x39
    ||| c == 0x20
    ||| c == 0x27
    ||| c == 0x28
    ||| c == 0x29
    ||| 0x2b <= c <= 0x2f
    ||| c == 0x3a
    ||| c == 0x3d
    ||| c == 0x3f
}

/// Whether every octet of `s` is a character of a PrintableString.
pub open spec fn all_printable(s: Seq<u8>) -> bool {
    forall|i: int| 0 <= i < s.len() ==> printable(#[trigger] s[i])
}

/// Whether every octet of `s` is below 0x80, which is what is read of a
/// TeletexString.
pub open spec fn all_ascii(s: Seq<u8>) -> bool {
    forall|i: int| 0 <= i < s.len() ==> #[trigger] s[i] < 0x80
}

/// A directory string as a mathematical value.
pub enum DirectoryString {
    PrintableString(Seq<u8>),
    TeletexString(Seq<u8>),
    Utf8String(Seq<u8>),
}

impl DirectoryString {
    /// The element that encodes the string.
    pub open spec fn to_tlv(self) -> Tlv {
        match self {
            DirectoryString::PrintableString(s) => Tlv { tag: TAG_PRINTABLE_STRING, content: s },
            DirectoryString::TeletexString(s) => Tlv { tag: TAG_TELETEX_STRING, content: s },
            DirectoryString::Utf8String(s) => Tlv { tag: TAG_UTF8_STRING, content: s },
        }
    }

    /// The string that an element encodes: its tag says which kind, and its
    /// content has to be written in the characters of that kind.
    pub open spec fn from_tlv(t: Tlv) -> Option<DirectoryString> {
        if t.tag == TAG_PRINTABLE_STRING && all_printable(t.content) {
            Some(DirectoryString::PrintableString(t.content))
        } else if t.tag == TAG_TELETEX_STRING && all_ascii(t.content) {
            Some(DirectoryString::TeletexString(t.content))
        } else if t.tag == TAG_UTF8_STRING && utf8_valid(t.content) {
            Some(DirectoryString::Utf8String(t.content))
        } else {
            None
        }
    }

    /// The string that the content of an explicitly tagged element encodes.
    pub open spec fn from_explicit(content: Seq<u8>) -> Option<DirectoryString> {
        match parse_whole(content) {
            Some(t) => DirectoryString::from_tlv(t),
            None => None,
        }
    }

    /// Whether the string is one that an encoding can give: it is written
    /// in the characters of its kind and is no longer than `MAX_LENGTH`.
    pub open spec fn well_formed(self) -> bool {
        &&& self.to_tlv().content.len() <= MAX_LENGTH
        &&& match self {
            DirectoryString::PrintableString(s) => all_printable(s),
            DirectoryString::TeletexString(s) => all_ascii(s),
            DirectoryString::Utf8String(s) => utf8_valid(s),
        }
    }

    /// A well-formed string is read back from the element that encodes it.
    pub proof fn lemma_from_tlv_to_tlv(self)
        requires
            self.well_formed(),
        ensures
            DirectoryString::from_tlv(self.to_tlv()) == Some(self),
    {
    }
}

/// A directory string whose octets are borrowed from the encoding that it
/// was read from.
#[derive(Clone, Copy, Debug)]
pub enum DirectoryStringRef<'a> {
    PrintableString(&'a [u8]),
    TeletexString(&'a [u8]),
    Utf8String(&'a [u8]),
}

impl<'a> View for DirectoryStringRef<'a> {
    type V = DirectoryString;

    open spec fn view(&self) -> DirectoryString {
        match self {
            DirectoryStringRef::PrintableString(s) => DirectoryString::PrintableString(s@),
            DirectoryStringRef::TeletexString(s) => DirectoryString::TeletexString(s@),
            DirectoryStringRef::Utf8String(s) => DirectoryString::Utf8String(s@),
        }
    }
}

/// Whether every octet of `s` is a character of a PrintableString.
pub fn check_printable(s: &[u8]) -> (ok: bool)
    ensures
        ok == all_printable(s@),
{
    let mut i: usize = 0;
    while i < s.len()
        invariant
            i <= s@.len(),
            forall|j: int| 0 <= j < i ==> printable(#[trigger] s@[j]),
        decreases s@.len() - i,
    {
        let c = s[i];
        let ok = (0x41 <= c && c <= 0x5a) || (0x61 <= c && c <= 0x7a) || (0x30 <= c && c <= 0x39)
            || c == 0x20 || c == 0x27 || c == 0x28 || c == 0x29 || (0x2b <= c && c <= 0x2f) || c
            == 0x3a || c == 0x3d || c == 0x3f;
        if !ok {
            assert(!printable(s@[i as int]));
            return false;
        }
        i += 1;
    }
    true
}

/// Whether every octet of `s` is below 0x80.
pub fn check_ascii(s: &[u8]) -> (ok: bool)
    ensures
        ok == all_ascii(s@),
{
    let mut i: usize = 0;
    while i < s.len()
        invariant
            i <= s@.len(),
            forall|j: int| 0 <= j < i ==> #[trigger] s@[j] < 0x80,
        decreases s@.len() - i,
    {
        if s[i] >= 0x80 {
            return false;
        }
        i += 1;
    }
    true
}

impl<'a> DirectoryStringRef<'a> {
    /// The tag of the string's kind.
    pub fn tag(&self) -> (tag: u8)
        ensures
            tag == self@.to_tlv().tag,
    {
        match self {
            DirectoryStringRef::PrintableString(_) => TAG_PRINTABLE_STRING,
            DirectoryStringRef::TeletexString(_) => TAG_TELETEX_STRING,
            DirectoryStringRef::Utf8String(_) => TAG_UTF8_STRING,
        }
    }

    /// The octets of the string.
    pub fn as_bytes(&self) -> (bytes: &'a [u8])
        ensures
            bytes@ == self@.to_tlv().content,
    {
        match self {
            DirectoryStringRef::PrintableString(s) => s,
            DirectoryStringRef::TeletexString(s) => s,
            DirectoryStringRef::Utf8String(s) => s,
        }
    }

    /// Reads a directory string from the tag and content of its element.
    pub fn from_tlv(tag: u8, content: &'a [u8]) -> (r: Option<DirectoryStringRef<'a>>)
        ensures
            match r {
                Some(s) => DirectoryString::from_tlv(Tlv { tag, content: content@ }) == Some(s@),
                None => DirectoryString::from_tlv(Tlv { tag, content: content@ }) is None,
            },
    {
        if tag == TAG_PRINTABLE_STRING {
            if check_printable(content) {
                Some(DirectoryStringRef::PrintableString(content))
            } else {
                None
            }
        } else if tag == TAG_TELETEX_STRING {
            if check_ascii(content) {
                Some(DirectoryStringRef::TeletexString(content))
            } else {
                None
            }
        } else if tag == TAG_UTF8_STRING {
            if is_utf8(content) {
                Some(DirectoryStringRef::Utf8String(content))
            } else {
                None
            }
        } else {
            None
        }
    }

    /// Reads a directory string from the content of an explicitly tagged
    /// element, which holds the string's element and nothing else.
    pub fn from_explicit(content: &'a [u8]) -> (r: Option<DirectoryStringRef<'a>>)
        ensures
            match r {
                Some(s) => DirectoryString::from_explicit(content@) == Some(s@),
                None => DirectoryString::from_explicit(content@) is None,
            },
    {
        match read_whole(content) {
            Some((tag, inner)) => DirectoryStringRef::from_tlv(tag, inner),
            None => None,
        }
    }

    /// Whether the string is written in the characters of its kind.
    pub fn check(&self) -> (ok: bool)
        ensures
            ok == match self@ {
                DirectoryString::PrintableString(s) => all_printable(s),
                DirectoryString::TeletexString(s) => all_ascii(s),
                DirectoryString::Utf8String(s) => utf8_valid(s),
            },
    {
        match self {
            DirectoryStringRef::PrintableString(s) => check_printable(s),
            DirectoryStringRef::TeletexString(s) => check_ascii(s),
            DirectoryStringRef::Utf8String(s) => is_utf8(s),
        }
    }

    /// Appends the encoding of the string to `out`. Fails, leaving `out` as
    /// it was, where the string is not well formed.
    pub fn write(&self, out: &mut Vec<u8>) -> (done: bool)
        ensures
            done == self@.well_formed(),
            done ==> final(out)@ == old(out)@ + encode_one(self@.to_tlv()),
            !done ==> final(out)@ == old(out)@,
    {
        if self.check() {
            write_tlv(out, self.tag(), self.as_bytes())
        } else {
            false
        }
    }

    /// Whether two strings are of the same kind and hold the same octets.
    pub fn same(&self, other: &DirectoryStringRef<'_>) -> (same: bool)
        ensures
            same == (self@ == other@),
    {
        match (self, other) {
            (
                DirectoryStringRef::PrintableString(a),
                DirectoryStringRef::PrintableString(b),
            ) => bytes_eq(a, b),
            (DirectoryStringRef::TeletexString(a), DirectoryStringRef::TeletexString(b)) => bytes_eq(
                a,
                b,
            ),
            (DirectoryStringRef::Utf8String(a), DirectoryStringRef::Utf8String(b)) => bytes_eq(a, b),
            _ => false,
        }
    }
}

impl<'a> PartialEq for DirectoryStringRef<'a> {
    fn eq(&self, other: &DirectoryStringRef<'a>) -> (same: bool) {
        self.same(other)
    }
}

impl<'a> vstd::std_specs::cmp::PartialEqSpecImpl for DirectoryStringRef<'a> {
    open spec fn obeys_eq_spec() -> bool {
        true
    }

    open spec fn eq_spec(&self, other: &DirectoryStringRef<'a>) -> bool {
        self@ == other@
    }
}

impl<'a> Eq for DirectoryStringRef<'a> {

}

} // verus!
