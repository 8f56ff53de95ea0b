//! Matching a name against a constraint, form by form.
//!
//! A constraint and a name are compared only where they have the same form,
//! and only in the five forms below. The other forms never match.
use crate::bytes::{
    bytes_eq, ends_with_ignore_case, eq_ignore_case, first_index_of, index_of_first, index_of_last,
    last_index_of, range_eq_ignore_case,
};
use crate::name::general::{GeneralName, GeneralNameRef};
use crate::name::{name_views, Names};
use vstd::prelude::*;
use vstd::slice::slice_subrange;

verus! {

pub const DOT: u8 = 0x2e;

pub const AT: u8 = 0x40;

pub const COLON: u8 = 0x3a;

pub const SLASH: u8 = 0x2f;

pub const QUESTION: u8 = 0x3f;

pub const HASH: u8 = 0x23;

pub const OPEN_BRACKET: u8 = 0x5b;

pub const CLOSE_BRACKET: u8 = 0x5d;

/// Whether a DNS name lies in the subtree of a constraint. Labels are
/// compared without regard to the case of ASCII letters. A constraint that
/// starts with a dot matches the names that end with it and have at least
/// one more label; any other constraint matches itself and the names that
/// end with a dot and the constraint. The empty constraint matches every name.
pub open spec fn dns_matches(constraint: Seq<u8>, name: Seq<u8>) -> bool {
    if constraint.len() == 0 {
        true
    } else if constraint[0] == DOT {
        constraint.len() < name.len() && ends_with_ignore_case(name, constraint)
    } else {
        eq_ignore_case(name, constraint) || (constraint.len() < name.len() && name[name.len()
            - constraint.len() - 1] == DOT && ends_with_ignore_case(name, constraint))
    }
}

/// Whether a mailbox lies in the subtree of a constraint. A constraint with
/// an `@` is a mailbox and matches that mailbox alone, the local part octet
/// for octet and the host without regard to case; any other constraint is
/// matched against the mailbox's host as a DNS name is. A name without an
/// `@` matches nothing.
pub open spec fn rfc822_matches(constraint: Seq<u8>, name: Seq<u8>) -> bool {
    let at = last_index_of(name, AT);
    let c_at = last_index_of(constraint, AT);
    if at < 0 {
        false
    } else if c_at >= 0 {
        constraint.subrange(0, c_at) == name.subrange(0, at) && eq_ignore_case(
            constraint.subrange(c_at + 1, constraint.len() as int),
            name.subrange(at + 1, name.len() as int),
        )
    } else {
        dns_matches(constraint, name.subrange(at + 1, name.len() as int))
    }
}

/// Where the authority of a URI ends: at the first `/`, `?` or `#` of what
/// follows the two slashes, or at its end.
pub open spec fn authority_len(rest: Seq<u8>) -> int {
    let slash = first_index_of(rest, SLASH);
    let question = first_index_of(rest, QUESTION);
    let hash = first_index_of(rest, HASH);
    if slash <= question && slash <= hash {
        slash
    } else if question <= hash {
        question
    } else {
        hash
    }
}

/// The host of an authority: what follows the last `@`, up to the first
/// `:`; an address in brackets is taken with its brackets.
pub open spec fn authority_host(authority: Seq<u8>) -> Option<Seq<u8>> {
    let start = last_index_of(authority, AT) + 1;
    let host_port = authority.subrange(start, authority.len() as int);
    if host_port.len() > 0 && host_port[0] == OPEN_BRACKET {
        let close = first_index_of(host_port, CLOSE_BRACKET);
        if close < host_port.len() {
            Some(host_port.subrange(0, close + 1))
        } else {
            None
        }
    } else {
        Some(host_port.subrange(0, first_index_of(host_port, COLON)))
    }
}

/// The host of a URI: that of the authority that follows the scheme, a
/// colon and two slashes. A URI without an authority has none.
pub open spec fn uri_host(uri: Seq<u8>) -> Option<Seq<u8>> {
    let colon = first_index_of(uri, COLON);
    if colon + 2 < uri.len() && uri[colon + 1] == SLASH && uri[colon + 2] == SLASH {
        let rest = uri.subrange(colon + 3, uri.len() as int);
        authority_host(rest.subrange(0, authority_len(rest)))
    } else {
        None
    }
}

/// Whether a URI lies in the subtree of a constraint: its host is matched
/// as a DNS name is. A URI without a host matches nothing.
pub open spec fn uri_matches(constraint: Seq<u8>, uri: Seq<u8>) -> bool {
    match uri_host(uri) {
        Some(host) => dns_matches(constraint, host),
        None => false,
    }
}

/// Whether an address lies in the subnet of a constraint, which is an
/// address followed by a mask of the same length: the bits under the mask
/// have to be equal.
pub open spec fn ip_matches(constraint: Seq<u8>, address: Seq<u8>) -> bool {
    &&& address.len() == 4 || address.len() == 16
    &&& constraint.len() == 2 * address.len()
    &&& forall|i: int|
        0 <= i < address.len() ==> (#[trigger] address[i] & constraint[address.len() + i]) == (
        constraint[i] & constraint[address.len() + i])
}

/// Whether a name lies in the subtree of a constraint. A directory name
/// does where the constraint's relative distinguished names are its leading
/// ones, octet for octet.
pub open spec fn name_matches(constraint: GeneralName, name: GeneralName) -> bool {
    match (constraint, name) {
        (GeneralName::Rfc822Name(c), GeneralName::Rfc822Name(n)) => rfc822_matches(c, n),
        (GeneralName::DnsName(c), GeneralName::DnsName(n)) => dns_matches(c, n),
        (GeneralName::DirectoryName(c), GeneralName::DirectoryName(n)) => c.is_prefix_of(n),
        (
            GeneralName::UniformResourceIdentifier(c),
            GeneralName::UniformResourceIdentifier(n),
        ) => uri_matches(c, n),
        (GeneralName::IpAddress(c), GeneralName::IpAddress(n)) => ip_matches(c, n),
        _ => false,
    }
}

/// Whether two names have the same form.
pub open spec fn same_form(a: GeneralName, b: GeneralName) -> bool {
    a.to_tlv().tag == b.to_tlv().tag
}

/// Whether a name lies in one of the excluded subtrees.
pub open spec fn excluded_by(excluded: Seq<GeneralName>, name: GeneralName) -> bool {
    exists|i: int| 0 <= i < excluded.len() && name_matches(#[trigger] excluded[i], name)
}

/// Whether the permitted subtrees let a name pass: where one of them has
/// the name's form, the name has to lie in one of them.
pub open spec fn permitted_by(permitted: Seq<GeneralName>, name: GeneralName) -> bool {
    (exists|i: int| 0 <= i < permitted.len() && same_form(#[trigger] permitted[i], name)) ==> (
    exists|i: int| 0 <= i < permitted.len() && name_matches(#[trigger] permitted[i], name))
}

/// Whether a DNS name lies in the subtree of a constraint.
pub fn dns_name_matches(constraint: &[u8], name: &[u8]) -> (matches: bool)
    ensures
        matches == dns_matches(constraint@, name@),
{
    let c = constraint.len();
    let n = name.len();
    if c == 0 {
        return true;
    }
    if c > n {
        return false;
    }
    let tail = range_eq_ignore_case(name, n - c, constraint, 0, c);
    assert(constraint@.subrange(0, c as int) =~= constraint@);
    assert(tail == ends_with_ignore_case(name@, constraint@));
    if c == n {
        assert(name@.subrange(0, n as int) =~= name@);
    }
    if constraint[0] == DOT {
        c < n && tail
    } else {
        tail && (c == n || name[n - c - 1] == DOT)
    }
}

/// Whether a mailbox lies in the subtree of a constraint.
pub fn rfc822_name_matches(constraint: &[u8], name: &[u8]) -> (matches: bool)
    ensures
        matches == rfc822_matches(constraint@, name@),
{
    let n = name.len();
    let c = constraint.len();
    let at = match index_of_last(name, AT) {
        Some(at) => at,
        None => {
            return false;
        },
    };
    let host = slice_subrange(name, at + 1, n);
    match index_of_last(constraint, AT) {
        Some(c_at) => {
            let local = slice_subrange(name, 0, at);
            let c_local = slice_subrange(constraint, 0, c_at);
            let c_host = slice_subrange(constraint, c_at + 1, c);
            if !bytes_eq(c_local, local) {
                return false;
            }
            if c_host.len() != host.len() {
                return false;
            }
            let same = range_eq_ignore_case(c_host, 0, host, 0, host.len());
            assert(c_host@.subrange(0, host@.len() as int) =~= c_host@);
            assert(host@.subrange(0, host@.len() as int) =~= host@);
            same
        },
        None => dns_name_matches(constraint, host),
    }
}

/// The host of a URI, if it has one.
pub fn host_of_uri<'a>(uri: &'a [u8]) -> (host: Option<&'a [u8]>)
    ensures
        match host {
            Some(h) => uri_host(uri@) == Some(h@),
            None => uri_host(uri@) is None,
        },
{
    let colon = index_of_first(uri, COLON);
    if uri.len() < 3 || colon >= uri.len() - 2 {
        return None;
    }
    if uri[colon + 1] != SLASH || uri[colon + 2] != SLASH {
        return None;
    }
    let rest = slice_subrange(uri, colon + 3, uri.len());
    let slash = index_of_first(rest, SLASH);
    let question = index_of_first(rest, QUESTION);
    let hash = index_of_first(rest, HASH);
    let end = if slash <= question && slash <= hash {
        slash
    } else if question <= hash {
        question
    } else {
        hash
    };
    let authority = slice_subrange(rest, 0, end);
    let start = match index_of_last(authority, AT) {
        Some(at) => at + 1,
        None => 0,
    };
    let host_port = slice_subrange(authority, start, authority.len());
    if host_port.len() > 0 && host_port[0] == OPEN_BRACKET {
        let close = index_of_first(host_port, CLOSE_BRACKET);
        if close < host_port.len() {
            Some(slice_subrange(host_port, 0, close + 1))
        } else {
            None
        }
    } else {
        let port = index_of_first(host_port, COLON);
        Some(slice_subrange(host_port, 0, port))
    }
}

/// Whether a URI lies in the subtree of a constraint.
pub fn uri_name_matches(constraint: &[u8], uri: &[u8]) -> (matches: bool)
    ensures
        matches == uri_matches(constraint@, uri@),
{
    match host_of_uri(uri) {
        Some(host) => dns_name_matches(constraint, host),
        None => false,
    }
}

/// Whether an address lies in the subnet of a constraint.
pub fn ip_address_matches(constraint: &[u8], address: &[u8]) -> (matches: bool)
    ensures
        matches == ip_matches(constraint@, address@),
{
    let n = address.len();
    if n != 4 && n != 16 {
        return false;
    }
    if constraint.len() != 2 * n {
        return false;
    }
    let mut i: usize = 0;
    while i < n
        invariant
            n == address@.len(),
            constraint@.len() == 2 * n,
            n <= 16,
            i <= n,
            forall|j: int|
                0 <= j < i ==> (#[trigger] address@[j] & constraint@[n + j]) == (constraint@[j]
                    & constraint@[n + j]),
        decreases n - i,
    {
        let mask = constraint[n + i];
        if address[i] & mask != constraint[i] & mask {
            assert((address@[i as int] & constraint@[n + i]) != (constraint@[i as int]
                & constraint@[n + i]));
            return false;
        }
        i += 1;
    }
    true
}

impl<'a> GeneralNameRef<'a> {
    /// Whether `name` lies in the subtree that `self` is the constraint of.
    pub fn matches(&self, name: &GeneralNameRef<'_>) -> (matches: bool)
        ensures
            matches == name_matches(self@, name@),
    {
        match (self, name) {
            (GeneralNameRef::Rfc822Name(c), GeneralNameRef::Rfc822Name(n)) => rfc822_name_matches(
                c,
                n,
            ),
            (GeneralNameRef::DnsName(c), GeneralNameRef::DnsName(n)) => dns_name_matches(c, n),
            (GeneralNameRef::DirectoryName(c), GeneralNameRef::DirectoryName(n)) => c.is_prefix_of(
                n,
            ),
            (
                GeneralNameRef::UniformResourceIdentifier(c),
                GeneralNameRef::UniformResourceIdentifier(n),
            ) => uri_name_matches(c, n),
            (GeneralNameRef::IpAddress(c), GeneralNameRef::IpAddress(n)) => ip_address_matches(
                c,
                n,
            ),
            _ => false,
        }
    }

    /// Whether `self` and `other` have the same form.
    pub fn has_form_of(&self, other: &GeneralNameRef<'_>) -> (same: bool)
        ensures
            same == same_form(self@, other@),
    {
        match (self, other) {
            (GeneralNameRef::OtherName(_), GeneralNameRef::OtherName(_)) => true,
            (GeneralNameRef::Rfc822Name(_), GeneralNameRef::Rfc822Name(_)) => true,
            (GeneralNameRef::DnsName(_), GeneralNameRef::DnsName(_)) => true,
            (GeneralNameRef::DirectoryName(_), GeneralNameRef::DirectoryName(_)) => true,
            (GeneralNameRef::EdiPartyName(_), GeneralNameRef::EdiPartyName(_)) => true,
            (
                GeneralNameRef::UniformResourceIdentifier(_),
                GeneralNameRef::UniformResourceIdentifier(_),
            ) => true,
            (GeneralNameRef::IpAddress(_), GeneralNameRef::IpAddress(_)) => true,
            (GeneralNameRef::RegisteredId(_), GeneralNameRef::RegisteredId(_)) => true,
            _ => false,
        }
    }
}

impl<'a> Names<'a> {
    /// Whether `name` lies in the subtree of one of these names.
    pub fn excludes(&self, name: &GeneralNameRef<'_>) -> (excluded: bool)
        ensures
            excluded == excluded_by(self@, name@),
    {
        let list = self.iter();
        let mut i: usize = 0;
        while i < list.len()
            invariant
                i <= list@.len(),
                name_views(list@) == self@,
                forall|j: int| 0 <= j < i ==> !name_matches(#[trigger] self@[j], name@),
            decreases list@.len() - i,
        {
            assert(self@[i as int] == list@[i as int]@);
            if list[i].matches(name) {
                return true;
            }
            i += 1;
        }
        false
    }

    /// Whether these names, as permitted subtrees, let `name` pass.
    pub fn permits(&self, name: &GeneralNameRef<'_>) -> (permitted: bool)
        ensures
            permitted == permitted_by(self@, name@),
    {
        let list = self.iter();
        let mut form_seen = false;
        let mut i: usize = 0;
        while i < list.len()
            invariant
                i <= list@.len(),
                name_views(list@) == self@,
                forall|j: int| 0 <= j < i ==> !name_matches(#[trigger] self@[j], name@),
                form_seen == exists|j: int| 0 <= j < i && same_form(#[trigger] self@[j], name@),
            decreases list@.len() - i,
        {
            assert(self@[i as int] == list@[i as int]@);
            if list[i].matches(name) {
                return true;
            }
            if list[i].has_form_of(name) {
                form_seen = true;
            }
            i += 1;
        }
        !form_seen
    }
}

} // verus!
