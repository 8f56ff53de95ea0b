//! Identities of certificates, under which a store keeps them.
use crate::certificate::Certificate;
use crate::name::directory::{encode_name, name_fits};
use crate::name::Name;
use crate::verdict::Error;
use digest::Digest;
use vstd::prelude::*;
use vstd::string::StringExecFns;

verus! {

/// The SHA-256 digest of `data`.
pub uninterp spec fn sha256_digest(data: Seq<u8>) -> Seq<u8>;

/// `Sha256::digest` of `sha2`: the digest of `data`.
#[verifier::external_body]
pub(crate) fn sha256(data: &[u8]) -> (output: [u8; 32])
    ensures
        output@ == sha256_digest(data@),
{
    sha2::Sha256::digest(data).into()
}

/// An identity under which a store keeps a certificate: it is derived
/// from a name, that of the certificate's subject.
pub trait Identity: View + Sized {
    /// The identity of a name; `None` where the name has none.
    spec fn of(name: Seq<Seq<u8>>) -> Option<Self::V>;

    /// Derives the identity of a name. Fails with `Error::Der` where the
    /// name has none.
    fn of_name(name: &Name) -> (r: Result<Self, Error>)
        ensures
            match r {
                Ok(id) => Self::of(name@) == Some(id@),
                Err(e) => Self::of(name@) is None && e == Error::Der,
            },
    ;
}

/// Something that can be written out as a string.
pub trait AsStr {
    /// What `as_str` writes.
    spec fn text(&self) -> Seq<char>;

    /// Writes the value out.
    fn as_str(&self) -> (s: String)
        ensures
            s@ == self.text(),
    ;
}

/// The character that writes a number below sixteen in hexadecimal.
pub open spec fn hex_digit(n: int) -> char {
    if n == 0 {
        '0'
    } else if n == 1 {
        '1'
    } else if n == 2 {
        '2'
    } else if n == 3 {
        '3'
    } else if n == 4 {
        '4'
    } else if n == 5 {
        '5'
    } else if n == 6 {
        '6'
    } else if n == 7 {
        '7'
    } else if n == 8 {
        '8'
    } else if n == 9 {
        '9'
    } else if n == 10 {
        'a'
    } else if n == 11 {
        'b'
    } else if n == 12 {
        'c'
    } else if n == 13 {
        'd'
    } else if n == 14 {
        'e'
    } else {
        'f'
    }
}

/// The octets of `bytes` written in hexadecimal, two characters each.
pub open spec fn hex(bytes: Seq<u8>) -> Seq<char> {
    Seq::new(
        2 * bytes.len(),
        |i: int|
            if i % 2 == 0 {
                hex_digit(bytes[i / 2] as int / 16)
            } else {
                hex_digit(bytes[i / 2] as int % 16)
            },
    )
}

/// The string that writes a number below sixteen in hexadecimal.
fn hex_digit_str(n: u8) -> (s: &'static str)
    requires
        n < 16,
    ensures
        s@ == seq![hex_digit(n as int)],
{
    proof {
        reveal_strlit("0");
        reveal_strlit("1");
        reveal_strlit("2");
        reveal_strlit("3");
        reveal_strlit("4");
        reveal_strlit("5");
        reveal_strlit("6");
        reveal_strlit("7");
        reveal_strlit("8");
        reveal_strlit("9");
        reveal_strlit("a");
        reveal_strlit("b");
        reveal_strlit("c");
        reveal_strlit("d");
        reveal_strlit("e");
        reveal_strlit("f");
    }
    let s = if n == 0 {
        "0"
    } else if n == 1 {
        "1"
    } else if n == 2 {
        "2"
    } else if n == 3 {
        "3"
    } else if n == 4 {
        "4"
    } else if n == 5 {
        "5"
    } else if n == 6 {
        "6"
    } else if n == 7 {
        "7"
    } else if n == 8 {
        "8"
    } else if n == 9 {
        "9"
    } else if n == 10 {
        "a"
    } else if n == 11 {
        "b"
    } else if n == 12 {
        "c"
    } else if n == 13 {
        "d"
    } else if n == 14 {
        "e"
    } else {
        "f"
    };
    assert(s@ =~= seq![hex_digit(n as int)]);
    s
}

/// Writes octets in hexadecimal.
pub fn to_hex(bytes: &[u8]) -> (s: String)
    ensures
        s@ == hex(bytes@),
{
    let mut s = String::new();
    let mut i: usize = 0;
    while i < bytes.len()
        invariant
            i <= bytes@.len(),
            s@ == hex(bytes@.subrange(0, i as int)),
        decreases bytes@.len() - i,
    {
        let b = bytes[i];
        let ghost before = s@;
        s.append(hex_digit_str(b / 16));
        s.append(hex_digit_str(b % 16));
        proof {
            let grown = bytes@.subrange(0, i + 1);
            assert(grown.len() == i + 1);
            assert forall|j: int| 0 <= j < 2 * i implies hex(grown)[j] == before[j] by {
                assert(grown[j / 2] == bytes@.subrange(0, i as int)[j / 2]);
            }
            assert(grown[i as int] == b);
            assert(s@ =~= hex(grown));
        }
        i += 1;
    }
    assert(bytes@.subrange(0, i as int) =~= bytes@);
    s
}

/// A quick reference to a certificate: the SHA-256 digest of the encoding
/// of its subject. From an issued certificate's point of view only the
/// issuer's name is given for lookup, so the name is what identifies.
#[derive(Copy, Clone, Debug, PartialOrd, Ord, PartialEq, Eq, Hash)]
pub struct CertificateId([u8; 32]);

impl View for CertificateId {
    type V = Seq<u8>;

    closed spec fn view(&self) -> Seq<u8> {
        self.0@
    }
}

impl CertificateId {
    /// The octets of the identity.
    pub open spec fn bytes(&self) -> Seq<u8> {
        self@
    }

    /// The identity in hexadecimal.
    pub fn as_str(&self) -> (s: String)
        ensures
            s@ == hex(self.bytes()),
            s@.len() == 64,
    {
        to_hex(self.0.as_slice())
    }

    /// The octets of the identity.
    pub fn as_ref(&self) -> (bytes: &[u8])
        ensures
            bytes@ == self.bytes(),
            bytes@.len() == 32,
    {
        self.0.as_slice()
    }

    /// The identity of what `bytes` encodes: their SHA-256 digest.
    pub fn from(bytes: &[u8]) -> (id: CertificateId)
        ensures
            id.bytes() == sha256_digest(bytes@),
    {
        CertificateId(sha256(bytes))
    }

    /// The identity of a name: the SHA-256 digest of its encoding. Fails
    /// with `Error::Der` where the name cannot be encoded.
    pub fn try_from(name: &Name) -> (r: Result<CertificateId, Error>)
        ensures
            match r {
                Ok(id) => name_fits(name@) && id.bytes() == sha256_digest(encode_name(name@)),
                Err(e) => !name_fits(name@) && e == Error::Der,
            },
    {
        match name.to_der() {
            Some(encoded) => Ok(CertificateId::from(encoded.as_slice())),
            None => Err(Error::Der),
        }
    }

    /// Whether two identities are the same.
    pub fn same(&self, other: &CertificateId) -> (same: bool)
        ensures
            same == (self.bytes() == other.bytes()),
    {
        crate::bytes::bytes_eq(self.0.as_slice(), other.0.as_slice())
    }
}

impl Identity for CertificateId {
    open spec fn of(name: Seq<Seq<u8>>) -> Option<Seq<u8>> {
        if name_fits(name) {
            Some(sha256_digest(encode_name(name)))
        } else {
            None
        }
    }

    fn of_name(name: &Name) -> (r: Result<CertificateId, Error>) {
        CertificateId::try_from(name)
    }
}

impl Identity for NameBytes {
    open spec fn of(name: Seq<Seq<u8>>) -> Option<Seq<u8>> {
        if name_fits(name) {
            Some(encode_name(name))
        } else {
            None
        }
    }

    fn of_name(name: &Name) -> (r: Result<NameBytes, Error>) {
        NameBytes::try_from(name)
    }
}

impl AsStr for CertificateId {
    open spec fn text(&self) -> Seq<char> {
        hex(self@)
    }

    fn as_str(&self) -> (s: String) {
        to_hex(self.0.as_slice())
    }
}

/// A distinguished name as the octets of its encoding.
#[derive(Clone, Debug, PartialOrd, Ord, PartialEq, Eq, Hash)]
pub struct NameBytes(Vec<u8>);

impl View for NameBytes {
    type V = Seq<u8>;

    closed spec fn view(&self) -> Seq<u8> {
        self.0@
    }
}

impl NameBytes {
    /// Encodes a name. Fails with `Error::Der` where the name cannot be
    /// encoded: where a relative distinguished name, or all of them
    /// together, are longer than an encoding can state.
    pub fn try_from(name: &Name) -> (r: Result<NameBytes, Error>)
        ensures
            match r {
                Ok(bytes) => name_fits(name@) && bytes@ == encode_name(name@),
                Err(e) => !name_fits(name@) && e == Error::Der,
            },
    {
        match name.to_der() {
            Some(encoded) => Ok(NameBytes(encoded)),
            None => Err(Error::Der),
        }
    }

    /// The encoded subject of a certificate.
    pub fn of_subject(cert: &Certificate) -> (r: Result<NameBytes, Error>)
        ensures
            match r {
                Ok(bytes) => name_fits(cert@.subject) && bytes@ == encode_name(cert@.subject),
                Err(e) => !name_fits(cert@.subject) && e == Error::Der,
            },
    {
        NameBytes::try_from(&cert.subject)
    }

    /// The encoded issuer of a certificate.
    pub fn of_issuer(cert: &Certificate) -> (r: Result<NameBytes, Error>)
        ensures
            match r {
                Ok(bytes) => name_fits(cert@.issuer) && bytes@ == encode_name(cert@.issuer),
                Err(e) => !name_fits(cert@.issuer) && e == Error::Der,
            },
    {
        NameBytes::try_from(&cert.issuer)
    }

    /// Takes over octets that encode a name.
    pub fn from_encoded(encoded: &[u8]) -> (bytes: NameBytes)
        ensures
            bytes@ == encoded@,
    {
        NameBytes(vstd::slice::slice_to_vec(encoded))
    }

    /// The octets of the encoding.
    pub fn as_bytes(&self) -> (bytes: &[u8])
        ensures
            bytes@ == self@,
    {
        self.0.as_slice()
    }

    /// The octets of the encoding, given up by the value.
    pub fn into_bytes(self) -> (bytes: Vec<u8>)
        ensures
            bytes@ == self@,
    {
        self.0
    }
}

} // verus!
