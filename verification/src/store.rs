//! Certificate store.
use crate::anchor::{anchor_of, TrustAnchor};
use crate::cert::{target_of, CertTarget, TargetValue};
use crate::certificate::{optional_bytes, Certificate, CertificateValue};
use crate::error::Fault;
use crate::extensions::{extracted, Extracted};
use crate::id::{Identity, NameBytes};
use crate::key_id::{key_identifier_of, KeyIdentifier};
use crate::loader::{entry_ids, Loader, MemLoader};
use crate::validate::{target_views, validate, validated};
use crate::verdict::Error;
use core::marker::PhantomData;
use vstd::prelude::*;

verus! {

/// The certificates that a list of borrowed certificates holds.
pub open spec fn certificate_views(certificates: Seq<&Certificate>) -> Seq<CertificateValue> {
    Seq::new(certificates.len(), |i: int| certificates[i]@)
}

/// The authority key identifier that a certificate states; none where it
/// states none, and where its extensions cannot be taken in.
pub open spec fn authority_of(certificate: CertificateValue) -> Option<Seq<u8>> {
    match extracted(certificate.extensions) {
        Ok(stated) => stated.authority_key_id,
        Err(_) => None,
    }
}

/// Whether `candidate` may have issued `certificate`: its subject is the
/// certificate's issuer, and its key identifier is the authority key
/// identifier that the certificate states, if it states one. A candidate
/// whose extensions cannot be taken in is judged by its subject alone.
pub open spec fn may_have_issued(
    candidate: CertificateValue,
    certificate: CertificateValue,
) -> bool {
    &&& candidate.subject == certificate.issuer
    &&& match (authority_of(certificate), extracted(candidate.extensions)) {
        (Some(id), Ok(stated)) => key_identifier_of(stated.key_id, candidate.public_key) == id,
        _ => true,
    }
}

/// The index of the first candidate that may have issued `certificate`;
/// the length of the list where there is none.
pub open spec fn position(candidates: Seq<CertificateValue>, certificate: CertificateValue) -> int
    decreases candidates.len(),
{
    if candidates.len() == 0 {
        0
    } else if may_have_issued(candidates[0], certificate) {
        0
    } else {
        1 + position(candidates.drop_first(), certificate)
    }
}

/// `position` is the least index of a candidate that may have issued
/// `certificate`.
pub proof fn lemma_position(candidates: Seq<CertificateValue>, certificate: CertificateValue)
    ensures
        0 <= position(candidates, certificate) <= candidates.len(),
        position(candidates, certificate) < candidates.len() ==> may_have_issued(
            candidates[position(candidates, certificate)],
            certificate,
        ),
        forall|i: int|
            0 <= i < position(candidates, certificate) ==> !may_have_issued(
                candidates[i],
                certificate,
            ),
    decreases candidates.len(),
{
    if candidates.len() > 0 && !may_have_issued(candidates[0], certificate) {
        let rest = candidates.drop_first();
        lemma_position(rest, certificate);
        assert forall|i: int| 0 <= i < position(candidates, certificate) implies !may_have_issued(
            candidates[i],
            certificate,
        ) by {
            if i > 0 {
                assert(candidates[i] == rest[i - 1]);
            }
        }
    }
}

/// The path from a certificate up to a trusted one. `path` starts with the
/// leaf and ends with the certificate whose issuer is looked for. The
/// issuer is trusted where `trusted` holds a certificate under the identity
/// of its name: that certificate is the anchor, and the path is complete.
/// Else the issuer is the first of `candidates` that may have issued the
/// certificate, and the search goes on from it with the other candidates. A
/// name without an identity gives `Error::Der`; no issuer,
/// `Error::Verification`.
pub open spec fn path_to_anchor<Id: Identity>(
    trusted: Map<Id::V, CertificateValue>,
    candidates: Seq<CertificateValue>,
    path: Seq<CertificateValue>,
) -> Result<(CertificateValue, Seq<CertificateValue>), Error>
    decreases candidates.len(),
{
    if path.len() == 0 {
        Err(Error::Verification)
    } else {
        match Id::of(path.last().issuer) {
            None => Err(Error::Der),
            Some(id) => if trusted.contains_key(id) {
                Ok((trusted[id], path))
            } else {
                let at = position(candidates, path.last());
                if 0 <= at < candidates.len() {
                    path_to_anchor::<Id>(trusted, candidates.remove(at), path.push(candidates[at]))
                } else {
                    Err(Error::Verification)
                }
            },
        }
    }
}

/// A path that is found starts with the certificate that it was looked
/// for and grows only at its end; its end names as its issuer a name
/// under whose identity the anchor is trusted; and every certificate that
/// was added may have issued the one before it.
pub proof fn lemma_path_to_anchor<Id: Identity>(
    trusted: Map<Id::V, CertificateValue>,
    candidates: Seq<CertificateValue>,
    path: Seq<CertificateValue>,
)
    requires
        path_to_anchor::<Id>(trusted, candidates, path) is Ok,
    ensures
        ({
            let (root, found) = path_to_anchor::<Id>(trusted, candidates, path).unwrap();
            &&& path.len() > 0
            &&& path.is_prefix_of(found)
            &&& Id::of(found.last().issuer) matches Some(id) && trusted.contains_key(id)
                && trusted[id] == root
            &&& forall|i: int|
                path.len() <= i < found.len() ==> may_have_issued(#[trigger] found[i], found[i - 1])
                    && candidates.contains(found[i])
        }),
    decreases candidates.len(),
{
    let id = Id::of(path.last().issuer).unwrap();
    if trusted.contains_key(id) {
        assert(path.is_prefix_of(path)) by {
            assert(path.subrange(0, path.len() as int) =~= path);
        }
    } else {
        lemma_position(candidates, path.last());
        let at = position(candidates, path.last());
        let longer = path.push(candidates[at]);
        let rest = candidates.remove(at);
        lemma_path_to_anchor::<Id>(trusted, rest, longer);
        let (root, found) = path_to_anchor::<Id>(trusted, rest, longer).unwrap();
        assert(found.subrange(0, longer.len() as int) == longer);
        assert(path =~= found.subrange(0, path.len() as int)) by {
            assert forall|i: int| 0 <= i < path.len() implies path[i] == found[i] by {
                assert(longer[i] == found.subrange(0, longer.len() as int)[i]);
            }
        }
        assert forall|i: int| path.len() <= i < found.len() implies may_have_issued(
            #[trigger] found[i],
            found[i - 1],
        ) && candidates.contains(found[i]) by {
            if i == path.len() {
                assert(found[i] == found.subrange(0, longer.len() as int)[i]);
                assert(found[i - 1] == found.subrange(0, longer.len() as int)[i - 1]);
                assert(found[i] == candidates[at]);
                assert(found[i - 1] == path.last());
            } else {
                assert(rest.contains(found[i]));
                let k = choose|k: int| 0 <= k < rest.len() && rest[k] == found[i];
                if k < at {
                    assert(candidates[k] == found[i]);
                } else {
                    assert(candidates[k + 1] == found[i]);
                }
            }
        }
    }
}

/// The validation targets of a list of certificates, or what is wrong with
/// the extensions of the first certificate that has an error.
pub open spec fn targets_of(certificates: Seq<CertificateValue>) -> Result<Seq<TargetValue>, Fault>
    decreases certificates.len(),
{
    if certificates.len() == 0 {
        Ok(Seq::empty())
    } else {
        match targets_of(certificates.drop_last()) {
            Ok(targets) => match target_of(certificates.last()) {
                Ok(target) => Ok(targets.push(target)),
                Err(fault) => Err(fault),
            },
            Err(fault) => Err(fault),
        }
    }
}

/// An error among the first certificates is the error of the whole list.
pub proof fn lemma_targets_error_stays(certificates: Seq<CertificateValue>, n: int)
    requires
        0 <= n <= certificates.len(),
        targets_of(certificates.subrange(0, n)) is Err,
    ensures
        targets_of(certificates) == targets_of(certificates.subrange(0, n)),
    decreases certificates.len() - n,
{
    if n == certificates.len() {
        assert(certificates.subrange(0, n) =~= certificates);
    } else {
        let longer = certificates.subrange(0, n + 1);
        assert(longer.drop_last() =~= certificates.subrange(0, n));
        lemma_targets_error_stays(certificates, n + 1);
    }
}

/// Whether a certificate is trusted at a time: whether a path leads from
/// it to a trusted certificate and is valid below the anchor that this
/// certificate makes. The first error met is the result: that of the
/// search for the path, then that of the anchor's extensions, then that of
/// the extensions of the certificates from the anchor down, then that of the
/// walk along the path.
pub open spec fn verified<Id: Identity>(
    trusted: Map<Id::V, CertificateValue>,
    leaf: CertificateValue,
    chain: Seq<CertificateValue>,
    time: u64,
) -> Result<(), Error> {
    match path_to_anchor::<Id>(trusted, chain, seq![leaf]) {
        Err(e) => Err(e),
        Ok((root, path)) => match anchor_of(root) {
            Err(fault) => Err(Error::of_fault(fault)),
            Ok(anchor) => match targets_of(path.reverse()) {
                Err(fault) => Err(Error::of_fault(fault)),
                Ok(targets) => validated(anchor, targets, time),
            },
        },
    }
}

/// What a certificate is stored under makes no difference to what else is
/// stored: a certificate that was inserted is found until it is removed
/// or overwritten, and after its removal nothing is found.
pub proof fn lemma_store_keeps<K>(
    contents: Map<K, CertificateValue>,
    id: K,
    certificate: CertificateValue,
    other: K,
    another: CertificateValue,
)
    ensures
        contents.insert(id, certificate).contains_key(id),
        contents.insert(id, certificate)[id] == certificate,
        other != id ==> contents.insert(id, certificate).insert(other, another)[id] == certificate,
        other != id ==> contents.insert(id, certificate).remove(other)[id] == certificate,
        contents.insert(id, certificate).insert(id, another)[id] == another,
        !contents.insert(id, certificate).remove(id).contains_key(id),
{
}

/// Certificate store implementation. Can store and retrieve certificates
/// by a defined, unique identity. Every certificate in the store is
/// trusted.
#[derive(Debug)]
pub struct CertificateStore<Id: Identity, L: Loader<Id>> {
    inner: L,
    phantom: PhantomData<Id>,
}

/// Memory-only certificate store.
pub type MemCertificateStore = CertificateStore<NameBytes, MemLoader>;

/// Whether `candidate` may have issued `certificate`, which states the
/// authority key identifier `authority`.
fn check_issuer(
    candidate: &Certificate,
    certificate: &Certificate,
    authority: &Option<Vec<u8>>,
) -> (ok: bool)
    requires
        optional_bytes(*authority) == authority_of(certificate@),
    ensures
        ok == may_have_issued(candidate@, certificate@),
{
    if !candidate.subject.same(&certificate.issuer) {
        return false;
    }
    match authority {
        Some(id) => match Extracted::of(candidate) {
            Ok(stated) => KeyIdentifier::resolve(
                stated.key_id,
                candidate.public_key.as_slice(),
            ).matches(id.as_slice()),
            Err(_) => true,
        },
        None => true,
    }
}

/// Finds in `candidates` the first that may have issued `certificate`.
fn find_issuer(candidates: &Vec<&Certificate>, certificate: &Certificate) -> (at: usize)
    ensures
        at == position(certificate_views(candidates@), certificate@),
        at <= candidates@.len(),
{
    let ghost all = certificate_views(candidates@);
    let authority = match Extracted::of(certificate) {
        Ok(stated) => stated.authority_key_id,
        Err(_) => None,
    };
    let mut i: usize = 0;
    proof {
        lemma_position(all, certificate@);
    }
    while i < candidates.len()
        invariant
            i <= candidates@.len(),
            all == certificate_views(candidates@),
            optional_bytes(authority) == authority_of(certificate@),
            forall|j: int| 0 <= j < i ==> !may_have_issued(all[j], certificate@),
            0 <= position(all, certificate@) <= all.len(),
            position(all, certificate@) < all.len() ==> may_have_issued(
                all[position(all, certificate@)],
                certificate@,
            ),
            forall|j: int|
                0 <= j < position(all, certificate@) ==> !may_have_issued(all[j], certificate@),
        decreases candidates@.len() - i,
    {
        if check_issuer(candidates[i], certificate, &authority) {
            assert(may_have_issued(all[i as int], certificate@));
            return i;
        }
        assert(!may_have_issued(all[i as int], certificate@));
        i += 1;
    }
    i
}

impl<Id: Identity, L: Loader<Id>> CertificateStore<Id, L> {
    /// The certificates of the store, each under its identity.
    pub closed spec fn contents(&self) -> Map<Id::V, CertificateValue> {
        self.inner.contents()
    }

    /// Creates an empty `CertificateStore`.
    pub fn new() -> (store: CertificateStore<Id, L>)
        ensures
            store.contents() == Map::<Id::V, CertificateValue>::empty(),
    {
        CertificateStore { inner: L::empty(), phantom: PhantomData }
    }

    /// Inserts a certificate into the certificate store, under the identity
    /// of its subject. Returns the certificate that was there under that
    /// identity. Fails with `Error::Der`, leaving the store as it was,
    /// where the subject has no identity.
    pub fn insert(&mut self, cert: Certificate) -> (r: Result<Option<Certificate>, Error>)
        ensures
            match r {
                Ok(previous) => Id::of(cert@.subject) matches Some(id) && final(self).contents()
                    == old(self).contents().insert(id, cert@) && match previous {
                    Some(p) => old(self).contents().contains_key(id) && old(self).contents()[id]
                        == p@,
                    None => !old(self).contents().contains_key(id),
                },
                Err(e) => Id::of(cert@.subject) is None && e == Error::Der
                    && final(self).contents() == old(self).contents(),
            },
    {
        match Id::of_name(&cert.subject) {
            Ok(id) => Ok(self.inner.insert(id, cert)),
            Err(e) => Err(e),
        }
    }

    /// Removes a certificate from the certificate store. The certificate
    /// is returned if any was found.
    pub fn remove(&mut self, id: &Id) -> (previous: Option<Certificate>)
        ensures
            final(self).contents() == old(self).contents().remove(id@),
            match previous {
                Some(p) => old(self).contents().contains_key(id@) && old(self).contents()[id@]
                    == p@,
                None => !old(self).contents().contains_key(id@),
            },
    {
        self.inner.remove(id)
    }

    /// Retrieves a certificate from the certificate store. Returns `None`
    /// if nothing was found.
    pub fn get(&self, id: &Id) -> (found: Option<&Certificate>)
        ensures
            match found {
                Some(c) => self.contents().contains_key(id@) && self.contents()[id@] == c@,
                None => !self.contents().contains_key(id@),
            },
    {
        self.inner.get(id)
    }

    /// The entries of the store, each once, in no stated order.
    pub fn iter(&self) -> (entries: Vec<(Id, &Certificate)>)
        ensures
            entry_ids(entries@).no_duplicates(),
            entry_ids(entries@).to_set() == self.contents().dom(),
            forall|i: int|
                0 <= i < entries@.len() ==> self.contents()[#[trigger] entries@[i].0@]
                    == entries@[i].1@,
    {
        self.inner.iter()
    }

    /// Finds the path from `cert` up to a certificate of the store: the
    /// anchor, and the path from `cert` to the certificate that the anchor
    /// issued. An issuer that is not in the store is taken from `chain`.
    pub fn find_path<'a>(&'a self, cert: &'a Certificate, chain: &[&'a Certificate]) -> (r: Result<
        (&'a Certificate, Vec<&'a Certificate>),
        Error,
    >)
        ensures
            match r {
                Ok((root, path)) => path_to_anchor::<Id>(
                    self.contents(),
                    certificate_views(chain@),
                    seq![cert@],
                ) == Ok::<(CertificateValue, Seq<CertificateValue>), Error>(
                    (root@, certificate_views(path@)),
                ),
                Err(e) => path_to_anchor::<Id>(
                    self.contents(),
                    certificate_views(chain@),
                    seq![cert@],
                ) == Err::<(CertificateValue, Seq<CertificateValue>), Error>(e),
            },
    {
        let ghost goal = path_to_anchor::<Id>(
            self.contents(),
            certificate_views(chain@),
            seq![cert@],
        );
        let mut candidates: Vec<&'a Certificate> = Vec::new();
        let mut k: usize = 0;
        while k < chain.len()
            invariant
                k <= chain@.len(),
                candidates@.len() == k,
                forall|j: int| 0 <= j < k ==> candidates@[j] == chain@[j],
            decreases chain@.len() - k,
        {
            candidates.push(chain[k]);
            k += 1;
        }
        assert(certificate_views(candidates@) =~= certificate_views(chain@));
        let mut path: Vec<&'a Certificate> = Vec::new();
        path.push(cert);
        assert(certificate_views(path@) =~= seq![cert@]);
        loop
            invariant
                path@.len() > 0,
                goal == path_to_anchor::<Id>(
                    self.contents(),
                    certificate_views(chain@),
                    seq![cert@],
                ),
                goal == path_to_anchor::<Id>(
                    self.contents(),
                    certificate_views(candidates@),
                    certificate_views(path@),
                ),
            decreases candidates@.len(),
        {
            let ghost views = certificate_views(candidates@);
            let ghost so_far = certificate_views(path@);
            let current: &'a Certificate = path[path.len() - 1];
            assert(so_far.last() == current@);
            let id = match Id::of_name(&current.issuer) {
                Ok(id) => id,
                Err(e) => {
                    return Err(e);
                },
            };
            match self.inner.get(&id) {
                Some(root) => {
                    return Ok((root, path));
                },
                None => {},
            }
            let at = find_issuer(&candidates, current);
            if at >= candidates.len() {
                return Err(Error::Verification);
            }
            let next: &'a Certificate = candidates.remove(at);
            path.push(next);
            proof {
                assert(certificate_views(candidates@) =~= views.remove(at as int));
                assert(certificate_views(path@) =~= so_far.push(views[at as int]));
            }
        }
    }

    /// Verifies `cert` up its own issuance chain, at a time counted in
    /// seconds from the Unix epoch. Verification ends once a certificate in
    /// `cert`'s chain is found in the certificate store and the path from
    /// it to `cert` is valid. Verification fails when any of the following
    /// hold true:
    ///
    /// - None of the certificates in the chain are trusted
    /// - The trust chain is broken and can not be inferred
    /// - Any of the certificates in the trust chain are expired
    /// - Any of the certificates in the trust chain are not yet valid
    /// - Signature verification fails
    /// - A name or a policy is not admitted, or a path is too long
    ///
    /// This function makes no guarantees about the certificates in `chain`.
    /// The sole focus is to verify `cert` all the way up its own trust
    /// chain. The `chain` is only used when an issuer in `cert`'s trust
    /// chain is not already present in the certificate store.
    ///
    /// This function does not provide any revocation checking.
    pub fn verify<'a>(&'a self, cert: &'a Certificate, chain: &[&'a Certificate], time: u64) -> (r:
        Result<(), Error>)
        ensures
            r == verified::<Id>(self.contents(), cert@, certificate_views(chain@), time),
    {
        let (root, path) = match self.find_path(cert, chain) {
            Ok(found) => found,
            Err(e) => {
                return Err(e);
            },
        };
        let anchor = match TrustAnchor::try_from(root) {
            Ok(anchor) => anchor,
            Err(crate::error::Error::Asn1) => {
                return Err(Error::Der);
            },
            Err(crate::error::Error::Certificate(e)) => {
                return Err(Error::from_certificate(&e));
            },
        };
        let ghost down = certificate_views(path@).reverse();
        let n = path.len();
        let mut targets: Vec<CertTarget<'a>> = Vec::new();
        let mut i: usize = 0;
        assert(down.subrange(0, 0) =~= Seq::<CertificateValue>::empty());
        assert(target_views(targets@) =~= Seq::<TargetValue>::empty());
        while i < n
            invariant
                i <= n,
                n == path@.len(),
                path_to_anchor::<Id>(self.contents(), certificate_views(chain@), seq![cert@])
                    == Ok::<(CertificateValue, Seq<CertificateValue>), Error>(
                    (root@, certificate_views(path@)),
                ),
                anchor_of(root@) == Ok::<crate::anchor::AnchorValue, Fault>(anchor@),
                down == certificate_views(path@).reverse(),
                targets_of(down.subrange(0, i as int)) == Ok::<Seq<TargetValue>, Fault>(
                    target_views(targets@),
                ),
            decreases n - i,
        {
            let ghost before = target_views(targets@);
            proof {
                assert(down.subrange(0, i + 1).drop_last() =~= down.subrange(0, i as int));
                assert(down[i as int] == path@[n - 1 - i]@);
            }
            match CertTarget::try_from(path[n - 1 - i]) {
                Ok(target) => {
                    targets.push(target);
                    assert(target_views(targets@) =~= before.push(target@));
                },
                Err(e) => {
                    proof {
                        lemma_targets_error_stays(down, i + 1);
                    }
                    return Err(Error::from_certificate(&e));
                },
            }
            i += 1;
        }
        assert(down.subrange(0, i as int) =~= down);
        validate(&anchor, targets.as_slice(), time)
    }
}

} // verus!
