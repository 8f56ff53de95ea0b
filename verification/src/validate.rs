//! The walk along a certification path, from the trust anchor to the leaf.
//!
//! One state is threaded through the path. Each certificate is checked
//! against the state that the certificates before it have left, and leaves
//! the state for the next one. The first check that fails ends the walk.
use crate::anchor::{key_of, public_key_of, AnchorValue, TrustAnchor};
use crate::cert::{CertTarget, TargetValue};
use crate::ext::BasicConstraints;
use crate::extensions::ConstraintsValue;
use crate::key_id::{key_identifier_of, KeyIdentifier};
use crate::name::general::{GeneralName, GeneralNameRef};
use crate::name::matching::{excluded_by, name_matches, permitted_by};
use crate::name::{inserted, lemma_inserted_contains, name_views, Name, NameConstraints, Names};
use crate::policy::{
    initial_state, policy_step, PolicyFlags, PolicyInput, PolicyState,
    PolicyTracker,
};
use crate::signature::{signature_accepted, verify_signature, PublicKey, PublicKeyValue};
use crate::verdict::Error;
use vstd::prelude::*;

verus! {

/// The state of a walk, as a mathematical value.
pub struct StateValue {
    /// The name that the next certificate has to name as its issuer.
    pub issuer: Seq<Seq<u8>>,
    /// The key that the next certificate has to be signed with.
    pub key: PublicKeyValue,
    /// The identifier of that key.
    pub key_id: Seq<u8>,
    /// The permitted subtrees of each certificate so far that has some. A
    /// name lies in their intersection where each of them lets it pass.
    pub permitted: Seq<Seq<GeneralName>>,
    /// The excluded subtrees of all certificates so far.
    pub excluded: Seq<GeneralName>,
    /// Where policy processing stands.
    pub policy: PolicyState,
    /// How many certification authorities may still follow; `None` where
    /// there is no limit.
    pub path_len: Option<u32>,
}

/// The flags that hold where an anchor names none: none is set.
pub open spec fn no_flags() -> PolicyFlags {
    PolicyFlags {
        inhibit_policy_mapping: false,
        require_explicit_policy: false,
        inhibit_any_policy: false,
    }
}

/// The permitted subtrees that name constraints add: theirs, where they
/// have some.
pub open spec fn permitted_layer(constraints: Option<ConstraintsValue>) -> Seq<Seq<GeneralName>> {
    match constraints {
        Some(c) => if c.permitted.len() > 0 {
            seq![c.permitted]
        } else {
            Seq::empty()
        },
        None => Seq::empty(),
    }
}

/// The names of `names` inserted into `set`, one after the other.
pub open spec fn inserted_all(set: Seq<GeneralName>, names: Seq<GeneralName>) -> Seq<GeneralName>
    decreases names.len(),
{
    if names.len() == 0 {
        set
    } else {
        inserted(inserted_all(set, names.drop_last()), names.last())
    }
}

/// The excluded subtrees after name constraints have added theirs.
pub open spec fn excluded_with(
    excluded: Seq<GeneralName>,
    constraints: Option<ConstraintsValue>,
) -> Seq<GeneralName> {
    match constraints {
        Some(c) => inserted_all(excluded, c.excluded),
        None => excluded,
    }
}

/// The state in which the walk along a path of `certificates` certificates
/// starts below an anchor.
pub open spec fn initial(anchor: AnchorValue, certificates: usize) -> StateValue {
    StateValue {
        issuer: anchor.name,
        key: anchor.pub_key,
        key_id: anchor.key_id,
        permitted: permitted_layer(anchor.name_constraints),
        excluded: excluded_with(Seq::empty(), anchor.name_constraints),
        policy: initial_state(
            anchor.policy_set,
            match anchor.policy_flags {
                Some(flags) => flags,
                None => no_flags(),
            },
            certificates,
        ),
        path_len: anchor.path_len_constraint,
    }
}

/// Whether a certificate chains to the state: it names the working issuer
/// as its issuer and, where it states an authority key identifier, that is
/// the working key identifier. A certificate that names no issuer chains by
/// its authority key identifier alone.
pub open spec fn chained(state: StateValue, target: TargetValue) -> bool {
    if target.certificate.issuer.len() == 0 {
        target.stated.authority_key_id == Some(state.key_id)
    } else {
        &&& target.certificate.issuer == state.issuer
        &&& target.stated.authority_key_id matches Some(id) ==> id == state.key_id
    }
}

/// The names that a certificate's subject goes by: its subject name, where
/// it has one, and its subject alternative names.
pub open spec fn subject_names(target: TargetValue) -> Seq<GeneralName> {
    if target.certificate.subject.len() == 0 {
        target.stated.alt_names
    } else {
        seq![GeneralName::DirectoryName(target.certificate.subject)] + target.stated.alt_names
    }
}

/// Whether the constraints of a state admit a name: it lies in no excluded
/// subtree, and each set of permitted subtrees lets it pass.
pub open spec fn admitted(state: StateValue, name: GeneralName) -> bool {
    &&& !excluded_by(state.excluded, name)
    &&& forall|k: int|
        0 <= k < state.permitted.len() ==> permitted_by(#[trigger] state.permitted[k], name)
}

/// Whether the constraints of a state admit every name of a list.
pub open spec fn all_admitted(state: StateValue, names: Seq<GeneralName>) -> bool {
    forall|i: int| 0 <= i < names.len() ==> admitted(state, #[trigger] names[i])
}

/// The smaller of a limit and a new limit, where `None` is no limit.
pub open spec fn tighter(limit: Option<u32>, new: Option<u8>) -> Option<u32> {
    match (limit, new) {
        (Some(a), Some(b)) => if (b as u32) < a {
            Some(b as u32)
        } else {
            Some(a)
        },
        (Some(a), None) => Some(a),
        (None, Some(b)) => Some(b as u32),
        (None, None) => None,
    }
}

/// The limit on the authorities that may follow, after a certificate that
/// `following` more authorities follow; `None` where the certificate is
/// rejected. It has to be a certification authority, the limit must not
/// have run out, and its own limit must allow for those that follow.
pub open spec fn authority_step(
    path_len: Option<u32>,
    constraints: Option<BasicConstraints>,
    following: int,
) -> Option<Option<u32>> {
    match constraints {
        Some(c) => if !c.ca || path_len == Some(0u32) {
            None
        } else if c.path_len_constraint matches Some(own) && own < following {
            None
        } else {
            Some(
                tighter(
                    match path_len {
                        Some(n) => Some((n - 1) as u32),
                        None => None,
                    },
                    c.path_len_constraint,
                ),
            )
        },
        None => None,
    }
}

/// What policy processing reads of a certificate.
pub open spec fn policy_input(target: TargetValue) -> PolicyInput {
    PolicyInput {
        asserted: target.stated.policies,
        self_issued: target.certificate.self_issued(),
        constraints: target.stated.policy_constraints,
        inhibit_any_policy: target.stated.inhibit_any_policy,
    }
}

/// One step of the walk: the state that a certificate leaves, or why it is
/// rejected. `remaining` certificates follow it on the path, and
/// `signature_ok` tells whether its signature was made with the working key.
/// The checks are made in this order: signature, validity, chaining, name
/// constraints, policies, basic constraints.
pub open spec fn step(
    state: StateValue,
    target: TargetValue,
    time: u64,
    remaining: int,
    signature_ok: bool,
) -> Result<StateValue, Error> {
    if !signature_ok {
        Err(Error::Verification)
    } else if time < target.certificate.not_before {
        Err(Error::NotYetValid)
    } else if time > target.certificate.not_after {
        Err(Error::Expired)
    } else if !chained(state, target) {
        Err(Error::Verification)
    } else if !all_admitted(state, subject_names(target)) {
        Err(Error::Verification)
    } else {
        match policy_step(state.policy, policy_input(target)) {
            None => Err(Error::Verification),
            Some(policy) => {
                let path_len = if remaining == 0 {
                    Some(state.path_len)
                } else {
                    authority_step(state.path_len, target.stated.basic_constraints, remaining - 1)
                };
                match path_len {
                    None => Err(Error::Verification),
                    Some(limit) => Ok(
                        StateValue {
                            issuer: target.certificate.subject,
                            key: public_key_of(target.certificate),
                            key_id: key_identifier_of(
                                target.stated.key_id,
                                target.certificate.public_key,
                            ),
                            permitted: state.permitted + permitted_layer(
                                target.stated.name_constraints,
                            ),
                            excluded: excluded_with(state.excluded, target.stated.name_constraints),
                            policy,
                            path_len: limit,
                        },
                    ),
                }
            },
        }
    }
}

/// Whether the signature of a certificate was made with the working key.
pub open spec fn signed_by(state: StateValue, target: TargetValue) -> bool {
    signature_accepted(
        state.key,
        target.certificate.signature_algorithm,
        target.certificate.signature,
        target.certificate.tbs,
    )
}

/// The walk from a state along the rest of a path: the rejection of the
/// first certificate that is rejected.
pub open spec fn walk(state: StateValue, targets: Seq<TargetValue>, time: u64) -> Result<(), Error>
    decreases targets.len(),
{
    if targets.len() == 0 {
        Ok(())
    } else {
        match step(state, targets[0], time, targets.len() - 1, signed_by(state, targets[0])) {
            Ok(next) => walk(next, targets.drop_first(), time),
            Err(e) => Err(e),
        }
    }
}

/// Whether a path is valid below an anchor at a time. The path runs from
/// the certificate that the anchor issued to the leaf; a path without a
/// certificate is not valid.
pub open spec fn validated(anchor: AnchorValue, targets: Seq<TargetValue>, time: u64) -> Result<
    (),
    Error,
> {
    if targets.len() == 0 || targets.len() > usize::MAX {
        Err(Error::Verification)
    } else {
        walk(initial(anchor, targets.len() as usize), targets, time)
    }
}

/// The state that the walk from `state` along `targets` is in before the
/// certificate at index `i`, as far as the walk gets.
pub open spec fn state_at(
    state: StateValue,
    targets: Seq<TargetValue>,
    time: u64,
    i: int,
) -> StateValue
    decreases i,
{
    if i <= 0 {
        state
    } else {
        let before = state_at(state, targets, time, i - 1);
        match step(
            before,
            targets[i - 1],
            time,
            targets.len() - i,
            signed_by(before, targets[i - 1]),
        ) {
            Ok(next) => next,
            Err(_) => before,
        }
    }
}

proof fn lemma_state_at_shift(state: StateValue, targets: Seq<TargetValue>, time: u64, k: int)
    requires
        0 <= k < targets.len(),
        step(state, targets[0], time, targets.len() - 1, signed_by(state, targets[0])) is Ok,
    ensures
        state_at(state, targets, time, k + 1) == state_at(
            step(state, targets[0], time, targets.len() - 1, signed_by(state, targets[0])).unwrap(),
            targets.drop_first(),
            time,
            k,
        ),
    decreases k,
{
    let first = step(state, targets[0], time, targets.len() - 1, signed_by(state, targets[0]));
    let next = first.unwrap();
    let rest = targets.drop_first();
    if k == 0 {
        assert(state_at(state, targets, time, 0) == state);
        assert(state_at(next, rest, time, 0) == next);
    } else {
        lemma_state_at_shift(state, targets, time, k - 1);
        assert(rest[k - 1] == targets[k]);
        assert(rest.len() - k == targets.len() - (k + 1));
    }
}

/// Along a walk that ends well every step ends well: each certificate
/// passes its checks in the state that the certificates before it left.
pub proof fn lemma_walk_steps(state: StateValue, targets: Seq<TargetValue>, time: u64)
    requires
        walk(state, targets, time) is Ok,
    ensures
        forall|i: int|
            0 <= i < targets.len() ==> step(
                #[trigger] state_at(state, targets, time, i),
                targets[i],
                time,
                targets.len() - 1 - i,
                signed_by(state_at(state, targets, time, i), targets[i]),
            ) == Ok::<StateValue, Error>(state_at(state, targets, time, i + 1)),
    decreases targets.len(),
{
    if targets.len() > 0 {
        let first = step(state, targets[0], time, targets.len() - 1, signed_by(state, targets[0]));
        let next = first.unwrap();
        let rest = targets.drop_first();
        lemma_walk_steps(next, rest, time);
        assert forall|i: int| 0 <= i < targets.len() implies step(
            #[trigger] state_at(state, targets, time, i),
            targets[i],
            time,
            targets.len() - 1 - i,
            signed_by(state_at(state, targets, time, i), targets[i]),
        ) == Ok::<StateValue, Error>(state_at(state, targets, time, i + 1)) by {
            lemma_state_at_shift(state, targets, time, i);
            if i == 0 {
                assert(state_at(state, targets, time, 0) == state);
            } else {
                lemma_state_at_shift(state, targets, time, i - 1);
                assert(rest[i - 1] == targets[i]);
                assert(state_at(next, rest, time, i - 1) == state_at(state, targets, time, i));
            }
        }
    }
}

/// Whether basic constraints mark a certification authority.
pub open spec fn is_authority(constraints: Option<BasicConstraints>) -> bool {
    match constraints {
        Some(c) => c.ca,
        None => false,
    }
}

/// The key that the certificate at index `i` of a path has to be signed
/// with: the anchor's for the first, else that of the certificate before it.
pub open spec fn signing_key(
    anchor: AnchorValue,
    targets: Seq<TargetValue>,
    i: int,
) -> PublicKeyValue {
    if i <= 0 {
        anchor.pub_key
    } else {
        public_key_of(targets[i - 1].certificate)
    }
}

/// The name that the certificate at index `i` of a path has to name as its
/// issuer: the anchor's for the first, else the subject of the certificate
/// before it.
pub open spec fn issuing_name(
    anchor: AnchorValue,
    targets: Seq<TargetValue>,
    i: int,
) -> Seq<Seq<u8>> {
    if i <= 0 {
        anchor.name
    } else {
        targets[i - 1].certificate.subject
    }
}

/// On a valid path every certificate is within its validity at the time,
/// carries a signature that its predecessor's key accepts, names its
/// predecessor as its issuer where it names an issuer, and every
/// certificate but the leaf is a certification authority.
pub proof fn lemma_valid_path(anchor: AnchorValue, targets: Seq<TargetValue>, time: u64)
    requires
        validated(anchor, targets, time) is Ok,
    ensures
        targets.len() > 0,
        forall|i: int|
            0 <= i < targets.len() ==> (#[trigger] targets[i]).certificate.not_before <= time
                <= targets[i].certificate.not_after,
        forall|i: int|
            0 <= i < targets.len() ==> signature_accepted(
                signing_key(anchor, targets, i),
                (#[trigger] targets[i]).certificate.signature_algorithm,
                targets[i].certificate.signature,
                targets[i].certificate.tbs,
            ),
        forall|i: int|
            0 <= i < targets.len() && (#[trigger] targets[i]).certificate.issuer.len() > 0
                ==> targets[i].certificate.issuer == issuing_name(anchor, targets, i),
        forall|i: int|
            0 <= i < targets.len() - 1 ==> is_authority(
                (#[trigger] targets[i]).stated.basic_constraints,
            ),
{
    let start = initial(anchor, targets.len() as usize);
    lemma_walk_steps(start, targets, time);
    assert forall|i: int| 0 <= i < targets.len() implies {
        &&& (#[trigger] targets[i]).certificate.not_before <= time
            <= targets[i].certificate.not_after
        &&& signature_accepted(
            signing_key(anchor, targets, i),
            targets[i].certificate.signature_algorithm,
            targets[i].certificate.signature,
            targets[i].certificate.tbs,
        )
        &&& targets[i].certificate.issuer.len() > 0 ==> targets[i].certificate.issuer
            == issuing_name(anchor, targets, i)
        &&& i < targets.len() - 1 ==> is_authority(targets[i].stated.basic_constraints)
    } by {
        let before = state_at(start, targets, time, i);
        assert(step(
            before,
            targets[i],
            time,
            targets.len() - 1 - i,
            signed_by(before, targets[i]),
        ) is Ok);
        if i == 0 {
            assert(before == start);
        } else {
            let earlier = state_at(start, targets, time, i - 1);
            assert(step(
                earlier,
                targets[i - 1],
                time,
                targets.len() - 1 - (i - 1),
                signed_by(earlier, targets[i - 1]),
            ) == Ok::<StateValue, Error>(before));
        }
    }
}

/// Whether name constraints by themselves admit a name: it lies in none
/// of their excluded subtrees, and their permitted subtrees, if they have
/// some, let it pass.
pub open spec fn constraints_admit(
    constraints: Option<ConstraintsValue>,
    name: GeneralName,
) -> bool {
    match constraints {
        Some(c) => !excluded_by(c.excluded, name) && (c.permitted.len() > 0 ==> permitted_by(
            c.permitted,
            name,
        )),
        None => true,
    }
}

/// Whether a state has taken name constraints in: it excludes what they
/// exclude, and their permitted subtrees, if they have some, are among its own.
pub open spec fn covers(state: StateValue, constraints: Option<ConstraintsValue>) -> bool {
    match constraints {
        Some(c) => (forall|x: GeneralName| c.excluded.contains(x) ==> state.excluded.contains(x))
            && (c.permitted.len() > 0 ==> state.permitted.contains(c.permitted)),
        None => true,
    }
}

/// After inserting a list of names a set holds what it held, and the names.
pub proof fn lemma_inserted_all_contains(set: Seq<GeneralName>, names: Seq<GeneralName>)
    ensures
        forall|x: GeneralName|
            inserted_all(set, names).contains(x) <==> set.contains(x) || names.contains(x),
    decreases names.len(),
{
    if names.len() > 0 {
        let front = names.drop_last();
        lemma_inserted_all_contains(set, front);
        lemma_inserted_contains(inserted_all(set, front), names.last());
        assert forall|x: GeneralName| names.contains(x) implies front.contains(x) || x
            == names.last() by {
            let i = choose|i: int| 0 <= i < names.len() && names[i] == x;
            if i < front.len() {
                assert(front[i] == x);
            }
        }
        assert forall|x: GeneralName| front.contains(x) || x == names.last() implies names.contains(
            x,
        ) by {
            if front.contains(x) {
                let i = choose|i: int| 0 <= i < front.len() && front[i] == x;
                assert(names[i] == x);
            } else {
                assert(names[names.len() - 1] == x);
            }
        }
    }
}

/// A name that a state admits is admitted by the name constraints that the
/// state has taken in.
pub proof fn lemma_covered_constraints_admit(
    state: StateValue,
    constraints: Option<ConstraintsValue>,
    name: GeneralName,
)
    requires
        covers(state, constraints),
        admitted(state, name),
    ensures
        constraints_admit(constraints, name),
{
    match constraints {
        Some(c) => {
            if excluded_by(c.excluded, name) {
                let i = choose|i: int|
                    0 <= i < c.excluded.len() && name_matches(#[trigger] c.excluded[i], name);
                assert(c.excluded.contains(c.excluded[i]));
                let j = choose|j: int|
                    0 <= j < state.excluded.len() && state.excluded[j] == c.excluded[i];
                assert(name_matches(state.excluded[j], name));
            }
            if c.permitted.len() > 0 {
                let k = choose|k: int|
                    0 <= k < state.permitted.len() && state.permitted[k] == c.permitted;
                assert(permitted_by(state.permitted[k], name));
            }
        },
        None => {},
    }
}

/// The state that a certificate leaves has taken in the certificate's name
/// constraints, and all that the state before it had taken in.
pub proof fn lemma_step_covers(
    state: StateValue,
    target: TargetValue,
    time: u64,
    remaining: int,
    signature_ok: bool,
    earlier: Option<ConstraintsValue>,
)
    requires
        step(state, target, time, remaining, signature_ok) is Ok,
        covers(state, earlier),
    ensures
        covers(step(state, target, time, remaining, signature_ok).unwrap(), earlier),
        covers(
            step(state, target, time, remaining, signature_ok).unwrap(),
            target.stated.name_constraints,
        ),
{
    let next = step(state, target, time, remaining, signature_ok).unwrap();
    let own = target.stated.name_constraints;
    match own {
        Some(c) => {
            lemma_inserted_all_contains(state.excluded, c.excluded);
            if c.permitted.len() > 0 {
                assert(next.permitted[state.permitted.len() as int] == c.permitted);
            }
        },
        None => {},
    }
    match earlier {
        Some(e) => {
            if e.permitted.len() > 0 {
                let k = choose|k: int|
                    0 <= k < state.permitted.len() && state.permitted[k] == e.permitted;
                assert(next.permitted[k] == e.permitted);
            }
        },
        None => {},
    }
}

/// The name constraints that hold for the certificate at index `i` of a
/// path on account of the certificate before index `j`, where `j` is at
/// most `i`: those of the anchor for `j` zero, else those of the
/// certificate at index `j - 1`.
pub open spec fn constraints_above(
    anchor: AnchorValue,
    targets: Seq<TargetValue>,
    j: int,
) -> Option<ConstraintsValue> {
    if j <= 0 {
        anchor.name_constraints
    } else {
        targets[j - 1].stated.name_constraints
    }
}

proof fn lemma_walk_covers(
    anchor: AnchorValue,
    targets: Seq<TargetValue>,
    time: u64,
    j: int,
    i: int,
)
    requires
        validated(anchor, targets, time) is Ok,
        0 <= j <= i <= targets.len(),
    ensures
        covers(
            state_at(initial(anchor, targets.len() as usize), targets, time, i),
            constraints_above(anchor, targets, j),
        ),
    decreases i,
{
    let start = initial(anchor, targets.len() as usize);
    lemma_walk_steps(start, targets, time);
    if i == 0 {
        assert(state_at(start, targets, time, 0) == start);
        match anchor.name_constraints {
            Some(c) => {
                lemma_inserted_all_contains(Seq::empty(), c.excluded);
                if c.permitted.len() > 0 {
                    assert(start.permitted[0] == c.permitted);
                }
            },
            None => {},
        }
    } else {
        let before = state_at(start, targets, time, i - 1);
        assert(step(
            before,
            targets[i - 1],
            time,
            targets.len() - 1 - (i - 1),
            signed_by(before, targets[i - 1]),
        ) == Ok::<StateValue, Error>(state_at(start, targets, time, i)));
        if j == i {
            lemma_step_covers(
                before,
                targets[i - 1],
                time,
                targets.len() - 1 - (i - 1),
                signed_by(before, targets[i - 1]),
                None,
            );
        } else {
            lemma_walk_covers(anchor, targets, time, j, i - 1);
            lemma_step_covers(
                before,
                targets[i - 1],
                time,
                targets.len() - 1 - (i - 1),
                signed_by(before, targets[i - 1]),
                constraints_above(anchor, targets, j),
            );
        }
    }
}

/// On a valid path the name constraints of the anchor and of every
/// certificate admit every name that the subject of every certificate
/// below them goes by.
pub proof fn lemma_valid_path_names(
    anchor: AnchorValue,
    targets: Seq<TargetValue>,
    time: u64,
    j: int,
    i: int,
    n: int,
)
    requires
        validated(anchor, targets, time) is Ok,
        0 <= j <= i < targets.len(),
        0 <= n < subject_names(targets[i]).len(),
    ensures
        constraints_admit(constraints_above(anchor, targets, j), subject_names(targets[i])[n]),
{
    let start = initial(anchor, targets.len() as usize);
    let before = state_at(start, targets, time, i);
    lemma_walk_steps(start, targets, time);
    lemma_walk_covers(anchor, targets, time, j, i);
    assert(step(before, targets[i], time, targets.len() - 1 - i, signed_by(before, targets[i]))
        is Ok);
    assert(admitted(before, subject_names(targets[i])[n]));
    lemma_covered_constraints_admit(
        before,
        constraints_above(anchor, targets, j),
        subject_names(targets[i])[n],
    );
}

/// The validation targets that a list stands for.
pub open spec fn target_views(targets: Seq<CertTarget<'_>>) -> Seq<TargetValue> {
    Seq::new(targets.len(), |i: int| targets[i]@)
}

/// The sets of names that a list of sets stands for.
pub open spec fn layer_views(layers: Seq<Names<'_>>) -> Seq<Seq<GeneralName>> {
    Seq::new(layers.len(), |i: int| layers[i]@)
}

/// The state of a walk along a certification path.
#[derive(Debug)]
pub struct ValidationState<'a> {
    issuer: &'a Name,
    key: PublicKey<'a>,
    key_id: KeyIdentifier<'a>,
    permitted: Vec<Names<'a>>,
    excluded: Names<'a>,
    policy: PolicyTracker,
    path_len: Option<u32>,
}

impl<'a> View for ValidationState<'a> {
    type V = StateValue;

    closed spec fn view(&self) -> StateValue {
        StateValue {
            issuer: self.issuer@,
            key: self.key@,
            key_id: self.key_id.bytes(),
            permitted: layer_views(self.permitted@),
            excluded: self.excluded@,
            policy: self.policy@,
            path_len: self.path_len,
        }
    }
}

/// The name constraints that an optional value holds.
pub open spec fn optional_constraints(constraints: Option<&NameConstraints<'_, '_>>) -> Option<
    ConstraintsValue,
> {
    match constraints {
        Some(c) => Some(ConstraintsValue { permitted: c.permitted(), excluded: c.excluded() }),
        None => None,
    }
}

/// Adds the permitted subtrees of name constraints, where they have some.
fn add_permitted<'a>(layers: &mut Vec<Names<'a>>, constraints: Option<&NameConstraints<'a, 'a>>)
    ensures
        layer_views(final(layers)@) == layer_views(old(layers)@) + permitted_layer(
            optional_constraints(constraints),
        ),
{
    match constraints {
        Some(c) => {
            let permitted = c.permitted_subtrees();
            if permitted.len() > 0 {
                let ghost before = layer_views(layers@);
                layers.push(permitted.copy());
                assert(layer_views(layers@) =~= before + seq![permitted@]);
            } else {
                assert(layer_views(layers@) + Seq::<Seq<GeneralName>>::empty() =~= layer_views(
                    layers@,
                ));
            }
        },
        None => {
            assert(layer_views(layers@) + Seq::<Seq<GeneralName>>::empty() =~= layer_views(
                layers@,
            ));
        },
    }
}

/// Adds the excluded subtrees of name constraints.
fn add_excluded<'a>(excluded: &mut Names<'a>, constraints: Option<&NameConstraints<'a, 'a>>)
    ensures
        final(excluded)@ == excluded_with(old(excluded)@, optional_constraints(constraints)),
{
    match constraints {
        Some(c) => {
            let more = c.excluded_subtrees().iter();
            let ghost all = c.excluded();
            let mut i: usize = 0;
            assert(all.subrange(0, 0) =~= Seq::<GeneralName>::empty());
            while i < more.len()
                invariant
                    i <= more@.len(),
                    name_views(more@) == all,
                    excluded@ == inserted_all(old(excluded)@, all.subrange(0, i as int)),
                decreases more@.len() - i,
            {
                proof {
                    assert(all.subrange(0, i + 1).drop_last() =~= all.subrange(0, i as int));
                    assert(all[i as int] == more@[i as int]@);
                }
                excluded.insert(more[i].copy());
                i += 1;
            }
            assert(all.subrange(0, i as int) =~= all);
        },
        None => {},
    }
}

/// The smaller of a limit and a new limit.
fn tighten(limit: Option<u32>, new: Option<u8>) -> (r: Option<u32>)
    ensures
        r == tighter(limit, new),
{
    match (limit, new) {
        (Some(a), Some(b)) => if (b as u32) < a {
            Some(b as u32)
        } else {
            Some(a)
        },
        (Some(a), None) => Some(a),
        (None, Some(b)) => Some(b as u32),
        (None, None) => None,
    }
}

/// The limit on the authorities that may follow, after a certificate that
/// `following` more authorities follow.
pub fn check_authority(
    path_len: Option<u32>,
    constraints: Option<BasicConstraints>,
    following: usize,
) -> (r: Option<Option<u32>>)
    ensures
        r == authority_step(path_len, constraints, following as int),
{
    let c = match constraints {
        Some(c) => c,
        None => {
            return None;
        },
    };
    if !c.ca {
        return None;
    }
    let passed = match path_len {
        Some(n) => {
            if n == 0 {
                return None;
            }
            Some(n - 1)
        },
        None => None,
    };
    match c.path_len_constraint {
        Some(own) => {
            if (own as usize) < following {
                return None;
            }
        },
        None => {},
    }
    Some(tighten(passed, c.path_len_constraint))
}

impl<'a> ValidationState<'a> {
    /// The state in which the walk along a path of `certificates`
    /// certificates starts below `anchor`.
    pub fn start(anchor: &TrustAnchor<'a>, certificates: usize) -> (state: ValidationState<'a>)
        ensures
            state@ == initial(anchor@, certificates),
    {
        let mut permitted: Vec<Names<'a>> = Vec::new();
        let mut excluded = Names::new();
        let constraints = anchor.name_constraints();
        assert(layer_views(permitted@) =~= Seq::<Seq<GeneralName>>::empty());
        add_permitted(&mut permitted, constraints);
        add_excluded(&mut excluded, constraints);
        assert(Seq::<Seq<GeneralName>>::empty() + permitted_layer(anchor@.name_constraints)
            =~= permitted_layer(anchor@.name_constraints));
        let flags = match anchor.policy_flags() {
            Some(flags) => flags,
            None => PolicyFlags {
                inhibit_policy_mapping: false,
                require_explicit_policy: false,
                inhibit_any_policy: false,
            },
        };
        ValidationState {
            issuer: anchor.name(),
            key: PublicKey {
                algorithm: anchor.pub_key().algorithm,
                parameters: anchor.pub_key().parameters,
                key: anchor.pub_key().key,
            },
            key_id: *anchor.key_id(),
            permitted,
            excluded,
            policy: PolicyTracker::new(anchor.policy_set(), flags, certificates),
            path_len: anchor.path_len_constraint(),
        }
    }

    /// The name that the next certificate has to name as its issuer.
    pub fn issuer(&self) -> (name: &'a Name)
        ensures
            name@ == self@.issuer,
    {
        self.issuer
    }

    /// The key that the next certificate has to be signed with.
    pub fn key(&self) -> (key: &PublicKey<'a>)
        ensures
            key@ == self@.key,
    {
        &self.key
    }

    /// The identifier of the key that the next certificate has to be
    /// signed with.
    pub fn key_id(&self) -> (id: &KeyIdentifier<'a>)
        ensures
            id.bytes() == self@.key_id,
    {
        &self.key_id
    }

    /// The excluded subtrees of all certificates so far.
    pub fn excluded(&self) -> (names: &Names<'a>)
        ensures
            names@ == self@.excluded,
    {
        &self.excluded
    }

    /// The permitted subtrees of each certificate so far that has some.
    pub fn permitted(&self) -> (layers: &Vec<Names<'a>>)
        ensures
            layer_views(layers@) == self@.permitted,
    {
        &self.permitted
    }

    /// Where policy processing stands.
    pub fn policy(&self) -> (policy: &PolicyTracker)
        ensures
            policy@ == self@.policy,
    {
        &self.policy
    }

    /// How many certification authorities may still follow; `None` where
    /// there is no limit.
    pub fn path_len(&self) -> (limit: Option<u32>)
        ensures
            limit == self@.path_len,
    {
        self.path_len
    }

    /// Whether the signature of a certificate was made with the working key.
    pub fn signed(&self, target: &CertTarget<'a>) -> (ok: bool)
        ensures
            ok == signed_by(self@, target@),
    {
        let certificate = target.certificate();
        verify_signature(
            &self.key,
            certificate.signature_algorithm.as_slice(),
            certificate.signature.as_slice(),
            certificate.tbs.as_slice(),
        )
    }

    /// Whether a certificate chains to the state.
    pub fn chains(&self, target: &CertTarget<'a>) -> (ok: bool)
        ensures
            ok == chained(self@, target@),
    {
        let certificate = target.certificate();
        let stated = target.stated();
        if certificate.issuer.is_empty() {
            match &stated.authority_key_id {
                Some(id) => self.key_id.matches(id.as_slice()),
                None => false,
            }
        } else {
            if !certificate.issuer.same(self.issuer) {
                return false;
            }
            match &stated.authority_key_id {
                Some(id) => self.key_id.matches(id.as_slice()),
                None => true,
            }
        }
    }

    /// Whether the constraints of the state admit a name.
    pub fn admits(&self, name: &GeneralNameRef<'_>) -> (ok: bool)
        ensures
            ok == admitted(self@, name@),
    {
        if self.excluded.excludes(name) {
            return false;
        }
        let mut k: usize = 0;
        while k < self.permitted.len()
            invariant
                k <= self.permitted@.len(),
                forall|j: int| 0 <= j < k ==> permitted_by(#[trigger] self@.permitted[j], name@),
            decreases self.permitted@.len() - k,
        {
            if !self.permitted[k].permits(name) {
                assert(!permitted_by(self@.permitted[k as int], name@));
                return false;
            }
            k += 1;
        }
        true
    }

    /// Whether the constraints of the state admit every name that the
    /// subject of a certificate goes by.
    pub fn admits_subject(&self, target: &CertTarget<'a>) -> (ok: bool)
        ensures
            ok == all_admitted(self@, subject_names(target@)),
    {
        let certificate = target.certificate();
        let stated = target.stated();
        let ghost names = subject_names(target@);
        let ghost offset: int = if certificate@.subject.len() == 0 {
            0
        } else {
            1
        };
        if !certificate.subject.is_empty() {
            let subject = GeneralNameRef::DirectoryName(certificate.subject.copy());
            assert(names[0] == subject@);
            if !self.admits(&subject) {
                return false;
            }
        }
        let mut i: usize = 0;
        while i < stated.alt_names.len()
            invariant
                i <= stated.alt_names@.len(),
                stated@ == target@.stated,
                names == subject_names(target@),
                names.len() == offset + stated.alt_names@.len(),
                offset == 0 || offset == 1,
                offset == 1 ==> admitted(self@, names[0]),
                forall|j: int|
                    0 <= j < stated.alt_names@.len() ==> #[trigger] names[offset + j]
                        == stated.alt_names@[j]@,
                forall|j: int| 0 <= j < i ==> admitted(self@, #[trigger] names[offset + j]),
            decreases stated.alt_names@.len() - i,
        {
            if !self.admits(&stated.alt_names[i]) {
                assert(!admitted(self@, names[offset + i]));
                return false;
            }
            i += 1;
        }
        assert forall|j: int| 0 <= j < names.len() implies admitted(self@, #[trigger] names[j]) by {
            if j >= offset {
                assert(names[offset + (j - offset)] == names[j]);
            }
        }
        true
    }

    /// One step of the walk: checks a certificate against the state and
    /// gives the state that the certificate leaves. `remaining` certificates
    /// follow it on the path, and `signature_ok` tells whether its
    /// signature was made with the working key.
    pub fn step(
        self,
        target: &CertTarget<'a>,
        time: u64,
        remaining: usize,
        signature_ok: bool,
    ) -> (r: Result<ValidationState<'a>, Error>)
        ensures
            match r {
                Ok(next) => step(self@, target@, time, remaining as int, signature_ok) == Ok::<
                    StateValue,
                    Error,
                >(next@),
                Err(e) => step(self@, target@, time, remaining as int, signature_ok) == Err::<
                    StateValue,
                    Error,
                >(e),
            },
    {
        let certificate = target.certificate();
        let stated = target.stated();
        if !signature_ok {
            return Err(Error::Verification);
        }
        if time < certificate.not_before {
            return Err(Error::NotYetValid);
        }
        if time > certificate.not_after {
            return Err(Error::Expired);
        }
        if !self.chains(target) {
            return Err(Error::Verification);
        }
        if !self.admits_subject(target) {
            return Err(Error::Verification);
        }
        let path_len = if remaining == 0 {
            Some(self.path_len)
        } else {
            check_authority(self.path_len, stated.basic_constraints, remaining - 1)
        };
        let ghost before = self@;
        let mut permitted = self.permitted;
        let mut excluded = self.excluded;
        let policy = match self.policy.advance(
            stated.policies.as_ref(),
            certificate.is_self_issued(),
            stated.policy_constraints,
            stated.inhibit_any_policy,
        ) {
            Ok(policy) => policy,
            Err(e) => {
                return Err(e);
            },
        };
        let limit = match path_len {
            Some(limit) => limit,
            None => {
                return Err(Error::Verification);
            },
        };
        let constraints = stated.name_constraints.as_ref();
        add_permitted(&mut permitted, constraints);
        add_excluded(&mut excluded, constraints);
        Ok(
            ValidationState {
                issuer: &certificate.subject,
                key: key_of(certificate),
                key_id: KeyIdentifier::resolve(stated.key_id, certificate.public_key.as_slice()),
                permitted,
                excluded,
                policy,
                path_len: limit,
            },
        )
    }
}

/// Validates a certification path below a trust anchor at a time, counted
/// in seconds from the Unix epoch. The path runs from the certificate that
/// the anchor issued to the leaf. The result is that of the walk: `Ok`
/// where every certificate passes every check, else the rejection of the
/// first certificate that fails one.
pub fn validate<'a>(anchor: &TrustAnchor<'a>, chain: &[CertTarget<'a>], time: u64) -> (r: Result<
    (),
    Error,
>)
    ensures
        r == validated(anchor@, target_views(chain@), time),
{
    let n = chain.len();
    if n == 0 {
        return Err(Error::Verification);
    }
    let ghost targets = target_views(chain@);
    let mut state = ValidationState::start(anchor, n);
    let mut i: usize = 0;
    assert(targets.subrange(0, n as int) =~= targets);
    while i < n
        invariant
            i <= n,
            n == chain@.len(),
            targets == target_views(chain@),
            validated(anchor@, targets, time) == walk(
                state@,
                targets.subrange(i as int, n as int),
                time,
            ),
        decreases n - i,
    {
        let ghost rest = targets.subrange(i as int, n as int);
        proof {
            assert(rest[0] == chain@[i as int]@);
            assert(rest.drop_first() =~= targets.subrange(i + 1, n as int));
        }
        let signature_ok = state.signed(&chain[i]);
        match state.step(&chain[i], time, n - 1 - i, signature_ok) {
            Ok(next) => {
                state = next;
            },
            Err(e) => {
                return Err(e);
            },
        }
        i += 1;
    }
    Ok(())
}

} // verus!
