//! Certificate policies: the set of policies that a certificate asserts,
//! and the flags that steer how policies are processed along a path.
use crate::bytes::byte_views;
use crate::error::CertificateError;
use crate::ext::PolicyConstraints;
use crate::hash::{
    byte_set_contains, byte_set_contents, byte_set_insert, byte_set_items, byte_set_len,
    byte_set_new, byte_set_remove, ByteSet,
};
use crate::oid::{any_policy, any_policy_oid, is_any_policy};
use crate::verdict::Error;
use vstd::prelude::*;
use vstd::set_lib::lemma_subset_equality;
use vstd::slice::slice_to_vec;

verus! {

/// Policy flags to define the behaviour of policy processing during path
/// validation.
#[derive(Copy, Clone, Debug, PartialEq, Eq, Structural)]
pub struct PolicyFlags {
    /// `inhibitPolicyMapping` indicates if policy mapping is allowed in the
    /// certification path. When set to `true`, policy mapping is not
    /// permitted.
    pub inhibit_policy_mapping: bool,
    /// `requireExplicitPolicy` indicates if the certification path must be
    /// valid for at least one of the certificate policies in the policy set.
    pub require_explicit_policy: bool,
    /// `inhibitAnyPolicy` indicates whether the special anyPolicy policy
    /// identifier is considered an explicit match for other certificate
    /// policies.
    pub inhibit_any_policy: bool,
}

impl Default for PolicyFlags {
    fn default() -> (flags: PolicyFlags)
        ensures
            !flags.inhibit_policy_mapping,
            !flags.require_explicit_policy,
            !flags.inhibit_any_policy,
    {
        PolicyFlags {
            inhibit_policy_mapping: false,
            require_explicit_policy: false,
            inhibit_any_policy: false,
        }
    }
}

/// Set of policy identifiers, each held as the content octets of its
/// encoding. An identifier is in the set once or not at all.
#[derive(Debug)]
pub struct PolicySet {
    set: ByteSet,
}

impl View for PolicySet {
    type V = Set<Seq<u8>>;

    closed spec fn view(&self) -> Set<Seq<u8>> {
        byte_set_contents(self.set)
    }
}

/// The set of the identifiers of `policies`, where none occurs twice.
pub open spec fn policy_set_of(policies: Seq<Seq<u8>>) -> Option<Set<Seq<u8>>> {
    if policies.no_duplicates() {
        Some(policies.to_set())
    } else {
        None
    }
}

/// An identifier is counted once. Inserting one that a set holds leaves the
/// set, and so its length, as it was; and a list that names an identifier
/// twice makes no set.
pub proof fn lemma_policy_counted_once(
    set: Set<Seq<u8>>,
    policy: Seq<u8>,
    policies: Seq<Seq<u8>>,
    i: int,
    j: int,
)
    requires
        set.contains(policy),
        0 <= i < j < policies.len(),
        policies[i] == policies[j],
    ensures
        set.insert(policy) == set,
        set.insert(policy).len() == set.len(),
        policy_set_of(policies) is None,
{
    assert(set.insert(policy) =~= set);
}

impl PolicySet {
    #[verifier::type_invariant]
    spec fn is_finite(&self) -> bool {
        byte_set_contents(self.set).finite()
    }

    /// Returns an empty `PolicySet`.
    pub fn new() -> (set: PolicySet)
        ensures
            set@ == Set::<Seq<u8>>::empty(),
    {
        PolicySet { set: byte_set_new() }
    }

    /// Inserts a policy identifier into the set. Returns `false` if the
    /// identifier already existed in the set, which is then unchanged.
    pub fn insert(&mut self, policy: Vec<u8>) -> (fresh: bool)
        ensures
            fresh == !old(self)@.contains(policy@),
            final(self)@ == old(self)@.insert(policy@),
            final(self)@.finite(),
            final(self)@.len() == old(self)@.len() + if fresh {
                1int
            } else {
                0int
            },
    {
        proof {
            use_type_invariant(&*self);
        }
        let mut set = byte_set_new();
        core::mem::swap(&mut self.set, &mut set);
        let fresh = byte_set_insert(&mut set, policy);
        core::mem::swap(&mut self.set, &mut set);
        fresh
    }

    /// Removes a policy identifier from the set. Returns `false` if the
    /// identifier never existed in the set.
    pub fn remove(&mut self, policy: &[u8]) -> (found: bool)
        ensures
            found == old(self)@.contains(policy@),
            final(self)@ == old(self)@.remove(policy@),
            final(self)@.finite(),
    {
        proof {
            use_type_invariant(&*self);
        }
        let mut set = byte_set_new();
        core::mem::swap(&mut self.set, &mut set);
        let found = byte_set_remove(&mut set, policy);
        core::mem::swap(&mut self.set, &mut set);
        found
    }

    /// Returns `true` if the set contains the policy identifier.
    pub fn contains(&self, policy: &[u8]) -> (found: bool)
        ensures
            found == self@.contains(policy@),
    {
        byte_set_contains(&self.set, policy)
    }

    /// Returns the length of the set.
    pub fn len(&self) -> (n: usize)
        ensures
            self@.finite(),
            n == self@.len(),
    {
        proof {
            use_type_invariant(self);
        }
        byte_set_len(&self.set)
    }

    /// Returns `true` if the set is empty.
    pub fn is_empty(&self) -> (empty: bool)
        ensures
            empty == (self@ == Set::<Seq<u8>>::empty()),
    {
        let n = byte_set_len(&self.set);
        proof {
            use_type_invariant(self);
            if n == 0 {
                self@.lemma_len0_is_empty();
                assert(self@ =~= Set::<Seq<u8>>::empty());
            }
        }
        n == 0
    }

    /// The policy identifiers of the set, each once, in no stated order.
    pub fn iter(&self) -> (policies: Vec<Vec<u8>>)
        ensures
            byte_views(policies@).no_duplicates(),
            byte_views(policies@).to_set() == self@,
    {
        byte_set_items(&self.set)
    }

    /// Makes the set of the policy identifiers that a certificate asserts.
    /// Fails with `InvalidPolicies` where an identifier occurs twice.
    pub fn try_from(policies: &Vec<Vec<u8>>) -> (r: Result<PolicySet, CertificateError>)
        ensures
            match r {
                Ok(set) => policy_set_of(byte_views(policies@)) == Some(set@),
                Err(e) => policy_set_of(byte_views(policies@)) is None && e is InvalidPolicies,
            },
    {
        let ghost all = byte_views(policies@);
        let mut set = PolicySet::new();
        let mut i: usize = 0;
        while i < policies.len()
            invariant
                i <= policies@.len(),
                all == byte_views(policies@),
                all.subrange(0, i as int).no_duplicates(),
                set@ == all.subrange(0, i as int).to_set(),
            decreases policies@.len() - i,
        {
            let ghost before = all.subrange(0, i as int);
            let ghost after = all.subrange(0, i + 1);
            let fresh = set.insert(slice_to_vec(policies[i].as_slice()));
            proof {
                assert(after =~= before.push(all[i as int]));
                if !fresh {
                    let j = choose|j: int| 0 <= j < before.len() && before[j] == all[i as int];
                    assert(all[j] == all[i as int]);
                } else {
                    assert forall|a: int, b: int| 0 <= a < b < after.len() implies after[a]
                        != after[b] by {
                        if b == i {
                            assert(before[a] == after[a]);
                            assert(before.contains(after[a]));
                        } else {
                            assert(before[a] == after[a] && before[b] == after[b]);
                        }
                    }
                    assert(after.to_set() =~= before.to_set().insert(all[i as int])) by {
                        assert forall|x: Seq<u8>| after.to_set().contains(x) implies before.to_set().insert(
                            all[i as int],
                        ).contains(x) by {
                            let k = choose|k: int| 0 <= k < after.len() && after[k] == x;
                            if k < i {
                                assert(before[k] == x);
                            }
                        }
                        assert forall|x: Seq<u8>|
                            before.to_set().insert(all[i as int]).contains(
                                x,
                            ) implies after.to_set().contains(x) by {
                            if x == all[i as int] {
                                assert(after[i as int] == x);
                            } else {
                                let k = choose|k: int| 0 <= k < before.len() && before[k] == x;
                                assert(after[k] == x);
                            }
                        }
                    }
                }
            }
            if !fresh {
                return Err(CertificateError::InvalidPolicies);
            }
            i += 1;
        }
        assert(all.subrange(0, i as int) =~= all);
        Ok(set)
    }

    /// A copy of the set.
    pub fn copy(&self) -> (set: PolicySet)
        ensures
            set@ == self@,
    {
        let items = self.iter();
        let ghost views = byte_views(items@);
        let mut set = PolicySet::new();
        let mut i: usize = 0;
        while i < items.len()
            invariant
                i <= items@.len(),
                views == byte_views(items@),
                forall|x: Seq<u8>|
                    set@.contains(x) <==> exists|j: int| 0 <= j < i && #[trigger] views[j] == x,
            decreases items@.len() - i,
        {
            set.insert(slice_to_vec(items[i].as_slice()));
            assert(views[i as int] == items@[i as int]@);
            i += 1;
        }
        assert(set@ =~= views.to_set());
        set
    }

    /// Whether two sets hold the same identifiers.
    pub fn same(&self, other: &PolicySet) -> (same: bool)
        ensures
            same == (self@ == other@),
    {
        if self.len() != other.len() {
            return false;
        }
        let items = self.iter();
        let ghost views = byte_views(items@);
        let mut i: usize = 0;
        while i < items.len()
            invariant
                i <= items@.len(),
                views == byte_views(items@),
                views.to_set() == self@,
                forall|j: int| 0 <= j < i ==> other@.contains(#[trigger] views[j]),
            decreases items@.len() - i,
        {
            assert(views[i as int] == items@[i as int]@);
            if !other.contains(items[i].as_slice()) {
                assert(self@.contains(views[i as int]));
                return false;
            }
            i += 1;
        }
        proof {
            assert(self@.subset_of(other@)) by {
                assert forall|x: Seq<u8>| self@.contains(x) implies other@.contains(x) by {
                    let j = choose|j: int| 0 <= j < views.len() && views[j] == x;
                    assert(other@.contains(views[j]));
                }
            }
            lemma_subset_equality(self@, other@);
        }
        true
    }
}

impl Clone for PolicySet {
    fn clone(&self) -> (set: PolicySet)
        ensures
            set@ == self@,
    {
        self.copy()
    }
}

impl Default for PolicySet {
    fn default() -> (set: PolicySet)
        ensures
            set@ == Set::<Seq<u8>>::empty(),
    {
        PolicySet::new()
    }
}

impl PartialEq for PolicySet {
    fn eq(&self, other: &PolicySet) -> (same: bool) {
        self.same(other)
    }
}

impl vstd::std_specs::cmp::PartialEqSpecImpl for PolicySet {
    open spec fn obeys_eq_spec() -> bool {
        true
    }

    open spec fn eq_spec(&self, other: &PolicySet) -> bool {
        self@ == other@
    }
}

impl Eq for PolicySet {

}

impl PolicySet {
    /// The identifiers that both sets hold.
    pub fn intersection(&self, other: &PolicySet) -> (both: PolicySet)
        ensures
            both@ == self@.intersect(other@),
    {
        let items = self.iter();
        let ghost views = byte_views(items@);
        let mut both = PolicySet::new();
        let mut i: usize = 0;
        while i < items.len()
            invariant
                i <= items@.len(),
                views == byte_views(items@),
                views.to_set() == self@,
                forall|x: Seq<u8>|
                    both@.contains(x) <==> other@.contains(x) && exists|j: int|
                        0 <= j < i && #[trigger] views[j] == x,
            decreases items@.len() - i,
        {
            assert(views[i as int] == items@[i as int]@);
            if other.contains(items[i].as_slice()) {
                both.insert(slice_to_vec(items[i].as_slice()));
            }
            i += 1;
        }
        proof {
            assert forall|x: Seq<u8>| both@.contains(x) implies self@.intersect(other@).contains(
                x,
            ) by {
                let j = choose|j: int| 0 <= j < views.len() && views[j] == x;
                assert(views.contains(x));
            }
            assert forall|x: Seq<u8>| self@.intersect(other@).contains(x) implies both@.contains(
                x,
            ) by {
                assert(views.contains(x));
                let j = choose|j: int| 0 <= j < views.len() && views[j] == x;
                assert(views[j] == x);
            }
            assert(both@ =~= self@.intersect(other@));
        }
        both
    }

    /// Whether the set holds an identifier other than `anyPolicy` that
    /// `other` does not hold.
    pub fn strays_from(&self, other: &PolicySet) -> (stray: bool)
        ensures
            stray == exists|p: Seq<u8>|
                self@.contains(p) && p != any_policy() && !other@.contains(p),
    {
        let items = self.iter();
        let ghost views = byte_views(items@);
        let mut i: usize = 0;
        while i < items.len()
            invariant
                i <= items@.len(),
                views == byte_views(items@),
                views.to_set() == self@,
                forall|j: int|
                    0 <= j < i ==> (#[trigger] views[j]) == any_policy() || other@.contains(
                        views[j],
                    ),
            decreases items@.len() - i,
        {
            assert(views[i as int] == items@[i as int]@);
            if !is_any_policy(items[i].as_slice()) && !other.contains(items[i].as_slice()) {
                assert(views.contains(views[i as int]));
                assert(self@.contains(views[i as int]));
                return true;
            }
            i += 1;
        }
        proof {
            assert forall|p: Seq<u8>| self@.contains(p) && p != any_policy() implies other@.contains(
                p,
            ) by {
                assert(views.contains(p));
                let j = choose|j: int| 0 <= j < views.len() && views[j] == p;
                assert(views[j] == p);
            }
        }
        false
    }
}

/// Where policy processing stands, as a mathematical value: the policies
/// that the path is still valid for, where `anyPolicy` stands for all of
/// them, and how many more certificates may pass before an explicit policy
/// is required, policy mapping is inhibited and `anyPolicy` is inhibited.
pub struct PolicyState {
    pub policies: Set<Seq<u8>>,
    pub explicit_policy: u64,
    pub policy_mapping: u64,
    pub inhibit_any_policy: u64,
}

/// What policy processing reads of one certificate: the policies that it
/// asserts, whether it is self-issued, and what its policy constraints and
/// inhibit anyPolicy extensions state.
pub struct PolicyInput {
    pub asserted: Option<Set<Seq<u8>>>,
    pub self_issued: bool,
    pub constraints: Option<PolicyConstraints>,
    pub inhibit_any_policy: Option<u32>,
}

/// Where a countdown starts on a path of `certificates` certificates: at
/// zero where the flag is set, else above what the path can count down.
pub open spec fn initial_counter(set: bool, certificates: usize) -> u64 {
    if set {
        0u64
    } else if certificates >= u64::MAX {
        u64::MAX
    } else {
        (certificates + 1) as u64
    }
}

/// Where policy processing starts: with the anchor's policies, or with
/// `anyPolicy` where the anchor names none, and with the countdowns that
/// the flags ask for.
pub open spec fn initial_state(
    policies: Option<Set<Seq<u8>>>,
    flags: PolicyFlags,
    certificates: usize,
) -> PolicyState {
    PolicyState {
        policies: match policies {
            Some(p) => p,
            None => set![any_policy()],
        },
        explicit_policy: initial_counter(flags.require_explicit_policy, certificates),
        policy_mapping: initial_counter(flags.inhibit_policy_mapping, certificates),
        inhibit_any_policy: initial_counter(flags.inhibit_any_policy, certificates),
    }
}

/// Whether `anyPolicy` still counts where a certificate asserts it: neither
/// the countdown that inhibits it nor the one that inhibits policy mapping
/// has run out.
pub open spec fn wildcard_honoured(state: PolicyState) -> bool {
    state.inhibit_any_policy > 0 && state.policy_mapping > 0
}

/// The policies that a certificate counts as asserting: those of its
/// extension, none where it has no such extension, and without `anyPolicy`
/// where that is not honoured.
pub open spec fn effective(state: PolicyState, asserted: Option<Set<Seq<u8>>>) -> Set<Seq<u8>> {
    let named = match asserted {
        Some(a) => a,
        None => Set::empty(),
    };
    if wildcard_honoured(state) {
        named
    } else {
        named.remove(any_policy())
    }
}

/// The intersection of the working set with what a certificate asserts,
/// `anyPolicy` on either side standing for every policy.
pub open spec fn narrowed(working: Set<Seq<u8>>, asserted: Set<Seq<u8>>) -> Set<Seq<u8>> {
    if working.contains(any_policy()) {
        asserted
    } else if asserted.contains(any_policy()) {
        working
    } else {
        working.intersect(asserted)
    }
}

/// Whether a certificate asserts a policy outside a working set that does
/// not stand for every policy.
pub open spec fn strays(working: Set<Seq<u8>>, asserted: Set<Seq<u8>>) -> bool {
    !working.contains(any_policy()) && exists|p: Seq<u8>|
        asserted.contains(p) && p != any_policy() && !working.contains(p)
}

/// A countdown after one certificate: one less unless the certificate is
/// self-issued or the countdown has run out, and no more than the
/// certificate allows.
pub open spec fn counted_down(counter: u64, self_issued: bool, limit: Option<u32>) -> u64 {
    let passed = if self_issued || counter == 0 {
        counter
    } else {
        (counter - 1) as u64
    };
    match limit {
        Some(l) => if l < passed {
            l as u64
        } else {
            passed
        },
        None => passed,
    }
}

/// What one certificate makes of the policy state, or `None` where the
/// certificate is rejected. While an explicit policy is required, a
/// certificate is rejected that asserts a policy outside the working set,
/// or that leaves the working set empty.
pub open spec fn policy_step(state: PolicyState, input: PolicyInput) -> Option<PolicyState> {
    let asserted = effective(state, input.asserted);
    let policies = narrowed(state.policies, asserted);
    if state.explicit_policy == 0 && (strays(state.policies, asserted) || policies
        == Set::<Seq<u8>>::empty()) {
        None
    } else {
        Some(
            PolicyState {
                policies,
                explicit_policy: counted_down(
                    state.explicit_policy,
                    input.self_issued,
                    match input.constraints {
                        Some(c) => c.require_explicit_policy,
                        None => None,
                    },
                ),
                policy_mapping: counted_down(
                    state.policy_mapping,
                    input.self_issued,
                    match input.constraints {
                        Some(c) => c.inhibit_policy_mapping,
                        None => None,
                    },
                ),
                inhibit_any_policy: counted_down(
                    state.inhibit_any_policy,
                    input.self_issued,
                    input.inhibit_any_policy,
                ),
            },
        )
    }
}

/// While an explicit policy is required, a certificate that passes leaves
/// a working set that is not empty.
pub proof fn lemma_explicit_policy_leaves_a_policy(state: PolicyState, input: PolicyInput)
    requires
        state.explicit_policy == 0,
        policy_step(state, input) is Some,
    ensures
        policy_step(state, input).unwrap().policies != Set::<Seq<u8>>::empty(),
        policy_step(state, input).unwrap().explicit_policy == 0,
{
}

/// A working set that does not stand for every policy never grows.
pub proof fn lemma_policies_narrow(state: PolicyState, input: PolicyInput)
    requires
        !state.policies.contains(any_policy()),
        policy_step(state, input) is Some,
    ensures
        policy_step(state, input).unwrap().policies.subset_of(state.policies),
{
}

/// Starts a countdown.
fn start_counter(set: bool, certificates: usize) -> (counter: u64)
    ensures
        counter == initial_counter(set, certificates),
{
    if set {
        0
    } else if certificates as u64 == u64::MAX {
        u64::MAX
    } else {
        certificates as u64 + 1
    }
}

/// Counts a countdown down.
fn count_down(counter: u64, self_issued: bool, limit: Option<u32>) -> (next: u64)
    ensures
        next == counted_down(counter, self_issued, limit),
{
    let passed = if self_issued || counter == 0 {
        counter
    } else {
        counter - 1
    };
    match limit {
        Some(l) => if (l as u64) < passed {
            l as u64
        } else {
            passed
        },
        None => passed,
    }
}

/// Where policy processing stands.
#[derive(Debug)]
pub struct PolicyTracker {
    policies: PolicySet,
    explicit_policy: u64,
    policy_mapping: u64,
    inhibit_any_policy: u64,
}

impl View for PolicyTracker {
    type V = PolicyState;

    closed spec fn view(&self) -> PolicyState {
        PolicyState {
            policies: self.policies@,
            explicit_policy: self.explicit_policy,
            policy_mapping: self.policy_mapping,
            inhibit_any_policy: self.inhibit_any_policy,
        }
    }
}

/// The policies that an optional set holds.
pub open spec fn optional_policies(policies: Option<&PolicySet>) -> Option<Set<Seq<u8>>> {
    match policies {
        Some(p) => Some(p@),
        None => None,
    }
}

impl PolicyTracker {
    /// Starts policy processing for a path of `certificates` certificates
    /// below an anchor with the given policies and flags.
    pub fn new(policies: Option<&PolicySet>, flags: PolicyFlags, certificates: usize) -> (tracker:
        PolicyTracker)
        ensures
            tracker@ == initial_state(optional_policies(policies), flags, certificates),
    {
        let policies = match policies {
            Some(p) => p.copy(),
            None => {
                let mut all = PolicySet::new();
                let any = any_policy_oid();
                all.insert(slice_to_vec(any.as_slice()));
                assert(all@ =~= set![any_policy()]);
                all
            },
        };
        PolicyTracker {
            policies,
            explicit_policy: start_counter(flags.require_explicit_policy, certificates),
            policy_mapping: start_counter(flags.inhibit_policy_mapping, certificates),
            inhibit_any_policy: start_counter(flags.inhibit_any_policy, certificates),
        }
    }

    /// The policies that the path is still valid for.
    pub fn policies(&self) -> (policies: &PolicySet)
        ensures
            policies@ == self@.policies,
    {
        &self.policies
    }

    /// Whether an explicit policy is required by now.
    pub fn explicit_policy_required(&self) -> (required: bool)
        ensures
            required == (self@.explicit_policy == 0),
    {
        self.explicit_policy == 0
    }

    /// Processes the policies of one certificate. Fails with
    /// `Error::Verification` where the certificate is rejected.
    pub fn advance(
        self,
        asserted: Option<&PolicySet>,
        self_issued: bool,
        constraints: Option<PolicyConstraints>,
        inhibit_any_policy: Option<u32>,
    ) -> (r: Result<PolicyTracker, Error>)
        ensures
            match r {
                Ok(next) => policy_step(
                    self@,
                    PolicyInput {
                        asserted: optional_policies(asserted),
                        self_issued,
                        constraints,
                        inhibit_any_policy,
                    },
                ) == Some(next@),
                Err(e) => e == Error::Verification && policy_step(
                    self@,
                    PolicyInput {
                        asserted: optional_policies(asserted),
                        self_issued,
                        constraints,
                        inhibit_any_policy,
                    },
                ) is None,
            },
    {
        let any = any_policy_oid();
        let honoured = self.inhibit_any_policy > 0 && self.policy_mapping > 0;
        let mut named = match asserted {
            Some(a) => a.copy(),
            None => PolicySet::new(),
        };
        if !honoured {
            named.remove(any.as_slice());
        }
        assert(named@ == effective(self@, optional_policies(asserted)));
        let open = self.policies.contains(any.as_slice());
        if self.explicit_policy == 0 && !open && named.strays_from(&self.policies) {
            return Err(Error::Verification);
        }
        let explicit_policy = self.explicit_policy;
        let policy_mapping = self.policy_mapping;
        let inhibit = self.inhibit_any_policy;
        let policies = if open {
            named
        } else if named.contains(any.as_slice()) {
            self.policies
        } else {
            self.policies.intersection(&named)
        };
        if explicit_policy == 0 && policies.is_empty() {
            return Err(Error::Verification);
        }
        let (require, mapping) = match constraints {
            Some(c) => (c.require_explicit_policy, c.inhibit_policy_mapping),
            None => (None, None),
        };
        Ok(
            PolicyTracker {
                policies,
                explicit_policy: count_down(explicit_policy, self_issued, require),
                policy_mapping: count_down(policy_mapping, self_issued, mapping),
                inhibit_any_policy: count_down(inhibit, self_issued, inhibit_any_policy),
            },
        )
    }
}

} // verus!
