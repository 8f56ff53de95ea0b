//! Names of certificate subjects, and the constraints on them.
use vstd::prelude::*;

pub mod constraints;
pub mod directory;
pub mod dirstr;
pub mod dp;
pub mod ediparty;
pub mod general;
pub mod matching;
pub mod other;

pub use constraints::{GeneralSubtreeRef, NameConstraints, NameConstraintsRef};
pub use directory::Name;
pub use dirstr::DirectoryStringRef;
pub use dp::DistributionPointNameRef;
pub use ediparty::EdiPartyNameRef;
pub use general::{GeneralName, GeneralNameRef, GeneralNameRefs};
pub use other::OtherNameRef;

verus! {

/// The general names that a list of borrowed names stands for.
pub open spec fn name_views(names: Seq<GeneralNameRef<'_>>) -> Seq<GeneralName> {
    Seq::new(names.len(), |i: int| names[i]@)
}

/// What inserting `name` makes of the list `names`: the list itself where it
/// holds the name already, else the list with the name at its end.
pub open spec fn inserted(names: Seq<GeneralName>, name: GeneralName) -> Seq<GeneralName> {
    if names.contains(name) {
        names
    } else {
        names.push(name)
    }
}

/// What removing `name` makes of the list `names`: the list without the
/// first entry equal to the name.
pub open spec fn removed(names: Seq<GeneralName>, name: GeneralName) -> Seq<GeneralName> {
    if names.contains(name) {
        names.remove(names.index_of(name))
    } else {
        names
    }
}

/// The names of `names` in order, each kept where it first occurs.
pub open spec fn distinct(names: Seq<GeneralName>) -> Seq<GeneralName>
    decreases names.len(),
{
    if names.len() == 0 {
        names
    } else {
        inserted(distinct(names.drop_last()), names.last())
    }
}

/// After inserting a name a list holds what it held, and the name.
pub proof fn lemma_inserted_contains(names: Seq<GeneralName>, name: GeneralName)
    ensures
        forall|other: GeneralName|
            inserted(names, name).contains(other) <==> names.contains(other) || other == name,
{
    let after = inserted(names, name);
    if !names.contains(name) {
        assert(after[names.len() as int] == name);
        assert forall|other: GeneralName| after.contains(other) implies names.contains(other)
            || other == name by {
            let i = choose|i: int| 0 <= i < after.len() && after[i] == other;
            if i < names.len() {
                assert(names[i] == other);
            }
        }
        assert forall|other: GeneralName| names.contains(other) implies after.contains(other) by {
            let i = choose|i: int| 0 <= i < names.len() && names[i] == other;
            assert(after[i] == other);
        }
    }
}

/// Inserting keeps a list free of duplicates, and the name is then in it.
pub proof fn lemma_inserted(names: Seq<GeneralName>, name: GeneralName)
    requires
        names.no_duplicates(),
    ensures
        inserted(names, name).no_duplicates(),
        inserted(names, name).contains(name),
        forall|other: GeneralName|
            inserted(names, name).contains(other) <==> names.contains(other) || other == name,
{
    lemma_inserted_contains(names, name);
}

/// Inserting a name a second time changes nothing: the list keeps its
/// length and still holds the name.
pub proof fn lemma_insert_idempotent(names: Seq<GeneralName>, name: GeneralName)
    requires
        names.no_duplicates(),
    ensures
        inserted(inserted(names, name), name) == inserted(names, name),
        inserted(inserted(names, name), name).len() == inserted(names, name).len(),
        inserted(names, name).contains(name),
        inserted(inserted(names, name), name).contains(name),
{
    lemma_inserted(names, name);
}

/// Removing a name from a list free of duplicates leaves a list free of
/// duplicates that no longer holds the name.
pub proof fn lemma_removed(names: Seq<GeneralName>, name: GeneralName)
    requires
        names.no_duplicates(),
    ensures
        removed(names, name).no_duplicates(),
        !removed(names, name).contains(name),
        forall|other: GeneralName|
            removed(names, name).contains(other) <==> names.contains(other) && other != name,
{
    let after = removed(names, name);
    if names.contains(name) {
        let at = names.index_of(name);
        assert(after.len() == names.len() - 1);
        assert forall|i: int| 0 <= i < after.len() implies after[i] == names[if i < at {
            i
        } else {
            i + 1
        }] by {}
        assert forall|other: GeneralName| after.contains(other) implies names.contains(other)
            && other != name by {
            let i = choose|i: int| 0 <= i < after.len() && after[i] == other;
            let j = if i < at {
                i
            } else {
                i + 1
            };
            assert(names[j] == other);
        }
        assert forall|other: GeneralName| names.contains(other) && other != name implies after.contains(
            other,
        ) by {
            let j = choose|j: int| 0 <= j < names.len() && names[j] == other;
            let i = if j < at {
                j
            } else {
                j - 1
            };
            assert(after[i] == other);
        }
    }
}

/// What was inserted and not removed since is still there; what was removed
/// is gone.
pub proof fn lemma_insert_then_remove(names: Seq<GeneralName>, name: GeneralName)
    requires
        names.no_duplicates(),
    ensures
        !removed(inserted(names, name), name).contains(name),
        !names.contains(name) ==> removed(inserted(names, name), name) == names,
{
    lemma_inserted(names, name);
    lemma_removed(inserted(names, name), name);
    if !names.contains(name) {
        let grown = names.push(name);
        let at = grown.index_of(name);
        if at < names.len() {
            assert(names[at] == name);
        }
        assert(grown.remove(at) =~= names);
    }
}

/// A list free of duplicates is its own list of distinct names.
pub proof fn lemma_distinct_of_no_duplicates(names: Seq<GeneralName>)
    requires
        names.no_duplicates(),
    ensures
        distinct(names) == names,
    decreases names.len(),
{
    if names.len() > 0 {
        let front = names.drop_last();
        lemma_distinct_of_no_duplicates(front);
        if front.contains(names.last()) {
            let i = choose|i: int| 0 <= i < front.len() && front[i] == names.last();
            assert(names[i] == names[names.len() - 1]);
        }
        assert(front.push(names.last()) =~= names);
    }
}

/// The list of distinct names is free of duplicates and holds the same names.
pub proof fn lemma_distinct(names: Seq<GeneralName>)
    ensures
        distinct(names).no_duplicates(),
        forall|name: GeneralName| distinct(names).contains(name) <==> names.contains(name),
        distinct(names).len() <= names.len(),
    decreases names.len(),
{
    if names.len() > 0 {
        let front = names.drop_last();
        lemma_distinct(front);
        lemma_inserted(distinct(front), names.last());
        assert forall|name: GeneralName| names.contains(name) implies front.contains(name) || name
            == names.last() by {
            let i = choose|i: int| 0 <= i < names.len() && names[i] == name;
            if i < front.len() {
                assert(front[i] == name);
            }
        }
        assert forall|name: GeneralName| front.contains(name) || name
            == names.last() implies names.contains(name) by {
            if front.contains(name) {
                let i = choose|i: int| 0 <= i < front.len() && front[i] == name;
                assert(names[i] == name);
            } else {
                assert(names[names.len() - 1] == name);
            }
        }
    }
}

/// A set of general names that keeps the order in which they came. Two
/// names are the same where their form and their content are: letters are
/// not folded. Every operation walks the list.
#[derive(Debug)]
pub struct Names<'a> {
    names: Vec<GeneralNameRef<'a>>,
}

impl<'a> View for Names<'a> {
    type V = Seq<GeneralName>;

    closed spec fn view(&self) -> Seq<GeneralName> {
        name_views(self.names@)
    }
}

impl<'a> Names<'a> {
    #[verifier::type_invariant]
    spec fn no_name_twice(&self) -> bool {
        name_views(self.names@).no_duplicates()
    }

    /// Returns an empty `Names`.
    pub fn new() -> (names: Names<'a>)
        ensures
            names@ == Seq::<GeneralName>::empty(),
    {
        let names = Names { names: Vec::new() };
        assert(names@ =~= Seq::<GeneralName>::empty());
        names
    }

    /// Returns the index of the name; `None` if it is not found.
    pub fn index_of(&self, name: &GeneralNameRef<'_>) -> (at: Option<usize>)
        ensures
            match at {
                Some(i) => self@.contains(name@) && i == self@.index_of(name@) && i < self@.len()
                    && self@[i as int] == name@,
                None => !self@.contains(name@),
            },
    {
        proof {
            use_type_invariant(self);
        }
        let mut i: usize = 0;
        while i < self.names.len()
            invariant
                i <= self.names@.len(),
                self@.no_duplicates(),
                forall|j: int| 0 <= j < i ==> self@[j] != name@,
            decreases self.names@.len() - i,
        {
            if self.names[i].same(name) {
                proof {
                    assert(self@[i as int] == name@);
                    assert(self@.contains(name@));
                    let k = self@.index_of(name@);
                    if k != i {
                        assert(self@[k] == self@[i as int]);
                    }
                }
                return Some(i);
            }
            i += 1;
        }
        None
    }

    /// Returns `true` if the set contains the name.
    pub fn contains(&self, name: &GeneralNameRef<'_>) -> (found: bool)
        ensures
            found == self@.contains(name@),
    {
        self.index_of(name).is_some()
    }

    /// Inserts a name into the set. Returns `false` if the name already
    /// existed in the set, which is then unchanged.
    pub fn insert(&mut self, name: GeneralNameRef<'a>) -> (fresh: bool)
        ensures
            fresh == !old(self)@.contains(name@),
            final(self)@ == inserted(old(self)@, name@),
            final(self)@.contains(name@),
    {
        proof {
            use_type_invariant(&*self);
            lemma_inserted(self@, name@);
        }
        if self.contains(&name) {
            false
        } else {
            let ghost before = self@;
            let mut names: Vec<GeneralNameRef<'a>> = Vec::new();
            core::mem::swap(&mut self.names, &mut names);
            names.push(name);
            assert(name_views(names@) =~= before.push(name@));
            core::mem::swap(&mut self.names, &mut names);
            true
        }
    }

    /// Removes a name from the set. Returns `false` if the name never
    /// existed in the set, which is then unchanged.
    pub fn remove(&mut self, name: &GeneralNameRef<'_>) -> (found: bool)
        ensures
            found == old(self)@.contains(name@),
            final(self)@ == removed(old(self)@, name@),
            !final(self)@.contains(name@),
    {
        proof {
            use_type_invariant(&*self);
            lemma_removed(self@, name@);
        }
        match self.index_of(name) {
            Some(at) => {
                let ghost before = self@;
                let mut names: Vec<GeneralNameRef<'a>> = Vec::new();
                core::mem::swap(&mut self.names, &mut names);
                names.remove(at);
                assert(name_views(names@) =~= before.remove(at as int));
                core::mem::swap(&mut self.names, &mut names);
                true
            },
            None => false,
        }
    }

    /// Returns the length of the set.
    pub fn len(&self) -> (n: usize)
        ensures
            n == self@.len(),
            self@.no_duplicates(),
    {
        proof {
            use_type_invariant(self);
        }
        self.names.len()
    }

    /// Returns `true` if the set is empty.
    pub fn is_empty(&self) -> (empty: bool)
        ensures
            empty == (self@.len() == 0),
    {
        self.names.len() == 0
    }

    /// The name at index `at`.
    pub fn get(&self, at: usize) -> (name: &GeneralNameRef<'a>)
        requires
            at < self@.len(),
        ensures
            name@ == self@[at as int],
    {
        &self.names[at]
    }

    /// The names in the order in which they came, to walk over.
    pub fn iter(&self) -> (names: &[GeneralNameRef<'a>])
        ensures
            name_views(names@) == self@,
            self@.no_duplicates(),
    {
        proof {
            use_type_invariant(self);
        }
        self.names.as_slice()
    }

    /// The names in the order in which they came.
    pub fn as_ref(&self) -> (names: &Vec<GeneralNameRef<'a>>)
        ensures
            name_views(names@) == self@,
            self@.no_duplicates(),
    {
        proof {
            use_type_invariant(self);
        }
        &self.names
    }

    /// A copy of the set.
    pub fn copy(&self) -> (names: Names<'a>)
        ensures
            names@ == self@,
    {
        proof {
            use_type_invariant(self);
        }
        let mut names: Vec<GeneralNameRef<'a>> = Vec::new();
        let mut i: usize = 0;
        while i < self.names.len()
            invariant
                i <= self.names@.len(),
                names@.len() == i,
                forall|j: int| 0 <= j < i ==> names@[j]@ == self.names@[j]@,
            decreases self.names@.len() - i,
        {
            names.push(self.names[i].copy());
            i += 1;
        }
        assert(name_views(names@) =~= name_views(self.names@));
        Names { names }
    }

    /// Whether two sets hold the same names in the same order.
    pub fn same(&self, other: &Names<'_>) -> (same: bool)
        ensures
            same == (self@ == other@),
    {
        if self.names.len() != other.names.len() {
            assert(self@.len() != other@.len());
            return false;
        }
        let mut i: usize = 0;
        while i < self.names.len()
            invariant
                self.names@.len() == other.names@.len(),
                i <= self.names@.len(),
                forall|j: int| 0 <= j < i ==> self@[j] == other@[j],
            decreases self.names@.len() - i,
        {
            if !self.names[i].same(&other.names[i]) {
                assert(self@[i as int] != other@[i as int]);
                return false;
            }
            i += 1;
        }
        assert(self@ =~= other@);
        true
    }
}

impl<'a> Clone for Names<'a> {
    fn clone(&self) -> (names: Names<'a>)
        ensures
            names@ == self@,
    {
        self.copy()
    }
}

impl<'a> Default for Names<'a> {
    fn default() -> (names: Names<'a>)
        ensures
            names@ == Seq::<GeneralName>::empty(),
    {
        Names::new()
    }
}

impl<'a> PartialEq for Names<'a> {
    fn eq(&self, other: &Names<'a>) -> (same: bool) {
        self.same(other)
    }
}

impl<'a> vstd::std_specs::cmp::PartialEqSpecImpl for Names<'a> {
    open spec fn obeys_eq_spec() -> bool {
        true
    }

    open spec fn eq_spec(&self, other: &Names<'a>) -> bool {
        self@ == other@
    }
}

impl<'a> Eq for Names<'a> {

}

} // verus!
