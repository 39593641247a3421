//! The set of names already given to columns.
//!
//! The set is polars' hash set of strings. Its contents are known to the
//! proofs only through `names_in` and the contracts of the three methods
//! below, which are stated from the set's source and not proved.

use polars::prelude::InitHashMaps;
use polars::prelude::PlHashSet;
use vstd::prelude::*;

verus! {

/// A hash set of column names.
#[verifier::external_body]
pub struct UsedNames {
    set: PlHashSet<String>,
}

/// The names that the set holds, each as its sequence of characters.
pub uninterp spec fn names_in(used: UsedNames) -> Set<Seq<char>>;

impl UsedNames {
    /// Calls `InitHashMaps::new` of `PlHashSet`, which makes a hash set with
    /// capacity zero and a default hasher: the new set holds nothing.
    #[verifier::external_body]
    pub(crate) fn new() -> (used: UsedNames)
        ensures
            names_in(used) == Set::<Seq<char>>::empty(),
    {
        UsedNames { set: PlHashSet::new() }
    }

    /// Calls `HashSet::contains`, which returns `true` exactly when the set
    /// holds a value equal to the one given. Two strings are equal when
    /// their characters are.
    #[verifier::external_body]
    pub(crate) fn contains(&self, name: &String) -> (found: bool)
        ensures
            found == names_in(*self).contains(name@),
    {
        self.set.contains(name)
    }

    /// Calls `HashSet::insert`, which adds the value to the set and returns
    /// `true` if the set did not hold it before, `false` if it did; what
    /// else the set holds stays.
    #[verifier::external_body]
    pub(crate) fn insert(&mut self, name: String) -> (fresh: bool)
        ensures
            names_in(*final(self)) == names_in(*old(self)).insert(name@),
            fresh == !names_in(*old(self)).contains(name@),
    {
        self.set.insert(name)
    }
}

} // verus!
