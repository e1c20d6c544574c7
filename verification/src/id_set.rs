//! A set of body identities, kept in the engine's stable hash set.

use vstd::prelude::*;

verus! {

/// A set of body identities. It holds a `bevy::utils::StableHashSet<u64>`,
/// which the verifier does not look into: what is known of an `IdSet` is what
/// the functions of this module state of `members`.
#[verifier::external_body]
pub struct IdSet {
    inner: bevy::utils::StableHashSet<u64>,
}

/// The identities that the set holds.
pub uninterp spec fn members(set: IdSet) -> Set<u64>;

impl IdSet {
    /// Calls `Default::default` of `StableHashSet`, which makes a set with the
    /// fixed hasher and without any value in it.
    #[verifier::external_body]
    pub(crate) fn empty() -> (set: IdSet)
        ensures
            members(set) == Set::<u64>::empty(),
    {
        IdSet { inner: bevy::utils::StableHashSet::default() }
    }

    /// Calls `HashSet::insert`, which adds the value to the set and returns
    /// whether the set did not hold it before.
    #[verifier::external_body]
    pub(crate) fn insert(&mut self, id: u64) -> (fresh: bool)
        ensures
            members(*final(self)) == members(*old(self)).insert(id),
            fresh == !members(*old(self)).contains(id),
    {
        self.inner.insert(id)
    }

    /// Calls `HashSet::contains`, which returns whether the set holds the value.
    #[verifier::external_body]
    pub(crate) fn contains(&self, id: u64) -> (found: bool)
        ensures
            found == members(*self).contains(id),
    {
        self.inner.contains(&id)
    }

    /// The set of the identities in `ids`.
    pub fn collect(ids: &Vec<u64>) -> (set: IdSet)
        ensures
            members(set) == ids@.to_set(),
    {
        let mut set = IdSet::empty();
        let mut i: usize = 0;
        while i < ids.len()
            invariant
                i <= ids.len(),
                members(set) == ids@.take(i as int).to_set(),
            decreases ids.len() - i,
        {
            set.insert(ids[i]);
            proof {
                assert(ids@.take(i + 1) == ids@.take(i as int).push(ids@[i as int]));
                ids@.take(i as int).lemma_push_to_set_commute(ids@[i as int]);
            }
            i += 1;
        }
        assert(ids@.take(ids.len() as int) == ids@);
        set
    }
}

} // verus!
