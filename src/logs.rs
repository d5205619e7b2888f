//! The status log: the current status of each fragment identity.
use crate::fragment::{FragmentId, FragmentStatus, StatusView};
use std::collections::HashMap;
use vstd::prelude::*;

verus! {

broadcast use vstd::std_specs::hash::group_hash_axioms;

/// Maps a fragment identity to its latest status.
pub struct Logs {
    statuses: HashMap<u64, FragmentStatus>,
}

impl View for Logs {
    type V = Map<u64, StatusView>;

    closed spec fn view(&self) -> Map<u64, StatusView> {
        self.statuses@.map_values(|s: FragmentStatus| s@)
    }
}

impl Logs {
    pub fn new() -> (r: Logs)
        ensures
            r@ == Map::<u64, StatusView>::empty(),
    {
        let r = Logs { statuses: HashMap::new() };
        assert(r@ =~= Map::<u64, StatusView>::empty());
        r
    }

    /// Sets the status of an identity, whether or not it was known: the
    /// latest write wins.
    pub fn modify(&mut self, id: &FragmentId, status: FragmentStatus)
        ensures
            final(self)@ == old(self)@.insert(id.value, status@),
    {
        let ghost v = status@;
        self.statuses.insert(id.value, status);
        assert(self@ =~= old(self)@.insert(id.value, v));
    }

    /// The status recorded for an identity, if any.
    pub fn get(&self, id: &FragmentId) -> (r: Option<&FragmentStatus>)
        ensures
            match r {
                Some(s) => self@.contains_key(id.value) && s@ == self@[id.value],
                None => !self@.contains_key(id.value),
            },
    {
        self.statuses.get(&id.value)
    }

    /// The number of identities with a status.
    pub fn len(&self) -> (r: usize)
        ensures
            r == self@.len(),
    {
        assert(self@.dom() =~= self.statuses@.dom());
        self.statuses.len()
    }
}

/// Two writes for one identity leave only the second observable.
pub proof fn lemma_modify_last_write_wins(
    logs: Logs,
    id: FragmentId,
    first: FragmentStatus,
    second: FragmentStatus,
)
    ensures
        logs@.insert(id.value, first@).insert(id.value, second@) == logs@.insert(
            id.value,
            second@,
        ),
{
    assert(logs@.insert(id.value, first@).insert(id.value, second@) =~= logs@.insert(
        id.value,
        second@,
    ));
}

} // verus!
