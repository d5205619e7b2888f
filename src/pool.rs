//! The pool of fragments awaiting inclusion, handed out oldest first.
use crate::fragment::Fragment;
use vstd::prelude::*;

verus! {

/// Fragments in order of admission; the front is the oldest.
pub struct Pool {
    fragments: Vec<Fragment>,
}

impl View for Pool {
    type V = Seq<Fragment>;

    closed spec fn view(&self) -> Seq<Fragment> {
        self.fragments@
    }
}

impl Pool {
    pub fn new() -> (r: Pool)
        ensures
            r@ == Seq::<Fragment>::empty(),
    {
        Pool { fragments: Vec::new() }
    }

    /// Admits a fragment: it becomes the newest.
    pub fn insert(&mut self, fragment: Fragment)
        ensures
            final(self)@ == old(self)@.push(fragment),
    {
        self.fragments.push(fragment);
    }

    /// Removes and returns the oldest fragment, or nothing when empty.
    pub fn remove_oldest(&mut self) -> (r: Option<Fragment>)
        ensures
            old(self)@.len() == 0 ==> r is None && final(self)@ == old(self)@,
            old(self)@.len() > 0 ==> r == Some(old(self)@[0]) && final(self)@
                == old(self)@.drop_first(),
    {
        if self.fragments.len() == 0 {
            None
        } else {
            Some(self.fragments.remove(0))
        }
    }

    pub fn len(&self) -> (r: usize)
        ensures
            r == self@.len(),
    {
        self.fragments.len()
    }

    /// The fragment at a position, counted from the oldest.
    pub fn get(&self, index: usize) -> (r: Option<&Fragment>)
        ensures
            index < self@.len() ==> r == Some(&self@[index as int]),
            index >= self@.len() ==> r is None,
    {
        if index < self.fragments.len() {
            Some(&self.fragments[index])
        } else {
            None
        }
    }
}

} // verus!
