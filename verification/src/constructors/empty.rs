use vstd::prelude::*;
use crate::lending_iter::LendingIter;
use core::marker::PhantomData;

verus! {

/// The sequence without items.
pub struct Empty<T> {
    pub phantom: PhantomData<T>,
}

impl<T> LendingIter for Empty<T> {
    type Item = T;

    open spec fn wf(&self) -> bool {
        true
    }

    open spec fn at(&self, k: nat) -> Option<T> {
        None
    }

    fn next(&mut self) -> (item: Option<T>) {
        None
    }
}

/// A sequence whose every call reports exhaustion.
pub fn empty<T>() -> (e: Empty<T>)
    ensures
        e.wf(),
        forall|k: nat| (#[trigger] e.at(k)) is None,
{
    Empty { phantom: PhantomData }
}

} // verus!
