use vstd::prelude::*;
use crate::lending_iter::{advanced, LendingIter};

verus! {

/// Shows each item to a callback and gives it on unchanged.
pub struct Inspect<I, F> {
    pub iter: I,
    pub fun: F,
}

impl<I, F> LendingIter for Inspect<I, F> where I: LendingIter, F: Fn(&I::Item) {
    type Item = I::Item;

    open spec fn wf(&self) -> bool {
        &&& self.iter.wf()
        &&& forall|k: nat| (#[trigger] self.iter.at(k)) matches Some(a) ==> call_requires(self.fun, (&a,))
    }

    open spec fn at(&self, k: nat) -> Option<I::Item> {
        self.iter.at(k)
    }

    fn next(&mut self) -> (item: Option<I::Item>)
        ensures
            final(self).fun == old(self).fun,
            advanced(old(self).iter, final(self).iter),
    {
        match self.iter.next() {
            Some(a) => {
                (self.fun)(&a);
                Some(a)
            },
            None => None,
        }
    }
}

} // verus!
