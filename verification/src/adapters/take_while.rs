use vstd::prelude::*;
use crate::fn_traits::Predicate;
use crate::lending_iter::{advanced, LendingIter};

verus! {

/// Gives the items that pass a test and reports exhaustion in place of each
/// item that fails it. Nothing is remembered from one call to the next.
pub struct TakeWhile<I, F> {
    pub iter: I,
    pub pred: F,
}

impl<I, F> LendingIter for TakeWhile<I, F> where I: LendingIter, F: Predicate<I::Item> {
    type Item = I::Item;

    open spec fn wf(&self) -> bool {
        &&& self.iter.wf()
        &&& forall|k: nat| (#[trigger] self.iter.at(k)) matches Some(a) ==> self.pred.accepts(a)
    }

    open spec fn at(&self, k: nat) -> Option<I::Item> {
        match self.iter.at(k) {
            Some(a) => if self.pred.apply(a) {
                Some(a)
            } else {
                None
            },
            None => None,
        }
    }

    fn next(&mut self) -> (item: Option<I::Item>)
        ensures
            final(self).pred == old(self).pred,
            advanced(old(self).iter, final(self).iter),
    {
        match self.iter.next() {
            Some(a) => {
                if self.pred.call(&a) {
                    Some(a)
                } else {
                    None
                }
            },
            None => None,
        }
    }
}

} // verus!
