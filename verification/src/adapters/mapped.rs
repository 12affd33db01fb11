use vstd::prelude::*;
use crate::fn_traits::Mapper;
use crate::lending_iter::{advanced, LendingIter};

verus! {

/// Gives what a transformation makes of each item.
pub struct Mapped<I, F> {
    pub iter: I,
    pub fun: F,
}

impl<I, F> LendingIter for Mapped<I, F> where I: LendingIter, F: Mapper<I::Item> {
    type Item = F::Output;

    open spec fn wf(&self) -> bool {
        &&& self.iter.wf()
        &&& forall|k: nat| (#[trigger] self.iter.at(k)) matches Some(a) ==> self.fun.accepts(a)
    }

    open spec fn at(&self, k: nat) -> Option<F::Output> {
        match self.iter.at(k) {
            Some(a) => Some(self.fun.apply(a)),
            None => None,
        }
    }

    fn next(&mut self) -> (item: Option<F::Output>)
        ensures
            final(self).fun == old(self).fun,
            advanced(old(self).iter, final(self).iter),
    {
        match self.iter.next() {
            Some(a) => Some(self.fun.call(a)),
            None => None,
        }
    }
}

} // verus!
