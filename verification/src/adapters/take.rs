use vstd::prelude::*;
use crate::lending_iter::{advanced, LendingIter};

verus! {

/// One call: with nothing left to give, nothing changes; otherwise one item
/// less is left to give and the wrapped sequence has made one call.
pub open spec fn take_step<I: LendingIter>(before: Take<I>, after: Take<I>) -> bool {
    if before.n == 0 {
        after == before
    } else {
        &&& after.n == before.n - 1
        &&& advanced(before.iter, after.iter)
    }
}

/// Gives at most `n` items and never pulls once they are spent.
pub struct Take<I> {
    pub iter: I,
    pub n: usize,
}

impl<I: LendingIter> LendingIter for Take<I> {
    type Item = I::Item;

    open spec fn wf(&self) -> bool {
        self.n > 0 ==> self.iter.wf()
    }

    open spec fn at(&self, k: nat) -> Option<I::Item> {
        if k < self.n {
            self.iter.at(k)
        } else {
            None
        }
    }

    fn next(&mut self) -> (item: Option<I::Item>)
        ensures
            take_step(*old(self), *final(self)),
    {
        if self.n == 0 {
            None
        } else {
            self.n -= 1;
            self.iter.next()
        }
    }
}

} // verus!
