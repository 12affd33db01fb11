use vstd::prelude::*;
use crate::adapters::filter::seek;
use crate::fn_traits::{answers, Predicate};
use crate::lending_iter::{advanced, lemma_script_at, script, LendingIter};
use crate::script::{halts, shift, stop};

verus! {

/// Drops items while a test passes, then gives every later item untested.
pub struct SkipWhile<I, F> {
    pub iter: I,
    pub pred: F,
    pub done: bool,
}

impl<I, F> LendingIter for SkipWhile<I, F> where I: LendingIter, F: Predicate<I::Item> {
    type Item = I::Item;

    open spec fn wf(&self) -> bool {
        &&& self.iter.wf()
        &&& !self.done ==> {
            &&& halts(script(self.iter), answers(self.pred, false))
            &&& forall|k: nat| (#[trigger] self.iter.at(k)) matches Some(a) ==> self.pred.accepts(a)
        }
    }

    open spec fn at(&self, k: nat) -> Option<I::Item> {
        if self.done {
            self.iter.at(k)
        } else {
            self.iter.at(stop(script(self.iter), answers(self.pred, false)) + k)
        }
    }

    fn next(&mut self) -> (item: Option<I::Item>)
        ensures
            final(self).done,
            final(self).pred == old(self).pred,
            old(self).done ==> advanced(old(self).iter, final(self).iter),
            !old(self).done ==> script(final(self).iter) == shift(
                script(old(self).iter),
                stop(script(old(self).iter), answers(old(self).pred, false)) + 1,
            ),
    {
        if self.done {
            return self.iter.next();
        }
        let ghost s0 = script(self.iter);
        let ghost j = stop(s0, answers(self.pred, false));
        let item = seek(&mut self.iter, &mut self.pred, false);
        self.done = true;
        proof {
            lemma_script_at(self.iter, s0, j + 1);
        }
        item
    }
}

} // verus!
