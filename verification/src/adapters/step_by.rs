use vstd::prelude::*;
use crate::lending_iter::{lemma_script_step, script, LendingIter, LendingIterExt};
use crate::script::{reach, shift, Script};

verus! {

/// The script of a stepping sequence: the first call gives what the next
/// call of `s` gives; every later call drops `step - 1` items and gives
/// what the call behind them gives, or gives up at the first report of
/// exhaustion.
pub open spec fn step_at<T>(s: Script<T>, step: nat, first: bool, k: nat) -> Option<T>
    decreases k,
{
    let j = if first {
        0
    } else {
        reach(s, (step - 1) as nat)
    };
    if k == 0 {
        s(j)
    } else {
        step_at(shift(s, j + 1), step, false, (k - 1) as nat)
    }
}

/// Gives the first item and then every `step`-th item behind it.
pub struct StepBy<I> {
    pub iter: I,
    pub step: usize,
    pub first: bool,
}

impl<I: LendingIter> LendingIter for StepBy<I> {
    type Item = I::Item;

    open spec fn wf(&self) -> bool {
        &&& self.iter.wf()
        &&& self.step > 0
    }

    open spec fn at(&self, k: nat) -> Option<I::Item> {
        step_at(script(self.iter), self.step as nat, self.first, k)
    }

    fn next(&mut self) -> (item: Option<I::Item>)
        ensures
            !final(self).first,
            final(self).step == old(self).step,
            script(final(self).iter) == shift(
                script(old(self).iter),
                if old(self).first {
                    1
                } else {
                    reach(script(old(self).iter), (old(self).step - 1) as nat) + 1
                },
            ),
    {
        if self.first {
            self.first = false;
            let ghost before = self.iter;
            let item = self.iter.next();
            proof {
                lemma_script_step(before, self.iter);
            }
            item
        } else {
            self.iter.nth(self.step - 1)
        }
    }
}

} // verus!
