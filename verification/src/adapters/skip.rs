use vstd::prelude::*;
use crate::lending_iter::{lemma_script_at, lemma_script_step, script, LendingIter};
use crate::script::{lemma_reach_is, lemma_shift_shift, reach, shift, Script};

verus! {

/// The script of a sequence that still has `n` items to drop: a call pulls
/// until `n` items are dropped and gives back what the call behind them
/// gives, or gives up at the first report of exhaustion and keeps count of
/// the items that are still to drop.
pub open spec fn skip_at<T>(s: Script<T>, n: nat, k: nat) -> Option<T>
    decreases k,
{
    if k == 0 {
        s(reach(s, n))
    } else {
        skip_at(shift(s, reach(s, n) + 1), (n - reach(s, n)) as nat, (k - 1) as nat)
    }
}

/// Drops the first `n` items and gives the others.
pub struct Skip<I> {
    pub iter: I,
    pub n: usize,
}

impl<I: LendingIter> LendingIter for Skip<I> {
    type Item = I::Item;

    open spec fn wf(&self) -> bool {
        self.iter.wf()
    }

    open spec fn at(&self, k: nat) -> Option<I::Item> {
        skip_at(script(self.iter), self.n as nat, k)
    }

    fn next(&mut self) -> (item: Option<I::Item>)
        ensures
            final(self).n == old(self).n - reach(script(old(self).iter), old(self).n as nat),
            script(final(self).iter) == shift(
                script(old(self).iter),
                reach(script(old(self).iter), old(self).n as nat) + 1,
            ),
    {
        let ghost s0 = script(self.iter);
        let ghost n0 = self.n as nat;
        let ghost mut i: nat = 0;
        proof {
            lemma_shift_shift(s0, 0, 0);
        }
        while self.n > 0
            invariant
                self.iter.wf(),
                s0 == script(old(self).iter),
                n0 == old(self).n,
                script(self.iter) == shift(s0, i),
                self.n + i == n0,
                forall|j: nat| j < i ==> (#[trigger] s0(j)) is Some,
            decreases self.n,
        {
            let ghost before = self.iter;
            let pulled = self.iter.next();
            proof {
                lemma_script_at(before, s0, i);
                lemma_script_step(before, self.iter);
                lemma_shift_shift(s0, i, 1);
            }
            match pulled {
                Some(_) => {
                    self.n -= 1;
                },
                None => {
                    proof {
                        lemma_reach_is(s0, n0, i);
                    }
                    return None;
                },
            }
            proof {
                i = i + 1;
            }
        }
        let ghost before = self.iter;
        let item = self.iter.next();
        proof {
            lemma_reach_is(s0, n0, i);
            lemma_script_at(before, s0, i);
            lemma_script_step(before, self.iter);
            lemma_shift_shift(s0, i, 1);
        }
        item
    }
}

} // verus!
