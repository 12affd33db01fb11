use vstd::prelude::*;
use crate::fn_traits::{answers, Predicate};
use crate::lending_iter::{lemma_script_at, lemma_script_step, script, LendingIter};
use crate::script::{
    always_halts, halts, lemma_always_halts, lemma_search_step, lemma_shift_shift, shift, stop,
    stops, Script,
};

verus! {

/// The script of the kept items: each call ends at the first call of `s`
/// that reports exhaustion or gives an item that `keep` accepts, and gives
/// back what that call gave.
pub open spec fn filter_at<T>(s: Script<T>, keep: spec_fn(T) -> bool, k: nat) -> Option<T>
    decreases k,
{
    if k == 0 {
        s(stop(s, keep))
    } else {
        filter_at(shift(s, stop(s, keep) + 1), keep, (k - 1) as nat)
    }
}

/// The script of the kept items, as one value.
pub open spec fn filtered<T>(s: Script<T>, keep: spec_fn(T) -> bool) -> Script<T> {
    |k: nat| filter_at(s, keep, k)
}

/// Pulls from `iter` until a call reports exhaustion or gives an item for
/// which `pred` answers `want`, and gives back what that call gave.
pub(crate) fn seek<I: LendingIter, P: Predicate<I::Item>>(iter: &mut I, pred: &mut P, want: bool) -> (item:
    Option<I::Item>)
    requires
        old(iter).wf(),
        halts(script(*old(iter)), answers(*old(pred), want)),
        forall|k: nat| (#[trigger] old(iter).at(k)) matches Some(a) ==> old(pred).accepts(a),
    ensures
        final(iter).wf(),
        *final(pred) == *old(pred),
        item == old(iter).at(stop(script(*old(iter)), answers(*old(pred), want))),
        script(*final(iter)) == shift(
            script(*old(iter)),
            stop(script(*old(iter)), answers(*old(pred), want)) + 1,
        ),
{
    let ghost s0 = script(*iter);
    let ghost keep = answers(*pred, want);
    let ghost mut i: nat = 0;
    proof {
        lemma_shift_shift(s0, 0, 0);
    }
    loop
        invariant
            iter.wf(),
            *pred == *old(pred),
            s0 == script(*old(iter)),
            keep == answers(*pred, want),
            halts(s0, keep),
            forall|k: nat| (#[trigger] s0(k)) matches Some(a) ==> pred.accepts(a),
            script(*iter) == shift(s0, i),
            forall|j: nat| j < i ==> !#[trigger] stops(s0, keep)(j),
            i <= stop(s0, keep),
        decreases stop(s0, keep) - i,
    {
        let ghost before = *iter;
        let pulled = iter.next();
        proof {
            lemma_script_at(before, s0, i);
            lemma_script_step(before, *iter);
            lemma_shift_shift(s0, i, 1);
            lemma_search_step(s0, keep, i);
            assert(pulled == s0(i));
        }
        match pulled {
            None => {
                proof {
                    assert(stops(s0, keep)(i));
                }
                return None;
            },
            Some(a) => {
                let answer = pred.call(&a);
                proof {
                    assert(stops(s0, keep)(i) == (answer == want));
                }
                if answer == want {
                    return Some(a);
                }
            },
        }
        proof {
            i = i + 1;
        }
    }
}

/// Gives the items that pass a test.
pub struct Filter<I, F> {
    pub iter: I,
    pub filter: F,
}

impl<I, F> LendingIter for Filter<I, F> where I: LendingIter, F: Predicate<I::Item> {
    type Item = I::Item;

    open spec fn wf(&self) -> bool {
        &&& self.iter.wf()
        &&& forall|k: nat| (#[trigger] self.iter.at(k)) matches Some(a) ==> self.filter.accepts(a)
        &&& always_halts(script(self.iter), answers(self.filter, true))
    }

    open spec fn at(&self, k: nat) -> Option<I::Item> {
        filter_at(script(self.iter), answers(self.filter, true), k)
    }

    fn next(&mut self) -> (item: Option<I::Item>)
        ensures
            final(self).filter == old(self).filter,
            script(final(self).iter) == shift(
                script(old(self).iter),
                stop(script(old(self).iter), answers(old(self).filter, true)) + 1,
            ),
    {
        let ghost s0 = script(self.iter);
        let ghost keep = answers(self.filter, true);
        proof {
            lemma_always_halts(s0, keep, 0);
            lemma_always_halts(s0, keep, stop(s0, keep) + 1);
        }
        let item = seek(&mut self.iter, &mut self.filter, true);
        proof {
            lemma_script_at(self.iter, s0, stop(s0, keep) + 1);
        }
        item
    }
}

} // verus!
