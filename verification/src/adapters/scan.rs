use vstd::prelude::*;
use crate::fn_traits::Scanner;
use crate::lending_iter::{advanced, lemma_script_step, script, LendingIter};
use crate::script::{shift, Script};

verus! {

/// The accumulator that one call leaves.
pub open spec fn scan_left<A, S, F: Scanner<S, A>>(s: Script<A>, f: F, state: S) -> S {
    match s(0) {
        Some(a) => f.apply(state, a).0,
        None => state,
    }
}

/// The accumulator before the `k`-th call from now.
pub open spec fn scan_state<A, S, F: Scanner<S, A>>(s: Script<A>, f: F, state: S, k: nat) -> S
    decreases k,
{
    if k == 0 {
        state
    } else {
        scan_state(shift(s, 1), f, scan_left(s, f, state), (k - 1) as nat)
    }
}

/// The script of a fold that shows its steps: each item is folded into the
/// accumulator, and the call gives back what the fold step gave.
pub open spec fn scan_at<A, S, F: Scanner<S, A>>(s: Script<A>, f: F, state: S, k: nat) -> Option<
    F::Output,
>
    decreases k,
{
    if k == 0 {
        match s(0) {
            Some(a) => f.apply(state, a).1,
            None => None,
        }
    } else {
        scan_at(shift(s, 1), f, scan_left(s, f, state), (k - 1) as nat)
    }
}

/// The fold step accepts what every future call hands it.
pub open spec fn scan_accepts<A, S, F: Scanner<S, A>>(s: Script<A>, f: F, state: S) -> bool {
    forall|k: nat| (#[trigger] s(k)) matches Some(a) ==> f.accepts(scan_state(s, f, state, k), a)
}

/// A fold step that accepts every future call still does so after one call.
pub proof fn lemma_scan_accepts<A, S, F: Scanner<S, A>>(s: Script<A>, f: F, state: S)
    requires
        scan_accepts(s, f, state),
    ensures
        scan_accepts(shift(s, 1), f, scan_left(s, f, state)),
        s(0) matches Some(a) ==> f.accepts(state, a),
{
    assert forall|k: nat| (#[trigger] shift(s, 1)(k)) is Some implies f.accepts(
        scan_state(shift(s, 1), f, scan_left(s, f, state), k),
        shift(s, 1)(k)->0,
    ) by {
        assert(s(k + 1) is Some);
        assert(scan_state(s, f, state, k + 1) == scan_state(
            shift(s, 1),
            f,
            scan_left(s, f, state),
            k,
        ));
    }
    if s(0) is Some {
        assert(scan_state(s, f, state, 0) == state);
    }
}

/// Folds the items into an accumulator and gives what each fold step gives.
pub struct Scan<I, S, F> {
    pub iter: I,
    pub state: S,
    pub scan: F,
}

impl<I, S, F> LendingIter for Scan<I, S, F> where I: LendingIter, F: Scanner<S, I::Item> {
    type Item = F::Output;

    open spec fn wf(&self) -> bool {
        &&& self.iter.wf()
        &&& scan_accepts(script(self.iter), self.scan, self.state)
    }

    open spec fn at(&self, k: nat) -> Option<F::Output> {
        scan_at(script(self.iter), self.scan, self.state, k)
    }

    fn next(&mut self) -> (item: Option<F::Output>)
        ensures
            final(self).scan == old(self).scan,
            advanced(old(self).iter, final(self).iter),
            final(self).state == scan_left(script(old(self).iter), old(self).scan, old(self).state),
    {
        let ghost before = self.iter;
        proof {
            lemma_scan_accepts(script(before), self.scan, self.state);
        }
        let pulled = self.iter.next();
        proof {
            lemma_script_step(before, self.iter);
        }
        match pulled {
            Some(a) => self.scan.call(&mut self.state, a),
            None => None,
        }
    }
}

} // verus!
