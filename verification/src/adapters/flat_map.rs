use vstd::prelude::*;
use crate::fn_traits::IterMapper;
use crate::lending_iter::{lemma_script_at, lemma_script_step, script, script_or_silent, LendingIter};
use crate::script::{
    always_halts, is_least, least, lemma_always_halts, lemma_least_is, lemma_shift_shift, lemma_stop,
    shift, stop, stops, Script,
};

verus! {

/// Whether the inner sequence with script `g(a)` has an item at once.
pub open spec fn starts<A, U>(g: spec_fn(A) -> Script<U>) -> spec_fn(A) -> bool {
    |a: A| g(a)(0) is Some
}

/// What one call gives back: the current inner sequence `c` is drained
/// first; then outer items are pulled, each making a new inner sequence,
/// until one has an item or the outer sequence reports exhaustion.
pub open spec fn flat_out<A, U>(s: Script<A>, c: Script<U>, g: spec_fn(A) -> Script<U>) -> Option<U> {
    if c(0) is Some {
        c(0)
    } else {
        match s(stop(s, starts(g))) {
            None => None,
            Some(a) => g(a)(0),
        }
    }
}

/// The outer script that one call leaves.
pub open spec fn flat_outer<A, U>(s: Script<A>, c: Script<U>, g: spec_fn(A) -> Script<U>) -> Script<A> {
    if c(0) is Some {
        s
    } else {
        shift(s, stop(s, starts(g)) + 1)
    }
}

/// The script of the current inner sequence that one call leaves.
pub open spec fn flat_inner<A, U>(s: Script<A>, c: Script<U>, g: spec_fn(A) -> Script<U>) -> Script<U> {
    if c(0) is Some {
        shift(c, 1)
    } else {
        let m = stop(s, starts(g));
        match s(m) {
            Some(a) => shift(g(a), 1),
            None => if m == 0 {
                shift(c, 1)
            } else {
                shift(g(s((m - 1) as nat)->0), 1)
            },
        }
    }
}

/// The script of a flattening sequence with outer script `s`, current inner
/// script `c` and inner sequences made by `g`.
pub open spec fn flat_at<A, U>(s: Script<A>, c: Script<U>, g: spec_fn(A) -> Script<U>, k: nat) -> Option<U>
    decreases k,
{
    if k == 0 {
        flat_out(s, c, g)
    } else {
        flat_at(flat_outer(s, c, g), flat_inner(s, c, g), g, (k - 1) as nat)
    }
}

/// The scripts of the inner sequences that `f` makes.
pub open spec fn maker<A, J: LendingIter, F: IterMapper<A, Output = J>>(f: F) -> spec_fn(A) -> Script<
    J::Item,
> {
    |a: A| f.apply(a)
}

/// Every future call on these parts may be made.
pub open spec fn flat_wf<I: LendingIter, J: LendingIter, F: IterMapper<I::Item, Output = J>>(
    iter: I,
    curr: Option<J>,
    fun: F,
) -> bool {
    &&& iter.wf()
    &&& curr matches Some(j) ==> j.wf()
    &&& forall|k: nat| (#[trigger] iter.at(k)) matches Some(a) ==> fun.accepts(a)
    &&& always_halts(script(iter), starts(maker(fun)))
}

/// One call of a flattening sequence, on its parts.
pub(crate) fn drain<I: LendingIter, J: LendingIter, F: IterMapper<I::Item, Output = J>>(
    iter: &mut I,
    curr: &mut Option<J>,
    fun: &mut F,
) -> (item: Option<J::Item>)
    requires
        flat_wf(*old(iter), *old(curr), *old(fun)),
    ensures
        flat_wf(*final(iter), *final(curr), *final(fun)),
        *final(fun) == *old(fun),
        item == flat_out(script(*old(iter)), script_or_silent(*old(curr)), maker(*old(fun))),
        script(*final(iter)) == flat_outer(script(*old(iter)), script_or_silent(*old(curr)), maker(*old(fun))),
        script_or_silent(*final(curr)) == flat_inner(
            script(*old(iter)),
            script_or_silent(*old(curr)),
            maker(*old(fun)),
        ),
{
    let ghost s0 = script(*iter);
    let ghost c0 = script_or_silent(*curr);
    let ghost g = maker(*fun);
    let ghost q = stops(s0, starts(g));
    let ghost mut i: nat = 0;
    proof {
        lemma_always_halts(s0, starts(g), 0);
        lemma_stop(s0, starts(g));
        lemma_shift_shift(s0, 0, 0);
    }
    loop
        invariant
            iter.wf(),
            (*curr) matches Some(j) ==> j.wf(),
            *fun == *old(fun),
            g == maker(*fun),
            s0 == script(*old(iter)),
            c0 == script_or_silent(*old(curr)),
            q == stops(s0, starts(g)),
            forall|k: nat| (#[trigger] s0(k)) matches Some(a) ==> fun.accepts(a),
            always_halts(s0, starts(g)),
            is_least(q, least(q)),
            script(*iter) == shift(s0, i),
            i <= least(q) + 1,
            forall|j: nat| j + 1 < i ==> !#[trigger] q(j),
            i == 0 ==> script_or_silent(*curr) == c0,
            i > 0 ==> c0(0) is None && s0((i - 1) as nat) is Some && script_or_silent(*curr) == g(
                s0((i - 1) as nat)->0,
            ),
        decreases least(q) + 1 - i,
    {
        let ghost c = script_or_silent(*curr);
        let polled = match curr.as_mut() {
            Some(j) => j.next(),
            None => None,
        };
        proof {
            assert(polled == c(0));
            assert(script_or_silent(*curr) =~= shift(c, 1));
        }
        match polled {
            Some(v) => {
                proof {
                    if i > 0 {
                        assert(q((i - 1) as nat));
                        assert(is_least(q, (i - 1) as nat));
                        lemma_least_is(q, (i - 1) as nat);
                    }
                    lemma_always_halts(s0, starts(g), i);
                    lemma_script_at(*iter, s0, i);
                }
                return Some(v);
            },
            None => {
                proof {
                    if i > 0 {
                        assert(!q((i - 1) as nat));
                    }
                    assert(forall|j: nat| j < i ==> !#[trigger] q(j));
                    if least(q) < i {
                        assert(!q(least(q)));
                    }
                }
                let ghost before = *iter;
                match iter.next() {
                    Some(a) => {
                        proof {
                            lemma_script_at(before, s0, i);
                            lemma_script_step(before, *iter);
                            lemma_shift_shift(s0, i, 1);
                        }
                        let made = fun.call(a);
                        proof {
                            assert(script(made) == g(a));
                        }
                        *curr = Some(made);
                        proof {
                            i = i + 1;
                        }
                    },
                    None => {
                        proof {
                            lemma_script_at(before, s0, i);
                            lemma_script_step(before, *iter);
                            lemma_shift_shift(s0, i, 1);
                            assert(q(i));
                            assert(is_least(q, i));
                            lemma_least_is(q, i);
                            lemma_always_halts(s0, starts(g), i + 1);
                            lemma_script_at(*iter, s0, i + 1);
                        }
                        return None;
                    },
                }
            },
        }
    }
}

/// Maps each item to a sequence and gives the items of those sequences, one
/// sequence after the other.
pub struct FlatMap<I, F, J> {
    pub iter: I,
    pub fun: F,
    pub curr: Option<J>,
}

impl<I, F, J> LendingIter for FlatMap<I, F, J> where
    I: LendingIter,
    J: LendingIter,
    F: IterMapper<I::Item, Output = J>,
 {
    type Item = J::Item;

    open spec fn wf(&self) -> bool {
        flat_wf(self.iter, self.curr, self.fun)
    }

    open spec fn at(&self, k: nat) -> Option<J::Item> {
        flat_at(script(self.iter), script_or_silent(self.curr), maker(self.fun), k)
    }

    fn next(&mut self) -> (item: Option<J::Item>)
        ensures
            final(self).fun == old(self).fun,
            script(final(self).iter) == flat_outer(
                script(old(self).iter),
                script_or_silent(old(self).curr),
                maker(old(self).fun),
            ),
            script_or_silent(final(self).curr) == flat_inner(
                script(old(self).iter),
                script_or_silent(old(self).curr),
                maker(old(self).fun),
            ),
    {
        drain(&mut self.iter, &mut self.curr, &mut self.fun)
    }
}

} // verus!
