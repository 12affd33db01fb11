use vstd::prelude::*;
use crate::lending_iter::LendingIter;

verus! {

/// A generator: from a state to the state that it leaves and an item or
/// nothing. It is a pure function of the state.
pub trait LendingIterNext<S>: Sized {
    type Output;

    /// The states that `next` may be given.
    spec fn accepts(&self, state: S) -> bool;

    /// The state that `next` leaves, and what it gives back.
    spec fn apply(&self, state: S) -> (S, Option<Self::Output>);

    fn next(&mut self, state: &mut S) -> (item: Option<Self::Output>)
        requires
            old(self).accepts(*old(state)),
        ensures
            (*final(state), item) == old(self).apply(*old(state)),
            *final(self) == *old(self),
    ;
}

/// A closure is a generator when it maps the state to the next state and
/// the item.
impl<S, R, F: Fn(&S) -> (S, Option<R>)> LendingIterNext<S> for F {
    type Output = R;

    open spec fn accepts(&self, state: S) -> bool {
        &&& call_requires(*self, (&state,))
        &&& forall|r1: (S, Option<R>), r2: (S, Option<R>)|
            call_ensures(*self, (&state,), r1) && call_ensures(*self, (&state,), r2) ==> r1 == r2
    }

    open spec fn apply(&self, state: S) -> (S, Option<R>) {
        choose|r: (S, Option<R>)| call_ensures(*self, (&state,), r)
    }

    fn next(&mut self, state: &mut S) -> (item: Option<R>) {
        let (left, item) = (*self)(&*state);
        *state = left;
        item
    }
}

/// The state before the `k`-th call from now.
pub open spec fn gen_state<S, F: LendingIterNext<S>>(f: F, state: S, k: nat) -> S
    decreases k,
{
    if k == 0 {
        state
    } else {
        gen_state(f, f.apply(state).0, (k - 1) as nat)
    }
}

/// The script of a generated sequence: each call hands the state to the
/// generator and gives back what the generator gives, whatever earlier
/// calls gave.
pub open spec fn gen_at<S, F: LendingIterNext<S>>(f: F, state: S, k: nat) -> Option<F::Output>
    decreases k,
{
    if k == 0 {
        f.apply(state).1
    } else {
        gen_at(f, f.apply(state).0, (k - 1) as nat)
    }
}

/// The generator accepts the state of every future call.
pub open spec fn gen_accepts<S, F: LendingIterNext<S>>(f: F, state: S) -> bool {
    forall|k: nat| f.accepts(#[trigger] gen_state(f, state, k))
}

/// A generator that accepts every future state still does so after one call.
pub proof fn lemma_gen_accepts<S, F: LendingIterNext<S>>(f: F, state: S)
    requires
        gen_accepts(f, state),
    ensures
        f.accepts(state),
        gen_accepts(f, f.apply(state).0),
{
    assert(gen_state(f, state, 0) == state);
    assert forall|k: nat| f.accepts(#[trigger] gen_state(f, f.apply(state).0, k)) by {
        assert(gen_state(f, state, k + 1) == gen_state(f, f.apply(state).0, k));
    }
}

/// A sequence that a generator makes out of a state.
pub struct FromFn<S, F> {
    pub state: S,
    pub fun: F,
}

impl<S, F: LendingIterNext<S>> LendingIter for FromFn<S, F> {
    type Item = F::Output;

    open spec fn wf(&self) -> bool {
        gen_accepts(self.fun, self.state)
    }

    open spec fn at(&self, k: nat) -> Option<F::Output> {
        gen_at(self.fun, self.state, k)
    }

    fn next(&mut self) -> (item: Option<F::Output>)
        ensures
            final(self).fun == old(self).fun,
            final(self).state == old(self).fun.apply(old(self).state).0,
    {
        proof {
            lemma_gen_accepts(self.fun, self.state);
        }
        self.fun.next(&mut self.state)
    }
}

/// The sequence that `fun` generates from `state`. The generator is called
/// at every call, also behind a call that gave nothing.
pub fn from_fn<S, F: LendingIterNext<S>>(state: S, fun: F) -> (made: FromFn<S, F>)
    ensures
        made == (FromFn { state, fun }),
{
    FromFn { state, fun }
}

} // verus!
