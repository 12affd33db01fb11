//! The callbacks that adapters take.
//!
//! A callback is a pure function of its arguments: it has a precondition
//! (`accepts`) and one result for each accepted argument (`apply`), and a call
//! leaves the callback as it was. A type that implements one of these traits
//! says what `apply` is; a closure is a callback too, with whatever its
//! `ensures` lets through as its one result.

use vstd::prelude::*;
use crate::lending_iter::{script, LendingIter};
use crate::script::Script;

verus! {

/// A transformation of one item into one result.
pub trait Mapper<A>: Sized {
    type Output;

    /// The items that `call` may be given.
    spec fn accepts(&self, item: A) -> bool;

    /// What `call` gives back for `item`.
    spec fn apply(&self, item: A) -> Self::Output;

    fn call(&mut self, item: A) -> (out: Self::Output)
        requires
            old(self).accepts(item),
        ensures
            out == old(self).apply(item),
            *final(self) == *old(self),
    ;
}

/// A closure is a transformation where every call on an item gives the
/// same result.
impl<A, R, F: Fn(A) -> R> Mapper<A> for F {
    type Output = R;

    open spec fn accepts(&self, item: A) -> bool {
        &&& call_requires(*self, (item,))
        &&& forall|r1: R, r2: R|
            call_ensures(*self, (item,), r1) && call_ensures(*self, (item,), r2) ==> r1 == r2
    }

    open spec fn apply(&self, item: A) -> R {
        choose|r: R| call_ensures(*self, (item,), r)
    }

    fn call(&mut self, item: A) -> (out: R) {
        (*self)(item)
    }
}

/// The transformation that gives every item back as it is.
pub struct Identity;

impl<A> Mapper<A> for Identity {
    type Output = A;

    open spec fn accepts(&self, item: A) -> bool {
        true
    }

    open spec fn apply(&self, item: A) -> A {
        item
    }

    fn call(&mut self, item: A) -> (out: A) {
        item
    }
}

/// A transformation of one item into a sequence. What counts of the
/// sequence that it makes is its script.
pub trait IterMapper<A>: Sized {
    type Output: LendingIter;

    /// The items that `call` may be given.
    spec fn accepts(&self, item: A) -> bool;

    /// The script of the sequence that `call` makes of `item`.
    spec fn apply(&self, item: A) -> Script<<Self::Output as LendingIter>::Item>;

    fn call(&mut self, item: A) -> (made: Self::Output)
        requires
            old(self).accepts(item),
        ensures
            made.wf(),
            script(made) == old(self).apply(item),
            *final(self) == *old(self),
    ;
}

/// A closure makes sequences where every sequence that it makes of an item
/// is well-formed and has the same script.
impl<A, J: LendingIter, F: Fn(A) -> J> IterMapper<A> for F {
    type Output = J;

    open spec fn accepts(&self, item: A) -> bool {
        &&& call_requires(*self, (item,))
        &&& forall|r: J| call_ensures(*self, (item,), r) ==> r.wf()
        &&& forall|r1: J, r2: J|
            call_ensures(*self, (item,), r1) && call_ensures(*self, (item,), r2) ==> script(r1)
                == script(r2)
    }

    open spec fn apply(&self, item: A) -> Script<J::Item> {
        script(choose|r: J| call_ensures(*self, (item,), r))
    }

    fn call(&mut self, item: A) -> (made: J) {
        (*self)(item)
    }
}

/// A sequence of well-formed sequences maps to them as they are.
impl<J: LendingIter> IterMapper<J> for Identity {
    type Output = J;

    open spec fn accepts(&self, item: J) -> bool {
        item.wf()
    }

    open spec fn apply(&self, item: J) -> Script<J::Item> {
        script(item)
    }

    fn call(&mut self, item: J) -> (made: J) {
        item
    }
}

/// A transformation of one item into a result or nothing.
pub trait OptionMapper<A>: Sized {
    type Output;

    /// The items that `call` may be given.
    spec fn accepts(&self, item: A) -> bool;

    /// What `call` gives back for `item`.
    spec fn apply(&self, item: A) -> Option<Self::Output>;

    fn call(&mut self, item: A) -> (out: Option<Self::Output>)
        requires
            old(self).accepts(item),
        ensures
            out == old(self).apply(item),
            *final(self) == *old(self),
    ;
}

/// A closure is a partial transformation where every call on an item gives
/// the same outcome.
impl<A, R, F: Fn(A) -> Option<R>> OptionMapper<A> for F {
    type Output = R;

    open spec fn accepts(&self, item: A) -> bool {
        &&& call_requires(*self, (item,))
        &&& forall|r1: Option<R>, r2: Option<R>|
            call_ensures(*self, (item,), r1) && call_ensures(*self, (item,), r2) ==> r1 == r2
    }

    open spec fn apply(&self, item: A) -> Option<R> {
        choose|r: Option<R>| call_ensures(*self, (item,), r)
    }

    fn call(&mut self, item: A) -> (out: Option<R>) {
        (*self)(item)
    }
}

/// A fold step: from an accumulator and an item to the next accumulator and
/// a result or nothing.
pub trait Scanner<S, A>: Sized {
    type Output;

    /// The accumulators and items that `call` may be given.
    spec fn accepts(&self, state: S, item: A) -> bool;

    /// The accumulator that `call` leaves, and what it gives back.
    spec fn apply(&self, state: S, item: A) -> (S, Option<Self::Output>);

    fn call(&mut self, state: &mut S, item: A) -> (out: Option<Self::Output>)
        requires
            old(self).accepts(*old(state), item),
        ensures
            (*final(state), out) == old(self).apply(*old(state), item),
            *final(self) == *old(self),
    ;
}

/// A closure is a fold step when it maps the accumulator and the item to
/// the next accumulator and the result.
impl<S, A, R, F: Fn(&S, A) -> (S, Option<R>)> Scanner<S, A> for F {
    type Output = R;

    open spec fn accepts(&self, state: S, item: A) -> bool {
        &&& call_requires(*self, (&state, item))
        &&& forall|r1: (S, Option<R>), r2: (S, Option<R>)|
            call_ensures(*self, (&state, item), r1) && call_ensures(*self, (&state, item), r2)
                ==> r1 == r2
    }

    open spec fn apply(&self, state: S, item: A) -> (S, Option<R>) {
        choose|r: (S, Option<R>)| call_ensures(*self, (&state, item), r)
    }

    fn call(&mut self, state: &mut S, item: A) -> (out: Option<R>) {
        let (left, out) = (*self)(&*state, item);
        *state = left;
        out
    }
}

/// A test of one item.
pub trait Predicate<A>: Sized {
    /// The items that `call` may be given.
    spec fn accepts(&self, item: A) -> bool;

    /// The answer that `call` gives for `item`.
    spec fn apply(&self, item: A) -> bool;

    fn call(&mut self, item: &A) -> (answer: bool)
        requires
            old(self).accepts(*item),
        ensures
            answer == old(self).apply(*item),
            *final(self) == *old(self),
    ;
}

/// A closure is a test where it never answers both yes and no for one item.
impl<A, F: Fn(&A) -> bool> Predicate<A> for F {
    open spec fn accepts(&self, item: A) -> bool {
        &&& call_requires(*self, (&item,))
        &&& !(call_ensures(*self, (&item,), true) && call_ensures(*self, (&item,), false))
    }

    open spec fn apply(&self, item: A) -> bool {
        call_ensures(*self, (&item,), true)
    }

    fn call(&mut self, item: &A) -> (answer: bool) {
        (*self)(item)
    }
}

/// A fold step: from an accumulator and an item to the next accumulator.
pub trait Folder<B, A>: Sized {
    /// The accumulators and items that `call` may be given.
    spec fn accepts(&self, acc: B, item: A) -> bool;

    /// The accumulator that `call` gives back.
    spec fn apply(&self, acc: B, item: A) -> B;

    fn call(&mut self, acc: B, item: A) -> (next: B)
        requires
            old(self).accepts(acc, item),
        ensures
            next == old(self).apply(acc, item),
            *final(self) == *old(self),
    ;
}

/// A closure is a fold step where every call on an accumulator and an item
/// gives the same result.
impl<B, A, F: Fn(B, A) -> B> Folder<B, A> for F {
    open spec fn accepts(&self, acc: B, item: A) -> bool {
        &&& call_requires(*self, (acc, item))
        &&& forall|r1: B, r2: B|
            call_ensures(*self, (acc, item), r1) && call_ensures(*self, (acc, item), r2) ==> r1 == r2
    }

    open spec fn apply(&self, acc: B, item: A) -> B {
        choose|r: B| call_ensures(*self, (acc, item), r)
    }

    fn call(&mut self, acc: B, item: A) -> (next: B) {
        (*self)(acc, item)
    }
}

/// The items for which the test `p` answers `want`.
pub open spec fn answers<A, P: Predicate<A>>(p: P, want: bool) -> spec_fn(A) -> bool {
    |item: A| p.apply(item) == want
}

/// The items that `f` turns into `want`.
pub open spec fn gives<A, F: Mapper<A, Output = bool>>(f: F, want: bool) -> spec_fn(A) -> bool {
    |item: A| f.apply(item) == want
}

/// The items for which `f` has a result.
pub open spec fn yields<A, F: OptionMapper<A>>(f: F) -> spec_fn(A) -> bool {
    |item: A| f.apply(item) is Some
}

/// What `f` makes of the outcome of a call.
pub open spec fn and_apply<A, F: OptionMapper<A>>(f: F, pulled: Option<A>) -> Option<F::Output> {
    match pulled {
        Some(a) => f.apply(a),
        None => None,
    }
}

} // verus!
