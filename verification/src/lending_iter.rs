//! The sequence contract.

use vstd::prelude::*;
use crate::adapters::filter::seek;
use crate::adapters::filter_map::seek_map;
use crate::adapters::{
    Chain, Enumerate, Filter, FilterMap, FlatMap, Flatten, Fuse, Inspect, MapWhile, Mapped, Scan,
    Skip, SkipWhile, StepBy, Take, TakeWhile, Zip,
};
use crate::fn_traits::{
    and_apply, answers, gives, yields, Folder, IterMapper, Mapper, OptionMapper, Predicate, Scanner,
};
use crate::script::{
    ends, halts, len, lemma_len, lemma_reach_is, lemma_search_step, lemma_shift_shift, reach, shift,
    silent, stop, stops, Script,
};

verus! {

/// A sequence that is pulled one item at a time.
///
/// Every sequence has a script (`at`): what each of its future calls of
/// `next` gives back. A call gives back the head of the script and leaves
/// the rest. `None` reports exhaustion; a script may hold items behind a
/// `None`, as a sequence may resume.
///
/// An item is handed over by value. A sequence over storage of its own
/// hands out positions or copies, so that an item never refers to what a
/// later call may overwrite.
pub trait LendingIter: Sized {
    type Item;

    /// Every future call of `next` may be made.
    spec fn wf(&self) -> bool;

    /// What the `k`-th call of `next` from now on gives back.
    spec fn at(&self, k: nat) -> Option<Self::Item>;

    fn next(&mut self) -> (item: Option<Self::Item>)
        requires
            old(self).wf(),
        ensures
            final(self).wf(),
            item == old(self).at(0),
            forall|k: nat| #[trigger] final(self).at(k) == old(self).at(k + 1),
    ;
}

/// What every sequence offers on top of `next`: the adapters and the
/// operations that pull until they have their answer.
pub trait LendingIterExt: LendingIter {
    /// A lower and an upper bound on the number of items left. Nothing is
    /// known without pulling: the bounds are zero and none.
    fn size_hint(&self) -> (hint: (usize, Option<usize>))
        ensures
            hint.0 == 0,
            hint.1 is None,
    {
        (0, None)
    }

    /// The number of items before the first report of exhaustion.
    fn count(self) -> (count: usize)
        requires
            self.wf(),
            ends(script(self)),
            len(script(self)) <= usize::MAX,
        ensures
            count == len(script(self)),
    {
        let mut it = self;
        let mut count: usize = 0;
        let ghost s0 = script(self);
        proof {
            lemma_shift_shift(s0, 0, 0);
            lemma_len(s0);
        }
        loop
            invariant
                it.wf(),
                s0 == script(self),
                ends(s0),
                len(s0) <= usize::MAX,
                script(it) == shift(s0, count as nat),
                count <= len(s0),
                s0(len(s0)) is None,
                forall|k: nat| k < len(s0) ==> (#[trigger] s0(k)) is Some,
            decreases len(s0) - count,
        {
            let ghost before = it;
            let pulled = it.next();
            proof {
                lemma_script_at(before, s0, count as nat);
                lemma_script_step(before, it);
                lemma_shift_shift(s0, count as nat, 1);
            }
            match pulled {
                Some(_) => {
                    count += 1;
                },
                None => {
                    return count;
                },
            }
        }
    }

    /// The item of call `n`, unless an earlier call reports exhaustion: the
    /// run of calls ends there.
    fn nth(&mut self, n: usize) -> (item: Option<Self::Item>)
        requires
            old(self).wf(),
        ensures
            final(self).wf(),
            item == old(self).at(reach(script(*old(self)), n as nat)),
            script(*final(self)) == shift(script(*old(self)), reach(script(*old(self)), n as nat) + 1),
    {
        let ghost s0 = script(*self);
        let mut i: usize = 0;
        proof {
            lemma_shift_shift(s0, 0, 0);
        }
        while i < n
            invariant
                self.wf(),
                s0 == script(*old(self)),
                script(*self) == shift(s0, i as nat),
                i <= n,
                forall|j: nat| j < i ==> (#[trigger] s0(j)) is Some,
            decreases n - i,
        {
            let ghost before = *self;
            let pulled = self.next();
            proof {
                lemma_script_at(before, s0, i as nat);
                lemma_script_step(before, *self);
                lemma_shift_shift(s0, i as nat, 1);
            }
            if pulled.is_none() {
                proof {
                    lemma_reach_is(s0, n as nat, i as nat);
                }
                return None;
            }
            i += 1;
        }
        let ghost before = *self;
        let item = self.next();
        proof {
            lemma_reach_is(s0, n as nat, i as nat);
            lemma_script_at(before, s0, i as nat);
            lemma_script_step(before, *self);
            lemma_shift_shift(s0, i as nat, 1);
        }
        item
    }

    /// The first item and then every `step`-th item behind it.
    fn step_by(self, step: usize) -> (made: StepBy<Self>)
        requires
            step > 0,
        ensures
            made == (StepBy { iter: self, step, first: true }),
    {
        StepBy { iter: self, step, first: true }
    }

    /// The items of this sequence, then those of `other`.
    fn chain<I>(self, other: I) -> (made: Chain<Self, I>) where I: LendingIter<Item = Self::Item>
        ensures
            made == (Chain { a: Fuse { iter: self, avail: true }, b: other }),
    {
        Chain { a: Fuse { iter: self, avail: true }, b: other }
    }

    /// The items of this sequence paired with those of `other`.
    fn zip<I>(self, other: I) -> (made: Zip<Self, I>) where I: LendingIter
        ensures
            made == (Zip { a: self, b: other }),
    {
        Zip { a: self, b: other }
    }

    /// What `fun` makes of each item.
    fn map<F>(self, fun: F) -> (made: Mapped<Self, F>) where F: Mapper<Self::Item>
        ensures
            made == (Mapped { iter: self, fun }),
    {
        Mapped { iter: self, fun }
    }

    /// Calls `fun` on every item before the first report of exhaustion.
    fn for_each<F>(self, fun: F) where F: Fn(Self::Item)
        requires
            self.wf(),
            ends(script(self)),
            forall|k: nat| (#[trigger] self.at(k)) matches Some(a) ==> call_requires(fun, (a,)),
    {
        let mut it = self;
        let ghost s0 = script(self);
        let ghost mut i: nat = 0;
        proof {
            lemma_shift_shift(s0, 0, 0);
            lemma_len(s0);
        }
        loop
            invariant
                it.wf(),
                s0 == script(self),
                forall|k: nat| (#[trigger] s0(k)) matches Some(a) ==> call_requires(fun, (a,)),
                script(it) == shift(s0, i),
                i <= len(s0),
                s0(len(s0)) is None,
                forall|k: nat| k < len(s0) ==> (#[trigger] s0(k)) is Some,
            decreases len(s0) - i,
        {
            let ghost before = it;
            let pulled = it.next();
            proof {
                lemma_script_at(before, s0, i);
                lemma_script_step(before, it);
                lemma_shift_shift(s0, i, 1);
            }
            match pulled {
                Some(v) => {
                    fun(v);
                },
                None => {
                    return;
                },
            }
            proof {
                i = i + 1;
            }
        }
    }

    /// The items for which `filter` answers yes.
    fn filter<F>(self, filter: F) -> (made: Filter<Self, F>) where F: Predicate<Self::Item>
        ensures
            made == (Filter { iter: self, filter }),
    {
        Filter { iter: self, filter }
    }

    /// The results that `filter` has for the items.
    fn filter_map<F>(self, filter: F) -> (made: FilterMap<Self, F>) where F: OptionMapper<Self::Item>
        ensures
            made == (FilterMap { iter: self, filter }),
    {
        FilterMap { iter: self, filter }
    }

    /// Each item with the number of the call that gave it, counted from zero.
    fn enumerate(self) -> (made: Enumerate<Self>)
        ensures
            made == (Enumerate { iter: self, count: 0 }),
    {
        Enumerate { iter: self, count: 0 }
    }

    /// The items from the first one on for which `predicate` answers no.
    fn skip_while<P>(self, predicate: P) -> (made: SkipWhile<Self, P>) where
        P: Predicate<Self::Item>,

        ensures
            made == (SkipWhile { iter: self, pred: predicate, done: false }),
    {
        SkipWhile { iter: self, pred: predicate, done: false }
    }

    /// The items for which `predicate` answers yes, with a report of
    /// exhaustion in place of every other item.
    fn take_while<P>(self, predicate: P) -> (made: TakeWhile<Self, P>) where
        P: Predicate<Self::Item>,

        ensures
            made == (TakeWhile { iter: self, pred: predicate }),
    {
        TakeWhile { iter: self, pred: predicate }
    }

    /// The results that `predicate` has for the items, up to the first call
    /// without one.
    fn map_while<P>(self, predicate: P) -> (made: MapWhile<Self, P>) where P: OptionMapper<Self::Item>
        ensures
            made == (MapWhile { iter: self, pred: predicate, done: false }),
    {
        MapWhile { iter: self, pred: predicate, done: false }
    }

    /// The items behind the first `n`.
    fn skip(self, n: usize) -> (made: Skip<Self>)
        ensures
            made == (Skip { iter: self, n }),
    {
        Skip { iter: self, n }
    }

    /// The first `n` items.
    fn take(self, n: usize) -> (made: Take<Self>)
        ensures
            made == (Take { iter: self, n }),
    {
        Take { iter: self, n }
    }

    /// What the fold step `f` gives for each item, with an accumulator that
    /// starts as `initial_state`.
    fn scan<S, F>(self, initial_state: S, f: F) -> (made: Scan<Self, S, F>) where
        F: Scanner<S, Self::Item>,

        ensures
            made == (Scan { iter: self, state: initial_state, scan: f }),
    {
        Scan { iter: self, state: initial_state, scan: f }
    }

    /// The items of the sequences that `fun` makes of the items.
    fn flat_map<J, F>(self, fun: F) -> (made: FlatMap<Self, F, J>) where
        J: LendingIter,
        F: IterMapper<Self::Item, Output = J>,

        ensures
            made == (FlatMap { iter: self, fun, curr: None::<J> }),
    {
        FlatMap { iter: self, fun, curr: None }
    }

    /// The items of the sequences that this sequence gives.
    fn flatten<J>(self) -> (made: Flatten<Self, J>) where J: LendingIter, Self: LendingIter<Item = J>
        ensures
            made == (Flatten { iter: self, curr: None::<J> }),
    {
        Flatten { iter: self, curr: None }
    }

    /// The items up to the first report of exhaustion, and nothing behind it.
    fn fuse(self) -> (made: Fuse<Self>)
        ensures
            made == (Fuse { iter: self, avail: true }),
    {
        Fuse { iter: self, avail: true }
    }

    /// The items, each shown to `fun` before it is given.
    fn inspect<F>(self, fun: F) -> (made: Inspect<Self, F>) where F: Fn(&Self::Item)
        ensures
            made == (Inspect { iter: self, fun }),
    {
        Inspect { iter: self, fun }
    }

    /// This sequence, borrowed.
    fn by_ref(&mut self) -> (same: &mut Self)
        ensures
            *same == *old(self),
            *final(self) == *final(same),
    {
        self
    }

    /// The accumulator after `f` has folded into it every item before the
    /// first report of exhaustion.
    fn fold<B, F>(self, init: B, f: F) -> (acc: B) where F: Folder<B, Self::Item>
        requires
            self.wf(),
            ends(script(self)),
            forall|k: nat|
                k < len(script(self)) ==> f.accepts(
                    #[trigger] folded(script(self), f, init, k),
                    self.at(k)->0,
                ),
        ensures
            acc == folded(script(self), f, init, len(script(self))),
    {
        let mut it = self;
        let mut fun = f;
        let mut accum = init;
        let ghost s0 = script(self);
        let ghost mut i: nat = 0;
        proof {
            lemma_shift_shift(s0, 0, 0);
            lemma_len(s0);
        }
        loop
            invariant
                it.wf(),
                s0 == script(self),
                f == fun,
                forall|k: nat| k < len(s0) ==> f.accepts(#[trigger] folded(s0, f, init, k), s0(k)->0),
                script(it) == shift(s0, i),
                i <= len(s0),
                s0(len(s0)) is None,
                forall|k: nat| k < len(s0) ==> (#[trigger] s0(k)) is Some,
                accum == folded(s0, f, init, i),
            decreases len(s0) - i,
        {
            let ghost before = it;
            let pulled = it.next();
            proof {
                lemma_script_at(before, s0, i);
                lemma_script_step(before, it);
                lemma_shift_shift(s0, i, 1);
            }
            match pulled {
                Some(x) => {
                    accum = fun.call(accum, x);
                },
                None => {
                    return accum;
                },
            }
            proof {
                i = i + 1;
            }
        }
    }

    /// Whether `f` gives yes for every item up to the first report of
    /// exhaustion. Pulling ends with the first item for which it gives no.
    fn all<F>(&mut self, f: F) -> (every: bool) where F: Mapper<Self::Item, Output = bool>
        requires
            old(self).wf(),
            halts(script(*old(self)), gives(f, false)),
            forall|k: nat| (#[trigger] old(self).at(k)) matches Some(a) ==> f.accepts(a),
        ensures
            final(self).wf(),
            every == old(self).at(stop(script(*old(self)), gives(f, false))) is None,
            script(*final(self)) == shift(script(*old(self)), stop(script(*old(self)), gives(f, false)) + 1),
    {
        let mut fun = f;
        let ghost s0 = script(*self);
        let ghost keep = gives(f, false);
        let ghost mut i: nat = 0;
        proof {
            lemma_shift_shift(s0, 0, 0);
        }
        loop
            invariant
                self.wf(),
                s0 == script(*old(self)),
                keep == gives(f, false),
                fun == f,
                halts(s0, keep),
                forall|k: nat| (#[trigger] s0(k)) matches Some(a) ==> f.accepts(a),
                script(*self) == shift(s0, i),
                forall|j: nat| j < i ==> !#[trigger] stops(s0, keep)(j),
                i <= stop(s0, keep),
            decreases stop(s0, keep) - i,
        {
            let ghost before = *self;
            let pulled = self.next();
            proof {
                lemma_script_at(before, s0, i);
                lemma_script_step(before, *self);
                lemma_shift_shift(s0, i, 1);
                lemma_search_step(s0, keep, i);
                assert(pulled == s0(i));
            }
            match pulled {
                Some(a) => {
                    let answer = fun.call(a);
                    proof {
                        assert(stops(s0, keep)(i) == !answer);
                    }
                    if !answer {
                        return false;
                    }
                },
                None => {
                    proof {
                        assert(stops(s0, keep)(i));
                    }
                    return true;
                },
            }
            proof {
                i = i + 1;
            }
        }
    }

    /// Whether `f` gives yes for an item before the first report of
    /// exhaustion. Pulling ends with the first such item.
    fn any<F>(&mut self, f: F) -> (some: bool) where F: Mapper<Self::Item, Output = bool>
        requires
            old(self).wf(),
            halts(script(*old(self)), gives(f, true)),
            forall|k: nat| (#[trigger] old(self).at(k)) matches Some(a) ==> f.accepts(a),
        ensures
            final(self).wf(),
            some == old(self).at(stop(script(*old(self)), gives(f, true))) is Some,
            script(*final(self)) == shift(script(*old(self)), stop(script(*old(self)), gives(f, true)) + 1),
    {
        let mut fun = f;
        let ghost s0 = script(*self);
        let ghost keep = gives(f, true);
        let ghost mut i: nat = 0;
        proof {
            lemma_shift_shift(s0, 0, 0);
        }
        loop
            invariant
                self.wf(),
                s0 == script(*old(self)),
                keep == gives(f, true),
                fun == f,
                halts(s0, keep),
                forall|k: nat| (#[trigger] s0(k)) matches Some(a) ==> f.accepts(a),
                script(*self) == shift(s0, i),
                forall|j: nat| j < i ==> !#[trigger] stops(s0, keep)(j),
                i <= stop(s0, keep),
            decreases stop(s0, keep) - i,
        {
            let ghost before = *self;
            let pulled = self.next();
            proof {
                lemma_script_at(before, s0, i);
                lemma_script_step(before, *self);
                lemma_shift_shift(s0, i, 1);
                lemma_search_step(s0, keep, i);
                assert(pulled == s0(i));
            }
            match pulled {
                Some(a) => {
                    let answer = fun.call(a);
                    proof {
                        assert(stops(s0, keep)(i) == answer);
                    }
                    if answer {
                        return true;
                    }
                },
                None => {
                    proof {
                        assert(stops(s0, keep)(i));
                    }
                    return false;
                },
            }
            proof {
                i = i + 1;
            }
        }
    }

    /// The first item for which `predicate` answers yes, if one comes
    /// before the first report of exhaustion. Pulling ends there.
    fn find<P>(&mut self, predicate: P) -> (item: Option<Self::Item>) where P: Predicate<Self::Item>
        requires
            old(self).wf(),
            halts(script(*old(self)), answers(predicate, true)),
            forall|k: nat| (#[trigger] old(self).at(k)) matches Some(a) ==> predicate.accepts(a),
        ensures
            final(self).wf(),
            item == old(self).at(stop(script(*old(self)), answers(predicate, true))),
            script(*final(self)) == shift(
                script(*old(self)),
                stop(script(*old(self)), answers(predicate, true)) + 1,
            ),
    {
        let mut predicate = predicate;
        seek(self, &mut predicate, true)
    }

    /// The first result that `f` has for an item, if one comes before the
    /// first report of exhaustion. Pulling ends there.
    fn find_map<B, P>(&mut self, f: P) -> (made: Option<B>) where
        P: OptionMapper<Self::Item, Output = B>,

        requires
            old(self).wf(),
            halts(script(*old(self)), yields(f)),
            forall|k: nat| (#[trigger] old(self).at(k)) matches Some(a) ==> f.accepts(a),
        ensures
            final(self).wf(),
            made == and_apply(f, old(self).at(stop(script(*old(self)), yields(f)))),
            script(*final(self)) == shift(script(*old(self)), stop(script(*old(self)), yields(f)) + 1),
    {
        let mut f = f;
        seek_map(self, &mut f)
    }

    /// The number of the first call whose item `predicate` turns into yes,
    /// if one comes before the first report of exhaustion. Pulling ends there.
    fn position<P>(&mut self, predicate: P) -> (found: Option<usize>) where
        P: Mapper<Self::Item, Output = bool>,

        requires
            old(self).wf(),
            halts(script(*old(self)), gives(predicate, true)),
            stop(script(*old(self)), gives(predicate, true)) <= usize::MAX,
            forall|k: nat| (#[trigger] old(self).at(k)) matches Some(a) ==> predicate.accepts(a),
        ensures
            final(self).wf(),
            found == if old(self).at(stop(script(*old(self)), gives(predicate, true))) is Some {
                Some(stop(script(*old(self)), gives(predicate, true)) as usize)
            } else {
                None
            },
            script(*final(self)) == shift(
                script(*old(self)),
                stop(script(*old(self)), gives(predicate, true)) + 1,
            ),
    {
        let mut fun = predicate;
        let ghost s0 = script(*self);
        let ghost keep = gives(predicate, true);
        let mut i: usize = 0;
        proof {
            lemma_shift_shift(s0, 0, 0);
        }
        loop
            invariant
                self.wf(),
                s0 == script(*old(self)),
                keep == gives(predicate, true),
                fun == predicate,
                halts(s0, keep),
                stop(s0, keep) <= usize::MAX,
                forall|k: nat| (#[trigger] s0(k)) matches Some(a) ==> predicate.accepts(a),
                script(*self) == shift(s0, i as nat),
                forall|j: nat| j < i ==> !#[trigger] stops(s0, keep)(j),
                i <= stop(s0, keep),
            decreases stop(s0, keep) - i,
        {
            let ghost before = *self;
            let pulled = self.next();
            proof {
                lemma_script_at(before, s0, i as nat);
                lemma_script_step(before, *self);
                lemma_shift_shift(s0, i as nat, 1);
                lemma_search_step(s0, keep, i as nat);
                assert(pulled == s0(i as nat));
            }
            match pulled {
                Some(a) => {
                    let answer = fun.call(a);
                    proof {
                        assert(stops(s0, keep)(i as nat) == answer);
                    }
                    if answer {
                        return Some(i);
                    }
                },
                None => {
                    proof {
                        assert(stops(s0, keep)(i as nat));
                    }
                    return None;
                },
            }
            i += 1;
        }
    }
}

impl<I: LendingIter> LendingIterExt for I {
}

/// The script of a sequence, as one value.
pub open spec fn script<I: LendingIter>(it: I) -> Script<I::Item> {
    |k: nat| it.at(k)
}

/// `after` is `before` one call later: its entries are those of `before`
/// moved up by one.
pub open spec fn advanced<I: LendingIter>(before: I, after: I) -> bool {
    forall|k: nat| #[trigger] after.at(k) == before.at(k + 1)
}

/// A sequence whose entries are those of `before` moved up by one has the
/// script of `before` after one call.
pub proof fn lemma_script_step<I: LendingIter>(before: I, after: I)
    requires
        forall|k: nat| #[trigger] after.at(k) == before.at(k + 1),
    ensures
        script(after) == shift(script(before), 1),
{
    assert(script(after) =~= shift(script(before), 1));
}

/// The entries of a sequence are those of its script.
pub proof fn lemma_script_at<I: LendingIter>(it: I, s: Script<I::Item>, n: nat)
    requires
        script(it) == shift(s, n),
    ensures
        forall|k: nat| #[trigger] it.at(k) == s(k + n),
{
    assert forall|k: nat| #[trigger] it.at(k) == s(k + n) by {
        assert(script(it)(k) == shift(s, n)(k));
    }
}

/// The script of a sequence that may be absent: an absent one never gives
/// an item.
pub open spec fn script_or_silent<I: LendingIter>(it: Option<I>) -> Script<I::Item> {
    match it {
        Some(it) => script(it),
        None => silent(),
    }
}

/// The accumulator after the fold step `f` has folded the items of the
/// first `k` calls into `init`, the first item first.
pub open spec fn folded<A, B, F: Folder<B, A>>(s: Script<A>, f: F, init: B, k: nat) -> B
    decreases k,
{
    if k == 0 {
        init
    } else {
        f.apply(folded(s, f, init, (k - 1) as nat), s((k - 1) as nat)->0)
    }
}

} // verus!
