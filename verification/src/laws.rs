//! What holds of the adapters whatever they wrap.

use vstd::prelude::*;
use crate::adapters::filter::{filter_at, filtered};
use crate::adapters::take::take_step;
use crate::adapters::{Chain, Filter, Fuse, MapWhile, Mapped, Take, Zip};
use crate::constructors::empty::Empty;
use crate::constructors::from_iter::LendingWrapper;
use crate::fn_traits::{and_apply, answers, Mapper, OptionMapper, Predicate};
use crate::lending_iter::{script, LendingIter};
use crate::script::{
    always_halts, ends, halts, is_least, items, len, polls, lemma_always_halts, lemma_least_is, lemma_len,
    lemma_len_is, lemma_polls_all, lemma_shift_shift, lemma_silent_halts, lemma_stop,
    lemma_stop_behind, shift, silent_from, stop,
    stops, Script,
};

verus! {

/// A sequence over a collection reports exhaustion for ever once the items
/// are spent, so every search in it ends and it ends itself.
pub proof fn lemma_collection_ends<T>(wrapped: LendingWrapper<T>, keep: spec_fn(T) -> bool)
    ensures
        always_halts(script(wrapped), keep),
        ends(script(wrapped)),
        len(script(wrapped)) == wrapped@.len(),
        items(script(wrapped)) == wrapped@,
{
    let s = script(wrapped);
    assert(silent_from(s, wrapped@.len()));
    lemma_silent_halts(s, keep, wrapped@.len());
    lemma_len_is(s, wrapped@.len());
    assert(items(s) =~= wrapped@);
}

/// A fused sequence that has reported exhaustion once reports it at every
/// later call, whatever the wrapped sequence would give.
pub proof fn lemma_fuse_stays_exhausted<I: LendingIter>(fused: Fuse<I>, k: nat, j: nat)
    requires
        k <= j,
        fused.at(k) is None,
    ensures
        fused.at(j) is None,
{
    if fused.at(j) is Some {
        assert(fused.iter.at(k) is Some);
    }
}

/// A sequence that maps while there are results reports exhaustion at every
/// call behind the first one that did so.
pub proof fn lemma_map_while_stays_exhausted<I, F>(mapped: MapWhile<I, F>, k: nat, j: nat) where
    I: LendingIter,
    F: OptionMapper<I::Item>,

    requires
        k <= j,
        mapped.at(k) is None,
    ensures
        mapped.at(j) is None,
{
    if mapped.at(j) is Some {
        assert(and_apply(mapped.pred, mapped.iter.at(k)) is Some);
    }
}

/// A fresh fused sequence gives what the wrapped sequence gives up to the
/// first report of exhaustion, and has as many items.
pub proof fn lemma_fuse_keeps_items<I: LendingIter>(fused: Fuse<I>)
    requires
        fused.avail,
        ends(script(fused.iter)),
    ensures
        ends(script(fused)),
        len(script(fused)) == len(script(fused.iter)),
        forall|k: nat| k < len(script(fused.iter)) ==> #[trigger] fused.at(k) == fused.iter.at(k),
{
    let s = script(fused.iter);
    lemma_len(s);
    let n = len(s);
    assert forall|k: nat| k < n implies #[trigger] fused.at(k) == fused.iter.at(k) by {
        assert forall|j: nat| j <= k implies (#[trigger] fused.iter.at(j)) is Some by {
            assert(s(j) is Some);
        }
    }
    assert(script(fused)(n) is None) by {
        assert(s(n) is None);
    }
    assert forall|k: nat| k < n implies (#[trigger] script(fused)(k)) is Some by {
        assert(fused.at(k) == fused.iter.at(k));
        assert(s(k) is Some);
    }
    lemma_len_is(script(fused), n);
}

/// A sequence chained with the empty sequence behind it has the items of
/// the sequence, in order, and as many of them.
pub proof fn lemma_chain_empty_behind<I: LendingIter>(chained: Chain<I, Empty<I::Item>>)
    requires
        chained.a.avail,
        ends(script(chained.a.iter)),
    ensures
        ends(script(chained)),
        len(script(chained)) == len(script(chained.a.iter)),
        items(script(chained)) == items(script(chained.a.iter)),
{
    lemma_fuse_keeps_items(chained.a);
    let f = script(chained.a);
    lemma_len(f);
    let n = len(f);
    assert forall|k: nat| k < n implies #[trigger] chained.at(k) == chained.a.iter.at(k) by {
        assert(f(k) is Some);
        assert(chained.a.at(k) == chained.a.iter.at(k));
    }
    assert(script(chained)(n) is None) by {
        assert(f(n) is None);
    }
    assert forall|k: nat| k < n implies (#[trigger] script(chained)(k)) is Some by {
        assert(f(k) is Some);
    }
    lemma_len_is(script(chained), n);
    assert(items(script(chained)) =~= items(script(chained.a.iter)));
}

/// A sequence chained behind the empty sequence gives at every call what
/// the sequence gives.
pub proof fn lemma_chain_empty_before<T, J: LendingIter<Item = T>>(chained: Chain<Empty<T>, J>, k: nat)
    ensures
        chained.at(k) == chained.b.at(k),
{
    assert(chained.a.at(k) is None);
    assert(script(chained.a)(0) is None);
    lemma_len_is(script(chained.a), 0);
}

/// Mapping with `f` and then with `g` gives at every call what mapping
/// with a transformation `h` gives that is `g` after `f`.
pub proof fn lemma_map_map<I, F, G, H>(twice: Mapped<Mapped<I, F>, G>, once: Mapped<I, H>, k: nat) where
    I: LendingIter,
    F: Mapper<I::Item>,
    G: Mapper<F::Output>,
    H: Mapper<I::Item, Output = G::Output>,

    requires
        once.iter == twice.iter.iter,
        forall|x: I::Item| #[trigger] once.fun.apply(x) == twice.fun.apply(twice.iter.fun.apply(x)),
    ensures
        twice.at(k) == once.at(k),
{
}

/// One call on the items kept by `p` and then by `q` ends where one call on
/// the items kept by both ends, gives what that call gives, and leaves what
/// it leaves.
pub proof fn lemma_filter_filter_step<T>(
    s: Script<T>,
    p: spec_fn(T) -> bool,
    q: spec_fn(T) -> bool,
    r: spec_fn(T) -> bool,
)
    requires
        forall|x: T| #[trigger] r(x) == (p(x) && q(x)),
        always_halts(s, p),
        halts(filtered(s, p), q),
    ensures
        halts(s, r),
        filtered(s, p)(stop(filtered(s, p), q)) == s(stop(s, r)),
        shift(filtered(s, p), stop(filtered(s, p), q) + 1) == filtered(shift(s, stop(s, r) + 1), p),
    decreases stop(filtered(s, p), q),
{
    let t = filtered(s, p);
    lemma_always_halts(s, p, 0);
    lemma_stop(s, p);
    let j = stop(s, p);
    lemma_stop(t, q);
    let m = stop(t, q);
    let s1 = shift(s, j + 1);
    let t1 = filtered(s1, p);
    assert(t(0) == s(j));
    assert(shift(t, 1) =~= t1) by {
        assert forall|k: nat| shift(t, 1)(k) == #[trigger] t1(k) by {
            assert(filter_at(s, p, k + 1) == filter_at(s1, p, k));
        }
    }
    assert forall|i: nat| i < j implies !#[trigger] stops(s, r)(i) by {
        assert(!stops(s, p)(i));
    }
    if stops(t, q)(0) {
        assert(is_least(stops(t, q), 0));
        lemma_least_is(stops(t, q), 0);
        assert(stops(s, p)(j));
        assert(stops(s, r)(j));
        assert(is_least(stops(s, r), j));
        lemma_least_is(stops(s, r), j);
    } else {
        assert(m > 0);
        assert(!stops(s, r)(j)) by {
            assert(stops(s, p)(j));
        }
        assert(stops(t1, q)((m - 1) as nat)) by {
            assert(stops(t, q)(m));
            assert(shift(t, 1)((m - 1) as nat) == t(m));
        }
        assert(halts(t1, q));
        lemma_stop_behind(t, q, 1);
        lemma_always_halts(s, p, j + 1);
        lemma_filter_filter_step(s1, p, q, r);
        lemma_stop_behind(s, r, j + 1);
        let n1 = stop(s1, r);
        assert(t(m) == shift(t, 1)((m - 1) as nat));
        assert(s1(n1) == s(n1 + j + 1));
        lemma_shift_shift(t, 1, m);
        lemma_shift_shift(s, j + 1, n1 + 1);
    }
}

/// The scripts of the items kept by `p` and then by `q`, and of the items
/// kept by both, are the same.
pub proof fn lemma_filter_filter_at<T>(
    s: Script<T>,
    p: spec_fn(T) -> bool,
    q: spec_fn(T) -> bool,
    r: spec_fn(T) -> bool,
    k: nat,
)
    requires
        forall|x: T| #[trigger] r(x) == (p(x) && q(x)),
        always_halts(s, p),
        always_halts(filtered(s, p), q),
    ensures
        filter_at(filtered(s, p), q, k) == filter_at(s, r, k),
    decreases k,
{
    let t = filtered(s, p);
    lemma_always_halts(t, q, 0);
    lemma_filter_filter_step(s, p, q, r);
    if k > 0 {
        let m = stop(t, q);
        let n = stop(s, r);
        lemma_always_halts(t, q, m + 1);
        lemma_always_halts(s, p, n + 1);
        lemma_filter_filter_at(shift(s, n + 1), p, q, r, (k - 1) as nat);
    }
}

/// Filtering with one test and then with another gives at every call what
/// filtering with a test gives that passes where both pass.
pub proof fn lemma_filter_filter<I, P, Q, R>(twice: Filter<Filter<I, P>, Q>, once: Filter<I, R>, k: nat) where
    I: LendingIter,
    P: Predicate<I::Item>,
    Q: Predicate<I::Item>,
    R: Predicate<I::Item>,

    requires
        twice.wf(),
        once.iter == twice.iter.iter,
        forall|x: I::Item| #[trigger]
            once.filter.apply(x) == (twice.iter.filter.apply(x) && twice.filter.apply(x)),
    ensures
        twice.at(k) == once.at(k),
{
    let s = script(once.iter);
    let p = answers(twice.iter.filter, true);
    let q = answers(twice.filter, true);
    let r = answers(once.filter, true);
    assert(script(twice.iter) =~= filtered(s, p));
    assert forall|x: I::Item| #[trigger] r(x) == (p(x) && q(x)) by {
        assert(once.filter.apply(x) == (twice.iter.filter.apply(x) && twice.filter.apply(x)));
    }
    lemma_filter_filter_at(s, p, q, r, k);
}

/// Two sequences that end give, zipped, as many pairs as the shorter one
/// has items, and each pair holds the items of the same call.
pub proof fn lemma_zip_len<I: LendingIter, J: LendingIter>(zipped: Zip<I, J>)
    requires
        ends(script(zipped.a)),
        ends(script(zipped.b)),
    ensures
        ends(script(zipped)),
        len(script(zipped)) == if len(script(zipped.a)) <= len(script(zipped.b)) {
            len(script(zipped.a))
        } else {
            len(script(zipped.b))
        },
        forall|k: nat|
            k < len(script(zipped)) ==> #[trigger] zipped.at(k) == Some(
                (zipped.a.at(k)->0, zipped.b.at(k)->0),
            ),
{
    let a = script(zipped.a);
    let b = script(zipped.b);
    let z = script(zipped);
    lemma_len(a);
    lemma_len(b);
    let n = if len(a) <= len(b) {
        len(a)
    } else {
        len(b)
    };
    assert forall|k: nat| k <= n implies polls(a, k) == k by {
        assert forall|j: nat| j < k implies (#[trigger] a(j)) is Some by {}
        lemma_polls_all(a, k);
    }
    assert(z(n) is None) by {
        assert(polls(a, n) == n);
        if n == len(a) {
            assert(a(n) is None);
        } else {
            assert(b(n) is None);
        }
    }
    assert forall|k: nat| k < n implies #[trigger] zipped.at(k) == Some(
        (zipped.a.at(k)->0, zipped.b.at(k)->0),
    ) by {
        assert(polls(a, k) == k);
        assert(a(k) is Some);
        assert(b(k) is Some);
    }
    assert forall|k: nat| k < n implies (#[trigger] z(k)) is Some by {
        assert(zipped.at(k) is Some);
    }
    lemma_len_is(z, n);
}

/// The first `n` items of a sequence are `n` items, or all items where the
/// sequence has fewer.
pub proof fn lemma_take_len<I: LendingIter>(taken: Take<I>)
    ensures
        ends(script(taken)),
        len(script(taken)) == if ends(script(taken.iter)) && len(script(taken.iter)) < taken.n {
            len(script(taken.iter))
        } else {
            taken.n as nat
        },
{
    let s = script(taken.iter);
    let t = script(taken);
    let n = taken.n as nat;
    if ends(s) && len(s) < n {
        lemma_len(s);
        assert(t(len(s)) is None);
        assert forall|k: nat| k < len(s) implies (#[trigger] t(k)) is Some by {
            assert(s(k) is Some);
        }
        lemma_len_is(t, len(s));
    } else {
        assert(t(n) is None);
        assert forall|k: nat| k < n implies (#[trigger] t(k)) is Some by {
            if s(k) is None {
                lemma_len(s);
                if len(s) > k {
                    assert(s(k) is Some);
                }
            }
        }
        lemma_len_is(t, n);
    }
}

/// A sequence goes on where taking from it left off: after any number of
/// calls on `take(n)`, the wrapped sequence gives what it would have given
/// behind the calls that reached it, which are the first `n` calls at most.
pub proof fn lemma_take_leaves_rest<I: LendingIter>(states: Seq<Take<I>>, k: nat)
    requires
        states.len() > 0,
        forall|i: int| 0 <= i < states.len() - 1 ==> take_step(#[trigger] states[i], states[i + 1]),
    ensures
        states.last().iter.at(k) == states[0].iter.at(
            k + if states.len() - 1 < states[0].n {
                (states.len() - 1) as nat
            } else {
                states[0].n as nat
            },
        ),
        states.last().n == if states.len() - 1 < states[0].n {
            states[0].n - (states.len() - 1)
        } else {
            0
        },
    decreases states.len(),
{
    if states.len() > 1 {
        let shorter = states.drop_last();
        assert forall|i: int| 0 <= i < shorter.len() - 1 implies take_step(
            #[trigger] shorter[i],
            shorter[i + 1],
        ) by {
            assert(take_step(states[i], states[i + 1]));
        }
        lemma_take_leaves_rest(shorter, k);
        lemma_take_leaves_rest(shorter, k + 1);
        assert(take_step(states[states.len() - 2], states[states.len() - 1]));
        assert(shorter.last() == states[states.len() - 2]);
    }
}

} // verus!
