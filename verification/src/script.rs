//! Scripts: the mathematical model of a sequence.
//!
//! A script says, for every `k`, what the `k`-th call of `next` from now on
//! gives back. It is total: a sequence that resumes after reporting
//! exhaustion simply has `Some` entries behind a `None` entry.

use vstd::prelude::*;

verus! {

/// What each future call gives back: entry `k` belongs to the `k`-th call from now.
pub type Script<T> = spec_fn(nat) -> Option<T>;

/// The script that is left once the first `n` calls have been made.
pub open spec fn shift<T>(s: Script<T>, n: nat) -> Script<T> {
    |k: nat| s(k + n)
}

/// Calls add up: `n` calls and then `m` calls are `n + m` calls.
pub proof fn lemma_shift_shift<T>(s: Script<T>, n: nat, m: nat)
    ensures
        shift(shift(s, n), m) == shift(s, n + m),
        shift(s, 0) == s,
{
    assert(shift(shift(s, n), m) =~= shift(s, n + m));
    assert(shift(s, 0) =~= s);
}

/// The script of a sequence that never gives an item.
pub open spec fn silent<T>() -> Script<T> {
    |k: nat| None::<T>
}

/// `j` is the smallest index at which `q` holds.
pub open spec fn is_least(q: spec_fn(nat) -> bool, j: nat) -> bool {
    &&& q(j)
    &&& forall|i: nat| i < j ==> !#[trigger] q(i)
}

/// The smallest index at which `q` holds, where there is one.
pub open spec fn least(q: spec_fn(nat) -> bool) -> nat {
    choose|j: nat| is_least(q, j)
}

/// Wherever `q` holds at some index, `least(q)` is the smallest such index.
pub proof fn lemma_least(q: spec_fn(nat) -> bool, j: nat)
    requires
        q(j),
    ensures
        is_least(q, least(q)),
        least(q) <= j,
    decreases j,
{
    if exists|i: nat| i < j && #[trigger] q(i) {
        let i = choose|i: nat| i < j && #[trigger] q(i);
        lemma_least(q, i);
    } else {
        assert(is_least(q, j));
    }
    let m = least(q);
    if m > j {
        assert(!q(j));
    }
}

/// An index that is known to be the smallest is `least(q)`.
pub proof fn lemma_least_is(q: spec_fn(nat) -> bool, j: nat)
    requires
        is_least(q, j),
    ensures
        least(q) == j,
{
    lemma_least(q, j);
    let m = least(q);
    if m < j {
        assert(!q(m));
    }
}

/// The calls at which a search for an item that `keep` accepts ends: the
/// call reports exhaustion, or its item is accepted.
pub open spec fn stops<T>(s: Script<T>, keep: spec_fn(T) -> bool) -> spec_fn(nat) -> bool {
    |j: nat|
        match s(j) {
            None => true,
            Some(a) => keep(a),
        }
}

/// A search that starts at the head of the script ends.
pub open spec fn halts<T>(s: Script<T>, keep: spec_fn(T) -> bool) -> bool {
    exists|j: nat| #[trigger] stops(s, keep)(j)
}

/// A search ends wherever in the script it starts.
pub open spec fn always_halts<T>(s: Script<T>, keep: spec_fn(T) -> bool) -> bool {
    forall|n: nat| #[trigger] halts(shift(s, n), keep)
}

/// The call at which a search from the head of the script ends.
pub open spec fn stop<T>(s: Script<T>, keep: spec_fn(T) -> bool) -> nat {
    least(stops(s, keep))
}

/// Of a search that ends, `stop` is the first call that ends it.
pub proof fn lemma_stop<T>(s: Script<T>, keep: spec_fn(T) -> bool)
    requires
        halts(s, keep),
    ensures
        is_least(stops(s, keep), stop(s, keep)),
{
    let j = choose|j: nat| #[trigger] stops(s, keep)(j);
    lemma_least(stops(s, keep), j);
}

/// A search that ends wherever it starts does so after `n` calls too, and
/// from the head.
pub proof fn lemma_always_halts<T>(s: Script<T>, keep: spec_fn(T) -> bool, n: nat)
    requires
        always_halts(s, keep),
    ensures
        always_halts(shift(s, n), keep),
        halts(shift(s, n), keep),
        halts(s, keep),
{
    assert forall|m: nat| #[trigger] halts(shift(shift(s, n), m), keep) by {
        assert(halts(shift(s, n + m), keep));
        assert(shift(shift(s, n), m) =~= shift(s, n + m));
    }
    assert(halts(shift(s, 0), keep));
    assert(shift(s, 0) =~= s);
}

/// Every call from call `n` on reports exhaustion.
pub open spec fn silent_from<T>(s: Script<T>, n: nat) -> bool {
    forall|k: nat| k >= n ==> (#[trigger] s(k)) is None
}

/// In a script that reports exhaustion for ever from some call on, every
/// search ends.
pub proof fn lemma_silent_halts<T>(s: Script<T>, keep: spec_fn(T) -> bool, n: nat)
    requires
        silent_from(s, n),
    ensures
        always_halts(s, keep),
{
    assert forall|m: nat| #[trigger] halts(shift(s, m), keep) by {
        assert(s(n + m) is None);
        assert(stops(shift(s, m), keep)(n));
    }
}

/// One step of a search: the call `i` is looked at, no earlier call having
/// ended the search. Where it ends the search, it is `stop`; where it does
/// not, `stop` lies behind it.
pub proof fn lemma_search_step<T>(s: Script<T>, keep: spec_fn(T) -> bool, i: nat)
    requires
        halts(s, keep),
        forall|j: nat| j < i ==> !#[trigger] stops(s, keep)(j),
    ensures
        stops(s, keep)(i) ==> stop(s, keep) == i,
        !stops(s, keep)(i) ==> stop(s, keep) > i,
        stop(s, keep) >= i,
{
    let q = stops(s, keep);
    lemma_stop(s, keep);
    if q(i) {
        assert(is_least(q, i));
        lemma_least_is(q, i);
    } else {
        if stop(s, keep) <= i {
            assert(q(stop(s, keep)));
        }
    }
    if stop(s, keep) < i {
        assert(!q(stop(s, keep)));
    }
}

/// A search that no call before `n` ends is the search from call `n` on.
pub proof fn lemma_stop_behind<T>(s: Script<T>, keep: spec_fn(T) -> bool, n: nat)
    requires
        forall|i: nat| i < n ==> !#[trigger] stops(s, keep)(i),
        halts(shift(s, n), keep),
    ensures
        halts(s, keep),
        stop(s, keep) == stop(shift(s, n), keep) + n,
{
    let t = shift(s, n);
    lemma_stop(t, keep);
    let m = stop(t, keep);
    assert(stops(s, keep)(m + n)) by {
        assert(t(m) == s(m + n));
    }
    assert forall|i: nat| i < m + n implies !#[trigger] stops(s, keep)(i) by {
        if i >= n {
            assert(!stops(t, keep)((i - n) as nat));
            assert(t((i - n) as nat) == s(i));
        }
    }
    lemma_least_is(stops(s, keep), m + n);
}

/// The calls that report exhaustion.
pub open spec fn gaps<T>(s: Script<T>) -> spec_fn(nat) -> bool {
    |k: nat| s(k) is None
}

/// Some call reports exhaustion.
pub open spec fn ends<T>(s: Script<T>) -> bool {
    exists|k: nat| (#[trigger] s(k)) is None
}

/// The number of items before the first report of exhaustion.
pub open spec fn len<T>(s: Script<T>) -> nat {
    least(gaps(s))
}

/// Of a script that ends, `len` is the first call that reports exhaustion.
pub proof fn lemma_len<T>(s: Script<T>)
    requires
        ends(s),
    ensures
        s(len(s)) is None,
        forall|k: nat| k < len(s) ==> (#[trigger] s(k)) is Some,
{
    let k = choose|k: nat| (#[trigger] s(k)) is None;
    assert(gaps(s)(k));
    lemma_least(gaps(s), k);
    assert forall|i: nat| i < len(s) implies (#[trigger] s(i)) is Some by {
        assert(!gaps(s)(i));
    }
}

/// A call that reports exhaustion after `n` items bounds `len` by `n`; with
/// items at every earlier call it is `len`.
pub proof fn lemma_len_is<T>(s: Script<T>, n: nat)
    requires
        s(n) is None,
        forall|k: nat| k < n ==> (#[trigger] s(k)) is Some,
    ensures
        ends(s),
        len(s) == n,
{
    assert(gaps(s)(n));
    assert(is_least(gaps(s), n));
    lemma_least_is(gaps(s), n);
}

/// One call that gives an item moves the first report of exhaustion one
/// call nearer.
pub proof fn lemma_len_shift<T>(s: Script<T>)
    requires
        s(0) is Some,
        ends(shift(s, 1)),
    ensures
        ends(s),
        len(s) == len(shift(s, 1)) + 1,
{
    let t = shift(s, 1);
    lemma_len(t);
    let n = len(t);
    assert(s(n + 1) is None) by {
        assert(t(n) == s(n + 1));
    }
    assert forall|k: nat| k < n + 1 implies (#[trigger] s(k)) is Some by {
        if k > 0 {
            assert(t((k - 1) as nat) == s(k));
        }
    }
    lemma_len_is(s, n + 1);
}

/// The call that ends a run of calls which goes on to call `n` unless an
/// earlier call reports exhaustion.
pub open spec fn reach<T>(s: Script<T>, n: nat) -> nat {
    if ends(s) && len(s) < n {
        len(s)
    } else {
        n
    }
}

/// A run ends at call `i` where every earlier call gives an item and `i` is
/// `n` or reports exhaustion.
pub proof fn lemma_reach_is<T>(s: Script<T>, n: nat, i: nat)
    requires
        i <= n,
        forall|j: nat| j < i ==> (#[trigger] s(j)) is Some,
        i < n ==> s(i) is None,
    ensures
        reach(s, n) == i,
{
    if i < n {
        lemma_len_is(s, i);
    } else if ends(s) {
        lemma_len(s);
        if len(s) < n {
            assert(s(len(s)) is Some);
        }
    }
}

/// The number of items that the first `k` calls give.
pub open spec fn polls<T>(s: Script<T>, k: nat) -> nat
    decreases k,
{
    if k == 0 {
        0
    } else {
        polls(s, (k - 1) as nat) + if s((k - 1) as nat) is Some {
            1nat
        } else {
            0nat
        }
    }
}

/// The items of the first `k + 1` calls are that of the first call and
/// those of the `k` calls behind it.
pub proof fn lemma_polls_shift<T>(s: Script<T>, k: nat)
    ensures
        polls(s, k + 1) == polls(shift(s, 1), k) + if s(0) is Some {
            1nat
        } else {
            0nat
        },
    decreases k,
{
    if k > 0 {
        lemma_polls_shift(s, (k - 1) as nat);
        assert(shift(s, 1)((k - 1) as nat) == s(k));
    } else {
        assert(polls(s, 0) == 0);
        assert(polls(s, 1) == polls(s, 0) + if s(0) is Some {
            1nat
        } else {
            0nat
        });
    }
}

/// Calls that all give an item give as many items as there are calls.
pub proof fn lemma_polls_all<T>(s: Script<T>, k: nat)
    requires
        forall|j: nat| j < k ==> (#[trigger] s(j)) is Some,
    ensures
        polls(s, k) == k,
    decreases k,
{
    if k > 0 {
        lemma_polls_all(s, (k - 1) as nat);
        assert(s((k - 1) as nat) is Some);
    }
}

/// The items before the first report of exhaustion, in order.
pub open spec fn items<T>(s: Script<T>) -> Seq<T> {
    Seq::new(len(s), |k: int| s(k as nat)->0)
}

} // verus!
