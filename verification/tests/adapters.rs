use std::cell::RefCell;

use lending_iter::adapters::Enumerate;
use lending_iter::constructors::from_fn::FromFn;
use lending_iter::constructors::from_iter::LendingWrapper;
use lending_iter::prelude::{from_fn, IntoLending, LendingIter, LendingIterExt};

type Tape = (Vec<Option<u32>>, usize);
type Replay = FromFn<Tape, fn(&Tape) -> (Tape, Option<u32>)>;

fn play(tape: &Tape) -> (Tape, Option<u32>) {
    let out = if tape.1 < tape.0.len() { tape.0[tape.1] } else { None };
    ((tape.0.clone(), tape.1 + 1), out)
}

/// A sequence that gives the entries of `script` and then nothing; the
/// second part of its state counts the calls made on it.
fn replay(script: Vec<Option<u32>>) -> Replay {
    from_fn((script, 0), play as fn(&Tape) -> (Tape, Option<u32>))
}

fn collect<I: LendingIter>(mut it: I) -> Vec<I::Item> {
    let mut out = Vec::new();
    while let Some(x) = it.next() {
        out.push(x);
    }
    out
}

fn calls<I: LendingIter>(it: &mut I, n: usize) -> Vec<Option<I::Item>> {
    let mut out = Vec::new();
    for _ in 0..n {
        out.push(it.next());
    }
    out
}

#[test]
fn step_by_gives_the_first_and_then_every_third() {
    let it = vec![1u32, 2, 3, 4, 5, 6, 7].lending().step_by(3);
    assert_eq!(collect(it), vec![1, 4, 7]);
}

#[test]
fn step_by_one_gives_every_item() {
    let it = vec![1u32, 2, 3].lending().step_by(1);
    assert_eq!(collect(it), vec![1, 2, 3]);
}

#[test]
fn step_by_gives_up_at_a_report_of_exhaustion() {
    let mut it = replay(vec![Some(1), Some(2), None, Some(3), Some(4), Some(5)]).step_by(2);
    assert_eq!(calls(&mut it, 4), vec![Some(1), None, Some(4), None]);
    assert_eq!(it.iter.state.1, 7);
}

#[test]
fn chain_never_pulls_the_first_again() {
    let mut it = replay(vec![Some(1), None, Some(2)]).chain(vec![9u32, 8].lending());
    assert_eq!(calls(&mut it, 5), vec![Some(1), Some(9), Some(8), None, None]);
    assert_eq!(it.a.iter.state.1, 2);
    assert!(!it.a.avail);
}

#[test]
fn zip_of_three_and_five_gives_three_pairs() {
    let mut it = vec![1u32, 2, 3].lending().zip(vec![10u32, 20, 30, 40, 50].lending());
    assert_eq!(
        calls(&mut it, 4),
        vec![Some((1, 10)), Some((2, 20)), Some((3, 30)), None]
    );
    assert_eq!(it.b.next(), Some(40));
}

#[test]
fn zip_loses_the_item_whose_partner_is_missing() {
    let mut it = vec![1u32, 2, 3].lending().zip(vec![10u32].lending());
    assert_eq!(calls(&mut it, 3), vec![Some((1, 10)), None, None]);
    assert_eq!(it.a.next(), None);
}

#[test]
fn zip_goes_on_when_the_first_resumes() {
    let mut it = replay(vec![Some(1), None, Some(2)]).zip(vec![10u32, 20].lending());
    assert_eq!(calls(&mut it, 4), vec![Some((1, 10)), None, Some((2, 20)), None]);
}

#[test]
fn map_applies_the_function_to_each_item() {
    let it = vec![1u32, 2, 3].lending().map(|x: u32| x * 2);
    assert_eq!(collect(it), vec![2, 4, 6]);
}

#[test]
fn filter_pulls_past_the_items_that_fail() {
    let mut it = vec![1u32, 3, 5, 6, 7].lending().filter(|x: &u32| x % 2 == 0);
    assert_eq!(it.next(), Some(6));
    assert_eq!(it.iter.iter.len(), 1);
    assert_eq!(it.next(), None);
}

#[test]
fn filter_asks_its_source_again_after_exhaustion() {
    let mut it = replay(vec![Some(1), Some(3), None, Some(4)]).filter(|x: &u32| x % 2 == 0);
    assert_eq!(it.next(), None);
    assert_eq!(it.iter.state.1, 3);
    assert_eq!(it.next(), Some(4));
}

#[test]
fn filter_map_gives_the_results_that_exist() {
    let it = vec![1u32, 2, 3, 4]
        .lending()
        .filter_map(|x: u32| if x % 2 == 0 { Some(x / 2) } else { None });
    assert_eq!(collect(it), vec![1, 2]);
}

#[test]
fn filter_map_asks_its_source_again_after_exhaustion() {
    let mut it = replay(vec![Some(1), None, Some(3), Some(8)])
        .filter_map(|x: u32| if x % 2 == 0 { Some(x + 1) } else { None });
    assert_eq!(calls(&mut it, 3), vec![None, Some(9), None]);
}

#[test]
fn enumerate_counts_every_call() {
    let mut it = replay(vec![Some(7), None, Some(8)]).enumerate();
    assert_eq!(calls(&mut it, 4), vec![Some((0, 7)), None, Some((2, 8)), None]);
    assert_eq!(it.count, 4);
}

#[test]
fn enumerate_starts_again_at_zero_behind_the_largest_number() {
    let mut it = Enumerate { iter: vec![5u32, 6, 7].lending(), count: usize::MAX - 1 };
    assert_eq!(
        calls(&mut it, 3),
        vec![Some((usize::MAX - 1, 5)), Some((usize::MAX, 6)), Some((0, 7))]
    );
}

#[test]
fn skip_while_tests_no_item_behind_the_first_that_fails() {
    let it = vec![1u32, 2, 5, 1, 2].lending().skip_while(|x: &u32| *x < 3);
    assert_eq!(collect(it), vec![5, 1, 2]);
}

#[test]
fn skip_while_stops_testing_at_a_report_of_exhaustion() {
    let mut it = replay(vec![Some(1), None, Some(2), Some(5)]).skip_while(|x: &u32| *x < 3);
    assert!(!it.done);
    assert_eq!(it.next(), None);
    assert!(it.done);
    assert_eq!(calls(&mut it, 3), vec![Some(2), Some(5), None]);
}

#[test]
fn take_while_tests_every_call_anew() {
    let mut it = vec![1u32, 2, 9, 3].lending().take_while(|x: &u32| *x < 5);
    assert_eq!(calls(&mut it, 5), vec![Some(1), Some(2), None, Some(3), None]);
}

#[test]
fn map_while_stops_for_good_at_the_first_missing_result() {
    let mut it =
        replay(vec![Some(1), Some(2), Some(9), Some(3)]).map_while(|x: u32| if x < 5 { Some(x * 2) } else { None });
    assert_eq!(calls(&mut it, 5), vec![Some(2), Some(4), None, None, None]);
    assert_eq!(it.iter.state.1, 3);
    assert!(it.done);
}

#[test]
fn map_while_stops_for_good_at_a_report_of_exhaustion() {
    let mut it = replay(vec![Some(1), None, Some(2)]).map_while(|x: u32| Some(x * 2));
    assert_eq!(calls(&mut it, 4), vec![Some(2), None, None, None]);
    assert_eq!(it.iter.state.1, 2);
}

#[test]
fn skip_drops_the_first_items() {
    let it = vec![1u32, 2, 3, 4].lending().skip(2);
    assert_eq!(collect(it), vec![3, 4]);
    let mut it = vec![1u32].lending().skip(3);
    assert_eq!(it.next(), None);
    assert_eq!(it.n, 2);
}

#[test]
fn skip_keeps_count_across_a_report_of_exhaustion() {
    let mut it = replay(vec![Some(1), None, Some(2), Some(3), Some(4)]).skip(2);
    assert_eq!(it.next(), None);
    assert_eq!(it.n, 1);
    assert_eq!(calls(&mut it, 3), vec![Some(3), Some(4), None]);
    assert_eq!(it.n, 0);
}

#[test]
fn take_gives_at_most_n_items_and_then_pulls_no_more() {
    let mut it = replay(vec![Some(1), Some(2), Some(3)]).take(2);
    assert_eq!(calls(&mut it, 4), vec![Some(1), Some(2), None, None]);
    assert_eq!(it.iter.state.1, 2);
    let mut it = replay(vec![Some(1)]).take(0);
    assert_eq!(it.next(), None);
    assert_eq!(it.iter.state.1, 0);
}

#[test]
fn take_counts_calls_not_items() {
    let mut it = replay(vec![Some(1), None, Some(2), Some(3)]).take(3);
    assert_eq!(calls(&mut it, 4), vec![Some(1), None, Some(2), None]);
}

#[test]
fn scan_folds_and_shows_each_step() {
    let it = vec![1u32, 2, 3].lending().scan(0u32, |st: &u32, x: u32| (*st + x, Some(*st + x)));
    assert_eq!(collect(it), vec![1, 3, 6]);
}

#[test]
fn scan_goes_on_behind_a_step_without_result() {
    let mut it = vec![1u32, 1, 1].lending().scan(0u32, |st: &u32, x: u32| {
        let sum = *st + x;
        (sum, if sum % 2 == 1 { Some(sum) } else { None })
    });
    assert_eq!(calls(&mut it, 4), vec![Some(1), None, Some(3), None]);
    assert_eq!(it.state, 3);
}

#[test]
fn flat_map_drains_each_inner_sequence_in_turn() {
    let it = vec![2u32, 0, 1, 3]
        .lending()
        .flat_map(|x: u32| -> LendingWrapper<u32> { vec![x; x as usize].lending() });
    assert_eq!(collect(it), vec![2, 2, 1, 3, 3, 3]);
}

#[test]
fn flat_map_reports_exhaustion_when_the_outer_sequence_does() {
    let mut it = replay(vec![Some(1), None, Some(2)])
        .flat_map(|x: u32| -> LendingWrapper<u32> { vec![x * 10, x * 10 + 1].lending() });
    assert_eq!(
        calls(&mut it, 6),
        vec![Some(10), Some(11), None, Some(20), Some(21), None]
    );
}

#[test]
fn flatten_gives_the_items_of_the_inner_sequences() {
    let inner = vec![vec![1u32, 2].lending(), Vec::new().lending(), vec![3u32].lending()];
    let it = inner.lending().flatten();
    assert_eq!(collect(it), vec![1, 2, 3]);
}

#[test]
fn fuse_stays_exhausted() {
    let mut it = replay(vec![Some(1), None, Some(2)]).fuse();
    assert_eq!(calls(&mut it, 4), vec![Some(1), None, None, None]);
    assert_eq!(it.iter.state.1, 2);
    assert!(!it.avail);
}

#[test]
fn inspect_shows_each_item_and_gives_it_on() {
    let seen = RefCell::new(Vec::new());
    let it = vec![1u32, 2, 3].lending().inspect(|x: &u32| seen.borrow_mut().push(*x));
    assert_eq!(collect(it), vec![1, 2, 3]);
    assert_eq!(*seen.borrow(), vec![1, 2, 3]);
}
