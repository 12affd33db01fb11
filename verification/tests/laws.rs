use lending_iter::constructors::from_fn::FromFn;
use lending_iter::prelude::{empty, from_fn, IntoLending, LendingIter, LendingIterExt};

type Tape = (Vec<Option<u32>>, usize);
type Replay = FromFn<Tape, fn(&Tape) -> (Tape, Option<u32>)>;

fn play(tape: &Tape) -> (Tape, Option<u32>) {
    let out = if tape.1 < tape.0.len() { tape.0[tape.1] } else { None };
    ((tape.0.clone(), tape.1 + 1), out)
}

fn replay(script: Vec<Option<u32>>) -> Replay {
    from_fn((script, 0), play as fn(&Tape) -> (Tape, Option<u32>))
}

fn collect<I: LendingIter>(mut it: I) -> Vec<I::Item> {
    let mut out = Vec::new();
    while let Some(x) = it.next() {
        out.push(x);
    }
    out
}

fn calls<I: LendingIter>(it: &mut I, n: usize) -> Vec<Option<I::Item>> {
    let mut out = Vec::new();
    for _ in 0..n {
        out.push(it.next());
    }
    out
}

#[test]
fn chaining_the_empty_sequence_behind_keeps_the_count() {
    assert_eq!(vec![1u32, 2, 3].lending().chain(empty()).count(), 3);
    assert_eq!(vec![1u32, 2, 3].lending().count(), 3);
    assert_eq!(collect(vec![1u32, 2, 3].lending().chain(empty())), vec![1, 2, 3]);
}

#[test]
fn chaining_behind_the_empty_sequence_keeps_every_call() {
    let mut chained = empty().chain(replay(vec![Some(1), None, Some(2)]));
    let mut alone = replay(vec![Some(1), None, Some(2)]);
    assert_eq!(calls(&mut chained, 5), calls(&mut alone, 5));
}

#[test]
fn mapping_twice_is_mapping_with_the_composition() {
    let twice = vec![1u32, 2, 3].lending().map(|x: u32| x + 1).map(|x: u32| x * 10);
    let once = vec![1u32, 2, 3].lending().map(|x: u32| (x + 1) * 10);
    assert_eq!(collect(twice), vec![20, 30, 40]);
    assert_eq!(collect(once), vec![20, 30, 40]);
}

#[test]
fn filtering_twice_is_filtering_with_both_tests() {
    let script = vec![Some(1), Some(6), None, Some(12), Some(4), Some(9), Some(18)];
    let mut twice =
        replay(script.clone()).filter(|x: &u32| x % 2 == 0).filter(|x: &u32| x % 3 == 0);
    let mut once = replay(script).filter(|x: &u32| x % 2 == 0 && x % 3 == 0);
    let expected = vec![Some(6), None, Some(12), Some(18), None];
    assert_eq!(calls(&mut twice, 5), expected);
    assert_eq!(calls(&mut once, 5), expected);
}

#[test]
fn taking_gives_the_smaller_of_the_budget_and_the_count() {
    for n in 0..6usize {
        let taken = vec![1u32, 2, 3].lending().take(n).count();
        assert_eq!(taken, n.min(3));
    }
}

#[test]
fn skipping_and_then_taking_does_not_give_the_sequence_back() {
    let it = vec![1u32, 2, 3, 4, 5].lending().skip(2).chain(vec![1u32, 2, 3, 4, 5].lending().take(2));
    assert_eq!(collect(it), vec![3, 4, 5, 1, 2]);
}

#[test]
fn a_sequence_goes_on_where_taking_left_off() {
    let mut taken = vec![1u32, 2, 3, 4, 5].lending().take(2);
    assert_eq!(calls(&mut taken, 3), vec![Some(1), Some(2), None]);
    assert_eq!(collect(taken.iter), vec![3, 4, 5]);
}

#[test]
fn a_fused_sequence_stays_exhausted() {
    let mut fused = replay(vec![Some(1), None, Some(2), Some(3)]).fuse();
    assert_eq!(calls(&mut fused, 6), vec![Some(1), None, None, None, None, None]);
    let mut plain = replay(vec![Some(1), None, Some(2), Some(3)]);
    assert_eq!(calls(&mut plain, 4), vec![Some(1), None, Some(2), Some(3)]);
}

#[test]
fn zipping_three_with_five_gives_three_pairs() {
    let it = vec![1u32, 2, 3].lending().zip(vec![1u32, 2, 3, 4, 5].lending());
    assert_eq!(it.count(), 3);
}

#[test]
fn filter_then_map_keeps_even_items_times_ten() {
    let it = vec![1u32, 2, 3, 4, 5]
        .lending()
        .filter(|x: &u32| x % 2 == 0)
        .map(|x: u32| x * 10);
    assert_eq!(collect(it), vec![20, 40]);
}

#[test]
fn chain_then_enumerate() {
    let it = vec![1u32, 2, 3].lending().chain(vec![4u32, 5].lending());
    assert_eq!(collect(it), vec![1, 2, 3, 4, 5]);
    let it = vec![1u32, 2, 3].lending().chain(vec![4u32, 5].lending()).enumerate();
    assert_eq!(collect(it), vec![(0, 1), (1, 2), (2, 3), (3, 4), (4, 5)]);
}
