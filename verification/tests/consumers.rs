use std::cell::RefCell;

use lending_iter::constructors::from_fn::FromFn;
use lending_iter::prelude::{empty, from_fn, IntoLending, LendingIter, LendingIterExt};

type Tape = (Vec<Option<u32>>, usize);
type Replay = FromFn<Tape, fn(&Tape) -> (Tape, Option<u32>)>;

fn play(tape: &Tape) -> (Tape, Option<u32>) {
    let out = if tape.1 < tape.0.len() { tape.0[tape.1] } else { None };
    ((tape.0.clone(), tape.1 + 1), out)
}

fn replay(script: Vec<Option<u32>>) -> Replay {
    from_fn((script, 0), play as fn(&Tape) -> (Tape, Option<u32>))
}

#[test]
fn count_ends_at_the_first_report_of_exhaustion() {
    assert_eq!(vec![1u32, 2, 3].lending().count(), 3);
    assert_eq!(replay(vec![Some(1), None, Some(2)]).count(), 1);
    assert_eq!(empty::<u32>().count(), 0);
}

#[test]
fn size_hint_knows_nothing() {
    assert_eq!(vec![1u32, 2, 3].lending().size_hint(), (0, None));
}

#[test]
fn nth_gives_the_item_of_that_call() {
    let mut it = vec![10u32, 20, 30, 40].lending();
    assert_eq!(it.nth(2), Some(30));
    assert_eq!(it.next(), Some(40));
    let mut it = vec![10u32, 20].lending();
    assert_eq!(it.nth(0), Some(10));
    assert_eq!(it.nth(5), None);
}

#[test]
fn nth_ends_at_the_first_report_of_exhaustion() {
    let mut it = replay(vec![Some(1), None, Some(2), Some(3)]);
    assert_eq!(it.nth(2), None);
    assert_eq!(it.state.1, 2);
    assert_eq!(it.next(), Some(2));
}

#[test]
fn fold_takes_the_items_in_order() {
    let sum = vec![1u32, 2, 3].lending().fold(0u32, |acc: u32, x: u32| acc + x);
    assert_eq!(sum, 6);
    let digits = vec![1u32, 2, 3].lending().fold(0u32, |acc: u32, x: u32| acc * 10 + x);
    assert_eq!(digits, 123);
    assert_eq!(empty::<u32>().fold(7u32, |acc: u32, x: u32| acc + x), 7);
}

#[test]
fn all_ends_at_the_first_item_that_fails() {
    let mut it = vec![2u32, 4, 6].lending();
    assert!(it.all(|x: u32| x % 2 == 0));
    let mut it = vec![2u32, 3, 4].lending();
    assert!(!it.all(|x: u32| x % 2 == 0));
    assert_eq!(it.next(), Some(4));
    assert!(empty::<u32>().all(|_x: u32| false));
}

#[test]
fn any_ends_at_the_first_item_that_passes() {
    let mut it = vec![1u32, 3, 4, 5].lending();
    assert!(it.any(|x: u32| x % 2 == 0));
    assert_eq!(it.next(), Some(5));
    let mut it = vec![1u32, 3].lending();
    assert!(!it.any(|x: u32| x % 2 == 0));
    assert!(!empty::<u32>().any(|_x: u32| true));
}

#[test]
fn find_gives_the_first_item_that_passes() {
    let mut it = vec![1u32, 4, 6].lending();
    assert_eq!(it.find(|x: &u32| x % 2 == 0), Some(4));
    assert_eq!(it.next(), Some(6));
    let mut it = vec![1u32, 3].lending();
    assert_eq!(it.find(|x: &u32| x % 2 == 0), None);
}

#[test]
fn find_ends_at_a_report_of_exhaustion() {
    let mut it = replay(vec![Some(1), None, Some(4)]);
    assert_eq!(it.find(|x: &u32| x % 2 == 0), None);
    assert_eq!(it.find(|x: &u32| x % 2 == 0), Some(4));
}

#[test]
fn find_map_gives_the_first_result() {
    let mut it = vec![1u32, 2, 3].lending();
    assert_eq!(it.find_map(|x: u32| if x > 1 { Some(x * 10) } else { None }), Some(20));
    assert_eq!(it.next(), Some(3));
    let mut it = vec![1u32].lending();
    assert_eq!(it.find_map(|x: u32| if x > 1 { Some(x * 10) } else { None }), None);
}

#[test]
fn position_counts_the_calls_before_the_hit() {
    let mut it = vec![5u32, 6, 7, 8].lending();
    assert_eq!(it.position(|x: u32| x == 7), Some(2));
    assert_eq!(it.position(|x: u32| x == 8), Some(0));
    let mut it = vec![5u32, 6].lending();
    assert_eq!(it.position(|x: u32| x == 7), None);
}

#[test]
fn for_each_sees_every_item_before_exhaustion() {
    let seen = RefCell::new(Vec::new());
    replay(vec![Some(1), Some(2), None, Some(3)]).for_each(|x: u32| seen.borrow_mut().push(x));
    assert_eq!(*seen.borrow(), vec![1, 2]);
}

#[test]
fn by_ref_is_the_sequence_itself() {
    let mut it = vec![1u32, 2, 3].lending();
    assert_eq!(it.by_ref().next(), Some(1));
    assert_eq!(it.next(), Some(2));
}
