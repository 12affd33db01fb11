use lending_iter::fn_traits::{Folder, Identity, IterMapper, Mapper, OptionMapper, Predicate, Scanner};
use lending_iter::constructors::from_fn::LendingIterNext;
use lending_iter::prelude::{empty, from_fn, IntoLending, LendingIter, LendingIterExt};

#[test]
fn empty_gives_nothing() {
    let mut it = empty::<u8>();
    assert_eq!(it.next(), None);
    assert_eq!(it.next(), None);
}

#[test]
fn from_fn_counts_to_three_and_stays_exhausted() {
    let mut it = from_fn(0u32, |s: &u32| {
        let n = *s + 1;
        (n, if n <= 3 { Some(n) } else { None })
    });
    assert_eq!(it.next(), Some(1));
    assert_eq!(it.next(), Some(2));
    assert_eq!(it.next(), Some(3));
    assert_eq!(it.next(), None);
    assert_eq!(it.next(), None);
}

#[test]
fn from_fn_calls_the_generator_again_after_exhaustion() {
    let mut it = from_fn(0u32, |s: &u32| {
        let n = *s + 1;
        (n, if n <= 3 { Some(n) } else { None })
    });
    for _ in 0..5 {
        it.next();
    }
    assert_eq!(it.state, 5);
    let mut it = from_fn(0u32, |s: &u32| (*s + 1, if *s % 2 == 1 { Some(*s) } else { None }));
    assert_eq!(it.next(), None);
    assert_eq!(it.next(), Some(1));
    assert_eq!(it.next(), None);
    assert_eq!(it.next(), Some(3));
}

#[test]
fn a_vector_gives_its_items_in_order() {
    let mut it = vec![3u32, 1, 2].lending();
    assert_eq!(it.next(), Some(3));
    assert_eq!(it.next(), Some(1));
    assert_eq!(it.next(), Some(2));
    assert_eq!(it.next(), None);
    assert_eq!(it.next(), None);
    let mut none = Vec::<u32>::new().lending();
    assert_eq!(none.next(), None);
}

#[test]
fn a_borrowed_vector_gives_borrows_of_its_items() {
    let v = vec![String::from("a"), String::from("b")];
    let mut it = (&v).lending();
    assert_eq!(it.next(), Some(&v[0]));
    assert_eq!(it.next(), Some(&v[1]));
    assert_eq!(it.next(), None);
    assert_eq!(v.len(), 2);
}

#[test]
fn closures_are_callbacks() {
    let mut double = |x: u32| x * 2;
    assert_eq!(Mapper::call(&mut double, 4), 8);
    let mut half = |x: u32| if x % 2 == 0 { Some(x / 2) } else { None };
    assert_eq!(OptionMapper::call(&mut half, 4), Some(2));
    assert_eq!(OptionMapper::call(&mut half, 5), None);
    let mut small = |x: &u32| *x < 3;
    assert!(Predicate::call(&mut small, &2));
    assert!(!Predicate::call(&mut small, &3));
    let mut add = |acc: u32, x: u32| acc + x;
    assert_eq!(Folder::call(&mut add, 1, 2), 3);
    let mut sum = |st: &u32, x: u32| (*st + x, Some(*st * x));
    let mut state = 3u32;
    assert_eq!(Scanner::call(&mut sum, &mut state, 4), Some(12));
    assert_eq!(state, 7);
    let mut gen = |st: &u32| (*st + 1, Some(*st * 2));
    let mut state = 5u32;
    assert_eq!(LendingIterNext::next(&mut gen, &mut state), Some(10));
    assert_eq!(state, 6);
    let mut same = Identity;
    assert_eq!(Mapper::call(&mut same, 9u8), 9);
    let mut pair = |x: u32| vec![x, x + 1].lending();
    let mut made = IterMapper::call(&mut pair, 4);
    assert_eq!(made.next(), Some(4));
    assert_eq!(made.next(), Some(5));
    assert_eq!(made.next(), None);
}
