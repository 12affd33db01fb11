use vstd::prelude::*;
use crate::lending_iter::LendingIter;

verus! {

/// A sequence over the items of an ordinary collection. The items are kept
/// last first, so that the next one can be taken off the end.
pub struct LendingWrapper<T> {
    pub iter: Vec<T>,
}

impl<T> LendingWrapper<T> {
    /// The items that are left, the next one first.
    pub open spec fn view(&self) -> Seq<T> {
        self.iter@.reverse()
    }
}

/// The script that gives the items of `items` in order and then reports
/// exhaustion for ever.
pub open spec fn listed<T>(items: Seq<T>, k: nat) -> Option<T> {
    if k < items.len() {
        Some(items[k as int])
    } else {
        None
    }
}

impl<T> LendingIter for LendingWrapper<T> {
    type Item = T;

    open spec fn wf(&self) -> bool {
        true
    }

    open spec fn at(&self, k: nat) -> Option<T> {
        listed(self@, k)
    }

    fn next(&mut self) -> (item: Option<T>)
        ensures
            final(self)@ == if old(self)@.len() > 0 {
                old(self)@.skip(1)
            } else {
                old(self)@
            },
    {
        let item = self.iter.pop();
        proof {
            if old(self)@.len() > 0 {
                assert(self@ =~= old(self)@.skip(1));
            } else {
                assert(self@ =~= old(self)@);
            }
        }
        item
    }
}

/// The ordinary collections that can be pulled as a sequence.
pub trait IntoLending: Sized {
    type LendingT: LendingIter;

    /// The items of the collection, in order.
    spec fn items(self) -> Seq<<Self::LendingT as LendingIter>::Item>;

    fn lending(self) -> (made: Self::LendingT)
        ensures
            made.wf(),
            forall|k: nat| #[trigger] made.at(k) == listed(self.items(), k),
    ;
}

impl<T> IntoLending for Vec<T> {
    type LendingT = LendingWrapper<T>;

    open spec fn items(self) -> Seq<T> {
        self@
    }

    /// The sequence of the items themselves.
    fn lending(self) -> (made: LendingWrapper<T>)
        ensures
            made@ == self@,
    {
        let mut from = self;
        let mut back: Vec<T> = Vec::new();
        while from.len() > 0
            invariant
                from@ + back@.reverse() == self@,
            decreases from.len(),
        {
            let ghost before = from@;
            let ghost held = back@;
            let last = from.pop().unwrap();
            back.push(last);
            proof {
                assert(back@.reverse() =~= seq![last] + held.reverse());
                assert(from@ + back@.reverse() =~= before + held.reverse());
            }
        }
        proof {
            assert(back@.reverse() =~= self@);
        }
        LendingWrapper { iter: back }
    }
}

impl<'a, T> IntoLending for &'a Vec<T> {
    type LendingT = LendingWrapper<&'a T>;

    open spec fn items(self) -> Seq<&'a T> {
        self@.map_values(|x: T| &x)
    }

    /// The sequence of shared borrows of the items.
    fn lending(self) -> (made: LendingWrapper<&'a T>)
        ensures
            made@ == self@.map_values(|x: T| &x),
    {
        let mut back: Vec<&'a T> = Vec::new();
        let mut i: usize = self.len();
        while i > 0
            invariant
                i <= self.len(),
                back@.len() == self.len() - i,
                forall|j: int| 0 <= j < back@.len() ==> *(#[trigger] back@[j]) == self@[self.len() - 1 - j],
            decreases i,
        {
            i -= 1;
            back.push(&self[i]);
        }
        proof {
            assert(back@.reverse() =~= self@.map_values(|x: T| &x));
        }
        LendingWrapper { iter: back }
    }
}

} // verus!
