use vstd::prelude::*;
use crate::lending_iter::{advanced, LendingIter};

verus! {

/// One call: a fused sequence that has seen a report of exhaustion stays as
/// it is; another one pulls, and marks a report of exhaustion.
pub open spec fn fuse_step<I: LendingIter>(before: Fuse<I>, after: Fuse<I>) -> bool {
    if before.avail {
        &&& advanced(before.iter, after.iter)
        &&& after.avail == before.iter.at(0) is Some
    } else {
        after == before
    }
}

/// Gives the items up to the first report of exhaustion, and from then on
/// reports exhaustion without pulling.
pub struct Fuse<I> {
    pub iter: I,
    pub avail: bool,
}

impl<I: LendingIter> LendingIter for Fuse<I> {
    type Item = I::Item;

    open spec fn wf(&self) -> bool {
        self.avail ==> self.iter.wf()
    }

    open spec fn at(&self, k: nat) -> Option<I::Item> {
        if self.avail && forall|j: nat| j <= k ==> (#[trigger] self.iter.at(j)) is Some {
            self.iter.at(k)
        } else {
            None
        }
    }

    fn next(&mut self) -> (item: Option<I::Item>)
        ensures
            fuse_step(*old(self), *final(self)),
    {
        if !self.avail {
            return None;
        }
        let ghost before = self.iter;
        match self.iter.next() {
            Some(a) => {
                proof {
                    assert forall|k: nat| #[trigger] self.at(k) == old(self).at(k + 1) by {
                        if forall|j: nat| j <= k ==> (#[trigger] self.iter.at(j)) is Some {
                            assert forall|j: nat| j <= k + 1 implies (#[trigger] before.at(j)) is Some by {
                                if j > 0 {
                                    assert(self.iter.at((j - 1) as nat) is Some);
                                }
                            }
                        } else {
                            let j = choose|j: nat| j <= k && !((#[trigger] self.iter.at(j)) is Some);
                            assert(before.at(j + 1) is None);
                        }
                    }
                }
                Some(a)
            },
            None => {
                self.avail = false;
                proof {
                    assert forall|k: nat| #[trigger] self.at(k) == old(self).at(k + 1) by {
                        assert(before.at(0) is None);
                    }
                }
                None
            },
        }
    }
}

} // verus!
