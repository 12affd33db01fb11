use vstd::prelude::*;
use crate::fn_traits::{and_apply, OptionMapper};
use crate::lending_iter::{advanced, LendingIter};

verus! {

/// Gives the results that a transformation has for the items, up to the
/// first call without a result; from then on it reports exhaustion without
/// pulling.
pub struct MapWhile<I, F> {
    pub iter: I,
    pub pred: F,
    pub done: bool,
}

impl<I, F> LendingIter for MapWhile<I, F> where I: LendingIter, F: OptionMapper<I::Item> {
    type Item = F::Output;

    open spec fn wf(&self) -> bool {
        !self.done ==> {
            &&& self.iter.wf()
            &&& forall|k: nat| (#[trigger] self.iter.at(k)) matches Some(a) ==> self.pred.accepts(a)
        }
    }

    open spec fn at(&self, k: nat) -> Option<F::Output> {
        if !self.done && forall|j: nat|
            j <= k ==> and_apply(self.pred, #[trigger] self.iter.at(j)) is Some {
            and_apply(self.pred, self.iter.at(k))
        } else {
            None
        }
    }

    fn next(&mut self) -> (item: Option<F::Output>)
        ensures
            final(self).done == (old(self).done || item is None),
            old(self).done ==> *final(self) == *old(self),
            !old(self).done ==> final(self).pred == old(self).pred && advanced(
                old(self).iter,
                final(self).iter,
            ),
    {
        if self.done {
            return None;
        }
        let ghost before = self.iter;
        let made = match self.iter.next() {
            Some(a) => self.pred.call(a),
            None => None,
        };
        match made {
            Some(v) => {
                proof {
                    assert forall|k: nat| #[trigger] self.at(k) == old(self).at(k + 1) by {
                        if forall|j: nat|
                            j <= k ==> and_apply(self.pred, #[trigger] self.iter.at(j)) is Some {
                            assert forall|j: nat| j <= k + 1 implies and_apply(
                                self.pred,
                                #[trigger] before.at(j),
                            ) is Some by {
                                if j > 0 {
                                    assert(and_apply(self.pred, self.iter.at((j - 1) as nat)) is Some);
                                }
                            }
                        } else {
                            let j = choose|j: nat|
                                j <= k && !(and_apply(self.pred, #[trigger] self.iter.at(j)) is Some);
                            assert(and_apply(self.pred, before.at(j + 1)) is None);
                        }
                    }
                }
                Some(v)
            },
            None => {
                self.done = true;
                proof {
                    assert(and_apply(self.pred, before.at(0)) is None);
                }
                None
            },
        }
    }
}

} // verus!
