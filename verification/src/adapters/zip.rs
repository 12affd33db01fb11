use vstd::prelude::*;
use crate::lending_iter::{advanced, lemma_script_step, script, LendingIter};
use crate::script::{lemma_polls_shift, polls};

verus! {

/// Pairs the items of two sequences. The second one is pulled only when the
/// first one has given an item.
pub struct Zip<I, J> {
    pub a: I,
    pub b: J,
}

impl<I: LendingIter, J: LendingIter> LendingIter for Zip<I, J> {
    type Item = (I::Item, J::Item);

    open spec fn wf(&self) -> bool {
        &&& self.a.wf()
        &&& self.b.wf()
    }

    open spec fn at(&self, k: nat) -> Option<(I::Item, J::Item)> {
        match self.a.at(k) {
            None => None,
            Some(x) => match self.b.at(polls(script(self.a), k)) {
                Some(y) => Some((x, y)),
                None => None,
            },
        }
    }

    fn next(&mut self) -> (item: Option<(I::Item, J::Item)>)
        ensures
            advanced(old(self).a, final(self).a),
            old(self).a.at(0) is Some ==> advanced(old(self).b, final(self).b),
            old(self).a.at(0) is None ==> final(self).b == old(self).b,
    {
        let ghost a0 = self.a;
        proof {
            assert(polls(script(a0), 0) == 0);
        }
        let first = self.a.next();
        proof {
            lemma_script_step(a0, self.a);
            assert forall|k: nat| polls(script(a0), k + 1) == #[trigger] polls(script(self.a), k) + if a0.at(
                0,
            ) is Some {
                1nat
            } else {
                0nat
            } by {
                lemma_polls_shift(script(a0), k);
            }
        }
        match first {
            None => None,
            Some(x) => match self.b.next() {
                Some(y) => Some((x, y)),
                None => None,
            },
        }
    }
}

} // verus!
