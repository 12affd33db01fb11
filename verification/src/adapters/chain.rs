use vstd::prelude::*;
use crate::adapters::fuse::{fuse_step, Fuse};
use crate::lending_iter::{advanced, lemma_script_step, script, LendingIter};
use crate::script::{len, lemma_len_is, lemma_len_shift};

verus! {

/// Gives the items of a first sequence up to its first report of
/// exhaustion, then those of a second one. The first sequence is never
/// pulled again behind that report.
pub struct Chain<I, J> {
    pub a: Fuse<I>,
    pub b: J,
}

impl<I, J> LendingIter for Chain<I, J> where I: LendingIter, J: LendingIter<Item = I::Item> {
    type Item = I::Item;

    open spec fn wf(&self) -> bool {
        &&& self.a.wf()
        &&& self.b.wf()
    }

    open spec fn at(&self, k: nat) -> Option<I::Item> {
        if self.a.at(k) is Some {
            self.a.at(k)
        } else {
            self.b.at((k - len(script(self.a))) as nat)
        }
    }

    fn next(&mut self) -> (item: Option<I::Item>)
        ensures
            fuse_step(old(self).a, final(self).a),
            old(self).a.at(0) is Some ==> final(self).b == old(self).b,
            old(self).a.at(0) is None ==> advanced(old(self).b, final(self).b),
    {
        let ghost a0 = self.a;
        let ghost b0 = self.b;
        match self.a.next() {
            Some(x) => {
                proof {
                    lemma_script_step(a0, self.a);
                    assert forall|k: nat| #[trigger] self.at(k) == old(self).at(k + 1) by {
                        if self.a.at(k) is None {
                            assert(script(self.a)(k) is None);
                            lemma_len_shift(script(a0));
                        }
                    }
                }
                Some(x)
            },
            None => {
                let item = self.b.next();
                proof {
                    lemma_len_is(script(a0), 0);
                    assert forall|k: nat| #[trigger] self.at(k) == old(self).at(k + 1) by {
                        assert(a0.at(k + 1) is None);
                        assert(self.a.at(0) is None);
                        lemma_len_is(script(self.a), 0);
                    }
                }
                item
            },
        }
    }
}

} // verus!
