use vstd::prelude::*;
use crate::adapters::flat_map::{drain, flat_at, flat_inner, flat_outer, maker, starts};
use crate::fn_traits::Identity;
use crate::lending_iter::{script, script_or_silent, LendingIter};
use crate::script::{always_halts, Script};

verus! {

/// The script of each sequence, as a function of the sequence.
pub open spec fn scripts<J: LendingIter>() -> spec_fn(J) -> Script<J::Item> {
    |j: J| script(j)
}

/// Gives the items of the sequences that a sequence of sequences gives, one
/// sequence after the other.
pub struct Flatten<I, J> {
    pub iter: I,
    pub curr: Option<J>,
}

impl<I, J> LendingIter for Flatten<I, J> where J: LendingIter, I: LendingIter<Item = J> {
    type Item = J::Item;

    open spec fn wf(&self) -> bool {
        &&& self.iter.wf()
        &&& self.curr matches Some(j) ==> j.wf()
        &&& forall|k: nat| (#[trigger] self.iter.at(k)) matches Some(j) ==> j.wf()
        &&& always_halts(script(self.iter), starts(scripts()))
    }

    open spec fn at(&self, k: nat) -> Option<J::Item> {
        flat_at(script(self.iter), script_or_silent(self.curr), scripts(), k)
    }

    fn next(&mut self) -> (item: Option<J::Item>)
        ensures
            script(final(self).iter) == flat_outer(
                script(old(self).iter),
                script_or_silent(old(self).curr),
                scripts(),
            ),
            script_or_silent(final(self).curr) == flat_inner(
                script(old(self).iter),
                script_or_silent(old(self).curr),
                scripts(),
            ),
    {
        let mut same = Identity;
        proof {
            assert(maker::<J, J, Identity>(same) =~= scripts::<J>());
        }
        drain(&mut self.iter, &mut self.curr, &mut same)
    }
}

} // verus!
