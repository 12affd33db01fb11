use vstd::prelude::*;
use vstd::arithmetic::div_mod::{lemma_mod_add_multiples_vanish, lemma_small_mod};
use crate::lending_iter::{advanced, LendingIter};

verus! {

/// The value of a call counter that started at `count`, after `k` more
/// calls: the counter starts again at zero behind `usize::MAX`.
pub open spec fn counted(count: usize, k: nat) -> usize {
    ((count + k) % (usize::MAX + 1)) as usize
}

/// Counting one call and then `k` calls is counting `k + 1` calls.
pub proof fn lemma_counted(count: usize, k: nat)
    ensures
        counted(counted(count, 1), k) == counted(count, k + 1),
        counted(count, 0) == count,
        counted(count, 1) == if count == usize::MAX {
            0
        } else {
            count + 1
        },
{
    let m = (usize::MAX + 1) as int;
    lemma_small_mod(count as nat, m as nat);
    if count == usize::MAX {
        lemma_mod_add_multiples_vanish(0, m);
        assert(counted(count, 1) == 0);
        lemma_mod_add_multiples_vanish(k as int, m);
        assert(count + (k + 1) == m + k);
    } else {
        lemma_small_mod((count + 1) as nat, m as nat);
    }
}

/// Pairs each item with the number of calls made before the one that gave it.
pub struct Enumerate<I> {
    pub iter: I,
    pub count: usize,
}

impl<I: LendingIter> LendingIter for Enumerate<I> {
    type Item = (usize, I::Item);

    open spec fn wf(&self) -> bool {
        self.iter.wf()
    }

    open spec fn at(&self, k: nat) -> Option<(usize, I::Item)> {
        match self.iter.at(k) {
            Some(a) => Some((counted(self.count, k), a)),
            None => None,
        }
    }

    fn next(&mut self) -> (item: Option<(usize, I::Item)>)
        ensures
            advanced(old(self).iter, final(self).iter),
            final(self).count == counted(old(self).count, 1),
            final(self).count == if old(self).count == usize::MAX {
                0
            } else {
                old(self).count + 1
            },
    {
        let item = match self.iter.next() {
            Some(a) => Some((self.count, a)),
            None => None,
        };
        proof {
            lemma_counted(self.count, 0);
            assert forall|k: nat| counted(counted(self.count, 1), k) == #[trigger] counted(
                self.count,
                k + 1,
            ) by {
                lemma_counted(self.count, k);
            }
        }
        if self.count == usize::MAX {
            self.count = 0;
        } else {
            self.count += 1;
        }
        item
    }
}

} // verus!
