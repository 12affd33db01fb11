use vstd::prelude::*;
use crate::adapters::filter::filter_at;
use crate::fn_traits::{and_apply, yields, OptionMapper};
use crate::lending_iter::{lemma_script_at, lemma_script_step, script, LendingIter};
use crate::script::{
    always_halts, halts, lemma_always_halts, lemma_search_step, lemma_shift_shift, shift, stop,
    stops,
};

verus! {

/// Pulls from `iter` until a call reports exhaustion or gives an item for
/// which `f` gives a result, and gives back that result.
pub(crate) fn seek_map<I: LendingIter, F: OptionMapper<I::Item>>(iter: &mut I, f: &mut F) -> (item: Option<
    F::Output,
>)
    requires
        old(iter).wf(),
        halts(script(*old(iter)), yields(*old(f))),
        forall|k: nat| (#[trigger] old(iter).at(k)) matches Some(a) ==> old(f).accepts(a),
    ensures
        final(iter).wf(),
        *final(f) == *old(f),
        item == and_apply(*old(f), old(iter).at(stop(script(*old(iter)), yields(*old(f))))),
        script(*final(iter)) == shift(script(*old(iter)), stop(script(*old(iter)), yields(*old(f))) + 1),
{
    let ghost s0 = script(*iter);
    let ghost keep = yields(*f);
    let ghost mut i: nat = 0;
    proof {
        lemma_shift_shift(s0, 0, 0);
    }
    loop
        invariant
            iter.wf(),
            *f == *old(f),
            s0 == script(*old(iter)),
            keep == yields(*f),
            halts(s0, keep),
            forall|k: nat| (#[trigger] s0(k)) matches Some(a) ==> f.accepts(a),
            script(*iter) == shift(s0, i),
            forall|j: nat| j < i ==> !#[trigger] stops(s0, keep)(j),
            i <= stop(s0, keep),
        decreases stop(s0, keep) - i,
    {
        let ghost before = *iter;
        let pulled = iter.next();
        proof {
            lemma_script_at(before, s0, i);
            lemma_script_step(before, *iter);
            lemma_shift_shift(s0, i, 1);
            lemma_search_step(s0, keep, i);
            assert(pulled == s0(i));
        }
        match pulled {
            None => {
                proof {
                    assert(stops(s0, keep)(i));
                }
                return None;
            },
            Some(a) => {
                let made = f.call(a);
                proof {
                    assert(stops(s0, keep)(i) == made is Some);
                }
                if made.is_some() {
                    return made;
                }
            },
        }
        proof {
            i = i + 1;
        }
    }
}

/// Gives the results that a transformation has for the items.
pub struct FilterMap<I, F> {
    pub iter: I,
    pub filter: F,
}

impl<I, F> LendingIter for FilterMap<I, F> where I: LendingIter, F: OptionMapper<I::Item> {
    type Item = F::Output;

    open spec fn wf(&self) -> bool {
        &&& self.iter.wf()
        &&& forall|k: nat| (#[trigger] self.iter.at(k)) matches Some(a) ==> self.filter.accepts(a)
        &&& always_halts(script(self.iter), yields(self.filter))
    }

    open spec fn at(&self, k: nat) -> Option<F::Output> {
        and_apply(self.filter, filter_at(script(self.iter), yields(self.filter), k))
    }

    fn next(&mut self) -> (item: Option<F::Output>)
        ensures
            final(self).filter == old(self).filter,
            script(final(self).iter) == shift(
                script(old(self).iter),
                stop(script(old(self).iter), yields(old(self).filter)) + 1,
            ),
    {
        let ghost s0 = script(self.iter);
        let ghost keep = yields(self.filter);
        proof {
            lemma_always_halts(s0, keep, 0);
            lemma_always_halts(s0, keep, stop(s0, keep) + 1);
        }
        let item = seek_map(&mut self.iter, &mut self.filter);
        proof {
            lemma_script_at(self.iter, s0, stop(s0, keep) + 1);
        }
        item
    }
}

} // verus!
