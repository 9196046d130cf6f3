//! Chains of transformations applied one after another to a seed motif.
use vstd::prelude::*;

use crate::motif::{Motif, MotifView};
use crate::transform::{apply_view, can_apply, MotifTransform};

verus! {

/// A chain of transformations applied in order to a seed motif, keeping
/// every intermediate result.
#[derive(Debug, Clone, PartialEq)]
pub struct MotifChain {
    /// The seed motif.
    pub seed: Motif,
    /// The transformations applied, in order.
    pub transforms: Vec<MotifTransform>,
    /// The motif after all transformations.
    pub result: Motif,
    /// The seed followed by the motif after each transformation.
    pub intermediates: Vec<Motif>,
}

/// The motif obtained by applying `ts` in order to `seed`.
pub open spec fn chain_result(seed: MotifView, ts: Seq<MotifTransform>) -> MotifView
    decreases ts.len(),
{
    if ts.len() == 0 {
        seed
    } else {
        apply_view(ts.last(), chain_result(seed, ts.drop_last()))
    }
}

/// Whether each transformation of `ts` can be applied to the motif that the
/// transformations before it produce.
pub open spec fn chain_applicable(seed: MotifView, ts: Seq<MotifTransform>) -> bool
    decreases ts.len(),
{
    ts.len() == 0 || (chain_applicable(seed, ts.drop_last()) && can_apply(
        ts.last(),
        chain_result(seed, ts.drop_last()).elements,
    ))
}

impl MotifChain {
    /// The chain is consistent: the intermediates are the seed and each
    /// successive result, and `result` is the last of them.
    pub open spec fn wf(&self) -> bool {
        &&& chain_applicable(self.seed@, self.transforms@)
        &&& self.intermediates@.len() == self.transforms@.len() + 1
        &&& forall|k: int|
            0 <= k < self.intermediates@.len() ==> (#[trigger] self.intermediates@[k])@
                == chain_result(self.seed@, self.transforms@.take(k))
        &&& self.result@ == chain_result(self.seed@, self.transforms@)
    }

    /// Start a chain with no transformations.
    pub fn from_seed(seed: Motif) -> (c: MotifChain)
        ensures
            c.wf(),
            c.seed@ == seed@,
            c.transforms@.len() == 0,
    {
        let result = seed.clone();
        let first = seed.clone();
        let mut intermediates: Vec<Motif> = Vec::new();
        intermediates.push(first);
        let c = MotifChain { seed, transforms: Vec::new(), result, intermediates };
        assert(c.transforms@.take(0) =~= c.transforms@);
        c
    }

    /// Append a transformation, applied to the current result.
    pub fn then_apply(self, transform: MotifTransform) -> (c: MotifChain)
        requires
            can_apply(transform, self.result@.elements),
        ensures
            self.wf() ==> c.wf(),
            c.seed@ == self.seed@,
            c.transforms@ == self.transforms@.push(transform),
            c.result@ == apply_view(transform, self.result@),
            c.intermediates@.len() == self.intermediates@.len() + 1,
            forall|k: int|
                0 <= k < self.intermediates@.len() ==> #[trigger] c.intermediates@[k]
                    == self.intermediates@[k],
            c.intermediates@[self.intermediates@.len() as int]@ == apply_view(
                transform,
                self.result@,
            ),
    {
        let ghost was_wf = self.wf();
        let mut chain = self;
        let new_result = transform.apply(&chain.result);
        let ghost old_ts = chain.transforms@;
        let ghost old_ims = chain.intermediates@;
        chain.transforms.push(transform);
        chain.intermediates.push(new_result.clone());
        chain.result = new_result;
        let ghost ts = chain.transforms@;
        assert(ts.drop_last() =~= old_ts);
        proof {
            if was_wf {
                assert forall|k: int| 0 <= k < chain.intermediates@.len() implies (
                #[trigger] chain.intermediates@[k])@ == chain_result(chain.seed@, ts.take(k)) by {
                    if k < old_ims.len() {
                        assert(ts.take(k) =~= old_ts.take(k));
                        assert(chain.intermediates@[k] == old_ims[k]);
                    } else {
                        assert(ts.take(k) =~= ts);
                    }
                }
            }
        }
        chain
    }

    /// Number of transformations in the chain.
    pub fn depth(&self) -> (n: usize)
        ensures
            n == self.transforms@.len(),
    {
        self.transforms.len()
    }

    /// Whether the chain has no transformations.
    pub fn is_identity(&self) -> (b: bool)
        ensures
            b == (self.transforms@.len() == 0),
    {
        self.transforms.len() == 0
    }

    /// The motif after the first `step` transformations, if the chain has
    /// that many.
    pub fn at_step(&self, step: usize) -> (r: Option<&Motif>)
        ensures
            step < self.intermediates@.len() ==> (r matches Some(m) && m@
                == self.intermediates@[step as int]@),
            step >= self.intermediates@.len() ==> r is None,
    {
        if step < self.intermediates.len() {
            Some(&self.intermediates[step])
        } else {
            None
        }
    }

    /// Number of elements of the final result.
    pub fn result_len(&self) -> (n: usize)
        ensures
            n == self.result@.elements.len(),
    {
        self.result.len()
    }
}

} // verus!
