use vstd::prelude::*;

use crate::fixed::Fx;
use crate::resource::HasSamplerResources;
use crate::samplers::locally_typical::locally_typical_pass;
use crate::samplers::locally_typical::lt_result;
use crate::types::{Logits, SamplerError};

verus! {

/// Typical sampling: the same entropy-deviation pass as locally typical
/// sampling, under its older name.
#[derive(Debug, Clone, Copy, PartialEq, Eq, Structural)]
pub struct SampleTypical {
    pub p: Fx,
    pub min_keep: usize,
}

impl SampleTypical {
    pub fn new(p: Fx, min_keep: usize) -> (r: SampleTypical)
        ensures
            r.p == p,
            r.min_keep == min_keep,
    {
        SampleTypical { p, min_keep }
    }

    /// Run the shared typical-sampling pass.
    pub fn sample<R: HasSamplerResources>(&mut self, res: &mut R, logits: &mut Logits) -> (r:
        Result<(), SamplerError>)
        requires
            old(logits).wf(),
        ensures
            r.is_ok(),
            final(logits).wf(),
            *final(res) == *old(res),
            old(logits)@.len() == 0 ==> *final(logits) == *old(logits),
            old(logits)@.len() > 0 ==> lt_result(
                old(logits)@,
                final(logits)@,
                old(self).p.bits as int,
                old(self).min_keep as int,
            ),
    {
        locally_typical_pass(self.p, self.min_keep, res, logits)
    }
}

} // verus!
