use vstd::prelude::*;

use crate::fixed::{fx_mul, Fx};
use crate::fxmath::{pow_fx, pow_spec};
use crate::resource::HasSamplerResources;
use crate::samplers::min_p::{find_threshold_cut, lemma_threshold_cut_range, threshold_cut};
use crate::types::{softmaxed_shape, Logit, Logits, SamplerError};

verus! {

/// Top-A sampling: prunes tokens whose probability falls below
/// `a1 * (highest probability) ^ a2`, keeping at least `min_keep` entries.
#[derive(Debug, Clone, Copy, PartialEq, Eq, Structural)]
pub struct SampleTopA {
    pub a1: Fx,
    pub a2: Fx,
    pub min_keep: usize,
}

impl SampleTopA {
    pub fn new(a1: Fx, a2: Fx, min_keep: usize) -> (r: SampleTopA)
        ensures
            r.a1 == a1,
            r.a2 == a2,
            r.min_keep == min_keep,
    {
        SampleTopA { a1, a2, min_keep }
    }

    /// Builder-style update of `min_keep`.
    pub fn min_keep(self, val: usize) -> (r: SampleTopA)
        ensures
            r == (SampleTopA { min_keep: val, ..self }),
    {
        SampleTopA { min_keep: val, ..self }
    }

    /// Builder-style update of `a1`.
    pub fn a1(self, val: Fx) -> (r: SampleTopA)
        ensures
            r == (SampleTopA { a1: val, ..self }),
    {
        SampleTopA { a1: val, ..self }
    }

    /// Builder-style update of `a2`.
    pub fn a2(self, val: Fx) -> (r: SampleTopA)
        ensures
            r == (SampleTopA { a2: val, ..self }),
    {
        SampleTopA { a2: val, ..self }
    }

    /// Softmax, then drop everything from the first entry (scanning from
    /// `max(1, min_keep)`) whose probability falls below
    /// `a1 * head^a2`. Zero for either parameter disables the stage, and a
    /// container no longer than `min_keep` is left whole.
    pub fn sample<R: HasSamplerResources>(&mut self, _res: &mut R, logits: &mut Logits) -> (r:
        Result<(), SamplerError>)
        requires
            old(logits).wf(),
        ensures
            r.is_ok(),
            final(logits).wf(),
            *final(_res) == *old(_res),
            old(self).a1.bits == 0 || old(self).a2.bits == 0 || old(logits)@.len() == 0 ==> *final(logits) == *old(logits),
            old(self).a1.bits != 0 && old(self).a2.bits != 0 && old(logits)@.len() > 0
                ==> exists|sm: Seq<Logit>|
                #![trigger softmaxed_shape(old(logits)@, sm)]
                softmaxed_shape(old(logits)@, sm) && final(logits)@ == (if sm.len() <= old(self).min_keep {
                    sm
                } else {
                    sm.subrange(
                        0,
                        threshold_cut(
                            sm,
                            fx_mul(
                                pow_spec(sm[0].prob.bits as int, old(self).a2.bits as int),
                                old(self).a1.bits as int,
                            ),
                            if old(self).min_keep > 1 {
                                old(self).min_keep as int
                            } else {
                                1
                            },
                        ),
                    )
                }),
            final(logits)@.len() < old(logits)@.len() ==> !final(logits).spec_softmax(),
    {
        let n = logits.len();
        if self.a1.bits == 0 || self.a2.bits == 0 || n == 0 {
            return Ok(());
        }
        let _ = logits.ensure_softmax();
        let ghost sm = logits@;
        if logits.len() <= self.min_keep {
            proof {
                assert(softmaxed_shape(old(logits)@, sm) && logits@ == sm);
            }
            return Ok(());
        }
        let head = logits.entry(0);
        assert(head.prob.bits >= 1);
        let powed = pow_fx(head.prob.bits, self.a2.bits);
        let threshold = Fx { bits: powed }.mul(self.a1);
        let start = if self.min_keep > 1 {
            self.min_keep
        } else {
            1
        };
        let cut = find_threshold_cut(logits, threshold.bits, start);
        logits.truncate(cut);
        proof {
            let th = fx_mul(
                pow_spec(sm[0].prob.bits as int, old(self).a2.bits as int),
                old(self).a1.bits as int,
            );
            lemma_threshold_cut_range(sm, th, start as int);
            assert(threshold.bits as int == th) by {
                assert(fx_mul(powed as int, old(self).a1.bits as int) == th);
            }
            assert(logits@ =~= sm.subrange(0, threshold_cut(sm, th, start as int)));
            assert(softmaxed_shape(old(logits)@, sm));
        }
        Ok(())
    }
}

impl Default for SampleTopA {
    /// The default threshold squares the head probability and scales by a
    /// fifth; at least one entry is kept.
    fn default() -> (r: SampleTopA)
        ensures
            r.min_keep == 1,
    {
        SampleTopA { a1: Fx { bits: 3355443 }, a2: Fx { bits: 33554432 }, min_keep: 1 }
    }
}

} // verus!
