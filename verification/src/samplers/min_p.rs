use vstd::prelude::*;

use crate::fixed::{fx_mul, Fx};
use crate::resource::HasSamplerResources;
use crate::types::{softmaxed_shape, Logit, Logits, SamplerError};

verus! {

/// The first position at or after `start` whose probability falls below the
/// threshold, or the length when none does.
pub open spec fn threshold_cut(s: Seq<Logit>, threshold: int, start: int) -> int
    decreases s.len() - start when 0 <= start <= s.len()
{
    if start >= s.len() {
        s.len() as int
    } else if (s[start].prob.bits as int) < threshold {
        start
    } else {
        threshold_cut(s, threshold, start + 1)
    }
}

/// The threshold cut lies between `start` and the length.
pub proof fn lemma_threshold_cut_range(s: Seq<Logit>, threshold: int, start: int)
    requires
        0 <= start <= s.len(),
    ensures
        start <= threshold_cut(s, threshold, start) <= s.len(),
    decreases s.len() - start,
{
    if start < s.len() && !((s[start].prob.bits as int) < threshold) {
        lemma_threshold_cut_range(s, threshold, start + 1);
    }
}

/// Scan for the threshold cut.
pub(crate) fn find_threshold_cut(logits: &Logits, threshold: i64, start: usize) -> (r: usize)
    requires
        start <= logits@.len(),
    ensures
        r as int == threshold_cut(logits@, threshold as int, start as int),
        start <= r <= logits@.len(),
{
    let n = logits.len();
    let mut i: usize = start;
    while i < n
        invariant
            start <= i <= n,
            n == logits@.len(),
            threshold_cut(logits@, threshold as int, start as int) == threshold_cut(
                logits@,
                threshold as int,
                i as int,
            ),
            forall|j: int|
                start <= j < i ==> !(((#[trigger] logits@[j]).prob.bits as int) < threshold),
        decreases n - i,
    {
        if logits.entry(i).prob.bits < threshold {
            return i;
        }
        i = i + 1;
    }
    n
}

/// Min-P sampling: prunes tokens whose probability falls below a fraction
/// `p` of the most probable token's, keeping at least `min_keep` entries.
#[derive(Debug, Clone, Copy, PartialEq, Eq, Structural)]
pub struct SampleMinP {
    pub p: Fx,
    pub min_keep: usize,
}

impl SampleMinP {
    pub fn new(p: Fx, min_keep: usize) -> (r: SampleMinP)
        ensures
            r.p == p,
            r.min_keep == min_keep,
    {
        SampleMinP { p, min_keep }
    }

    /// Builder-style update of `min_keep`.
    pub fn min_keep(self, val: usize) -> (r: SampleMinP)
        ensures
            r == (SampleMinP { min_keep: val, ..self }),
    {
        SampleMinP { min_keep: val, ..self }
    }

    /// Builder-style update of `p`.
    pub fn p(self, val: Fx) -> (r: SampleMinP)
        ensures
            r == (SampleMinP { p: val, ..self }),
    {
        SampleMinP { p: val, ..self }
    }

    /// Softmax, then drop everything from the first entry (scanning from
    /// `max(1, min_keep)`) whose probability falls below
    /// `p * highest probability`. A `p` of zero disables the stage, and a
    /// container no longer than `min_keep` is left whole.
    pub fn sample<R: HasSamplerResources>(&mut self, _res: &mut R, logits: &mut Logits) -> (r:
        Result<(), SamplerError>)
        requires
            old(logits).wf(),
        ensures
            r.is_ok(),
            final(logits).wf(),
            *final(_res) == *old(_res),
            old(self).p.bits == 0 || old(logits)@.len() == 0 ==> *final(logits) == *old(logits),
            old(self).p.bits != 0 && old(logits)@.len() > 0 ==> exists|sm: Seq<Logit>|
                #![trigger softmaxed_shape(old(logits)@, sm)]
                softmaxed_shape(old(logits)@, sm) && final(logits)@ == (if sm.len() <= old(self).min_keep {
                    sm
                } else {
                    sm.subrange(
                        0,
                        threshold_cut(
                            sm,
                            fx_mul(sm[0].prob.bits as int, old(self).p.bits as int),
                            if old(self).min_keep > 1 {
                                old(self).min_keep as int
                            } else {
                                1
                            },
                        ),
                    )
                }),
            final(logits)@.len() < old(logits)@.len() ==> !final(logits).spec_softmax(),
    {
        let n = logits.len();
        if self.p.bits == 0 || n == 0 {
            return Ok(());
        }
        let _ = logits.ensure_softmax();
        let ghost sm = logits@;
        if logits.len() <= self.min_keep {
            proof {
                assert(softmaxed_shape(old(logits)@, sm) && logits@ == sm);
            }
            return Ok(());
        }
        let head = logits.entry(0);
        let threshold = head.prob.mul(self.p);
        let start = if self.min_keep > 1 {
            self.min_keep
        } else {
            1
        };
        let cut = find_threshold_cut(logits, threshold.bits, start);
        logits.truncate(cut);
        proof {
            lemma_threshold_cut_range(
                sm,
                fx_mul(sm[0].prob.bits as int, old(self).p.bits as int),
                start as int,
            );
            assert(logits@ =~= sm.subrange(
                0,
                threshold_cut(
                    sm,
                    fx_mul(sm[0].prob.bits as int, old(self).p.bits as int),
                    start as int,
                ),
            ));
            assert(softmaxed_shape(old(logits)@, sm));
        }
        Ok(())
    }
}

impl Default for SampleMinP {
    /// The default keeps entries with at least a twentieth of the top
    /// probability, and at least one entry.
    fn default() -> (r: SampleMinP)
        ensures
            r.min_keep == 1,
    {
        SampleMinP { p: Fx { bits: 838861 }, min_keep: 1 }
    }
}

} // verus!
