use vstd::prelude::*;

use crate::fixed::{abs_i, fx_div, Fx, FX_ONE};
use crate::resource::HasSamplerResources;
use crate::types::{softmaxed_shape, Logit, Logits, SamplerError};

verus! {

/// First difference of adjacent probabilities.
pub open spec fn tf_fderiv(s: Seq<Logit>, i: int) -> int {
    s[i].prob.bits - s[i + 1].prob.bits
}

/// Absolute second difference.
pub open spec fn tf_sderiv(s: Seq<Logit>, i: int) -> int {
    abs_i(tf_fderiv(s, i) - tf_fderiv(s, i + 1))
}

/// Sum of the first `k` absolute second differences.
pub open spec fn tf_ssum(s: Seq<Logit>, k: int) -> int
    decreases k,
{
    if k <= 0 {
        0
    } else {
        tf_ssum(s, k - 1) + tf_sderiv(s, k - 1)
    }
}

/// Where the tail-free scan cuts: the first position, from `i` with
/// accumulated normalized mass `acc`, where the cumulative normalized
/// second-difference mass exceeds `z` and at least `min_keep` positions
/// have passed; or the whole length.
pub open spec fn tf_cut_from(
    s: Seq<Logit>,
    z: int,
    min_keep: int,
    total: int,
    i: int,
    acc: int,
) -> int
    decreases s.len() - i when 0 <= i <= s.len()
{
    if i >= s.len() - 2 || i >= s.len() {
        s.len() as int
    } else {
        let acc2 = acc + fx_div(tf_sderiv(s, i), total);
        if acc2 > z && i >= min_keep {
            i
        } else {
            tf_cut_from(s, z, min_keep, total, i + 1, acc2)
        }
    }
}


/// Tail-free sampling: drops the "tail" of the distribution as located by
/// the curvature (normalized absolute second differences) of the sorted
/// probabilities.
#[derive(Debug, Clone, Copy, PartialEq, Eq, Structural)]
pub struct SampleTailFree {
    pub z: Fx,
    pub min_keep: usize,
}

impl SampleTailFree {
    pub fn new(z: Fx, min_keep: usize) -> (r: SampleTailFree)
        ensures
            r.z == z,
            r.min_keep == min_keep,
    {
        SampleTailFree { z, min_keep }
    }

    /// Builder-style update of `min_keep`.
    pub fn min_keep(self, val: usize) -> (r: SampleTailFree)
        ensures
            r == (SampleTailFree { min_keep: val, ..self }),
    {
        SampleTailFree { min_keep: val, ..self }
    }

    /// Builder-style update of `z`.
    pub fn z(self, val: Fx) -> (r: SampleTailFree)
        ensures
            r == (SampleTailFree { z: val, ..self }),
    {
        SampleTailFree { z: val, ..self }
    }

    /// Softmax, then cut where the cumulative normalized second-difference
    /// mass first exceeds `z` (no earlier than `min_keep`). A `z` of one or
    /// more, or fewer than two entries, disables the stage.
    pub fn sample<R: HasSamplerResources>(&mut self, _res: &mut R, logits: &mut Logits) -> (r:
        Result<(), SamplerError>)
        requires
            old(logits).wf(),
        ensures
            r.is_ok(),
            final(logits).wf(),
            *final(_res) == *old(_res),
            old(self).z.bits >= FX_ONE || old(logits)@.len() < 2 ==> *final(logits) == *old(
                logits,
            ),
            old(self).z.bits < FX_ONE && old(logits)@.len() >= 2 ==> exists|sm: Seq<Logit>|
                #![trigger softmaxed_shape(old(logits)@, sm)]
                softmaxed_shape(old(logits)@, sm) && final(logits)@ == sm.subrange(
                    0,
                    tf_cut_from(
                        sm,
                        old(self).z.bits as int,
                        old(self).min_keep as int,
                        tf_ssum(sm, sm.len() - 2),
                        0,
                        0,
                    ),
                ),
            final(logits)@.len() < old(logits)@.len() ==> !final(logits).spec_softmax(),
    {
        let n = logits.len();
        if self.z.bits >= FX_ONE || n < 2 {
            return Ok(());
        }
        let _ = logits.ensure_softmax();
        let ghost sm = logits@;
        // Absolute second differences of the sorted probabilities.
        let mut sderivs: Vec<i64> = Vec::new();
        let mut ssum: i64 = 0;
        let want = n - 2;
        let mut i: usize = 0;
        while i < want
            invariant
                0 <= i <= want,
                want == n - 2,
                2 <= n <= FX_ONE,
                n == logits@.len(),
                logits@ == sm,
                logits.wf(),
                softmaxed_shape(old(logits)@, sm),
                forall|j: int| 0 <= j < n ==> 0 <= (#[trigger] sm[j].prob.bits) <= FX_ONE,
                sderivs@.len() == i,
                forall|j: int| 0 <= j < i ==> (#[trigger] sderivs@[j]) as int == tf_sderiv(sm, j),
                forall|j: int| 0 <= j < i ==> 0 <= (#[trigger] sderivs@[j]) <= 4 * FX_ONE,
                ssum as int == tf_ssum(sm, i as int),
                0 <= ssum <= (i as int) * 4 * (FX_ONE as int),
            decreases want - i,
        {
            let p0 = logits.entry(i).prob.bits;
            let p1 = logits.entry(i + 1).prob.bits;
            let p2 = logits.entry(i + 2).prob.bits;
            let f0 = p0 - p1;
            let f1 = p1 - p2;
            let d = f0 - f1;
            let sd = if d < 0 {
                -d
            } else {
                d
            };
            proof {
                assert(sd as int == tf_sderiv(sm, i as int));
                assert((i as int + 1) * 4 * (FX_ONE as int) == (i as int) * 4 * (FX_ONE as int) + 4
                    * (FX_ONE as int)) by (nonlinear_arith);
            }
            sderivs.push(sd);
            ssum = ssum + sd;
            i = i + 1;
        }
        // Scan the cumulative normalized mass for the cut.
        let ghost total = ssum as int;
        let mut acc: i64 = 0;
        let mut cut: usize = n;
        let mut found = false;
        let mut i: usize = 0;
        while i < want && !found
            invariant
                0 <= i <= want,
                want == n - 2,
                2 <= n <= FX_ONE,
                n == logits@.len(),
                logits@ == sm,
                logits.wf(),
                softmaxed_shape(old(logits)@, sm),
                sderivs@.len() == want,
                forall|j: int| 0 <= j < want ==> (#[trigger] sderivs@[j]) as int == tf_sderiv(sm, j),
                forall|j: int| 0 <= j < want ==> 0 <= (#[trigger] sderivs@[j]) <= 4 * FX_ONE,
                ssum as int == total,
                total == tf_ssum(sm, want as int),
                0 <= total <= (want as int) * 4 * (FX_ONE as int),
                0 <= acc <= (i as int) * (FX_ONE as int),
                self.z == old(self).z,
                self.min_keep == old(self).min_keep,
                !found ==> tf_cut_from(
                    sm,
                    self.z.bits as int,
                    self.min_keep as int,
                    total,
                    0,
                    0,
                ) == tf_cut_from(
                    sm,
                    self.z.bits as int,
                    self.min_keep as int,
                    total,
                    i as int,
                    acc as int,
                ),
                found ==> cut as int == tf_cut_from(
                    sm,
                    self.z.bits as int,
                    self.min_keep as int,
                    total,
                    0,
                    0,
                ),
                found ==> cut <= n,
                !found ==> cut == n,
            decreases want - i,
        {
            let sd = sderivs[i];
            let nv = Fx { bits: sd }.div(Fx { bits: ssum });
            proof {
                lemma_tf_each_le_sum(sm, want as int, i as int);
                assert((want as int) * 4 * (FX_ONE as int) < crate::fixed::FX_INF as int)
                    by (nonlinear_arith)
                    requires
                        0 <= want as int <= FX_ONE as int,
                ;
                lemma_tf_norm_le_one(sd as int, total);
                assert((i as int + 1) * (FX_ONE as int) == (i as int) * (FX_ONE as int) + (
                FX_ONE as int)) by (nonlinear_arith);
            }
            let acc2 = acc + nv.bits;
            if acc2 > self.z.bits && i >= self.min_keep {
                cut = i;
                found = true;
            }
            acc = acc2;
            i = i + 1;
        }
        proof {
            if !found {
                assert(i == want || found);
                assert(tf_cut_from(
                    sm,
                    self.z.bits as int,
                    self.min_keep as int,
                    total,
                    want as int,
                    acc as int,
                ) == n);
            }
            assert(cut as int == tf_cut_from(
                sm,
                self.z.bits as int,
                self.min_keep as int,
                total,
                0,
                0,
            ));
        }
        logits.truncate(cut);
        proof {
            assert(logits@ =~= sm.subrange(
                0,
                tf_cut_from(
                    sm,
                    old(self).z.bits as int,
                    old(self).min_keep as int,
                    tf_ssum(sm, sm.len() - 2),
                    0,
                    0,
                ),
            ));
            assert(softmaxed_shape(old(logits)@, sm));
        }
        Ok(())
    }
}

/// A normalized share of a nonnegative total stays within one, and is
/// nonnegative.
proof fn lemma_tf_norm_le_one(sd: int, total: int)
    requires
        0 <= sd <= total,
        total < crate::fixed::FX_INF as int,
    ensures
        0 <= fx_div(sd, total) <= FX_ONE as int,
{
    if total == 0 || sd == 0 {
    } else {
        vstd::arithmetic::div_mod::lemma_div_pos_is_pos(sd * (FX_ONE as int), total);
        assert(sd * (FX_ONE as int) <= total * (FX_ONE as int)) by (nonlinear_arith)
            requires
                0 <= sd <= total,
        ;
        vstd::arithmetic::div_mod::lemma_div_is_ordered(
            sd * (FX_ONE as int),
            total * (FX_ONE as int),
            total,
        );
        vstd::arithmetic::div_mod::lemma_div_by_multiple(FX_ONE as int, total);
        assert((FX_ONE as int) * total == total * (FX_ONE as int)) by (nonlinear_arith);
        assert(abs_i(sd) == sd && abs_i(total) == total);
    }
}

/// Every absolute second difference is bounded by the running total it
/// contributes to.
proof fn lemma_tf_each_le_sum(s: Seq<Logit>, k: int, j: int)
    requires
        0 <= j < k,
    ensures
        0 <= tf_sderiv(s, j) <= tf_ssum(s, k),
    decreases k,
{
    lemma_tf_ssum_nonneg(s, k - 1);
    if j == k - 1 {
    } else {
        lemma_tf_each_le_sum(s, k - 1, j);
    }
}

/// The running total of absolute second differences is nonnegative.
proof fn lemma_tf_ssum_nonneg(s: Seq<Logit>, k: int)
    ensures
        tf_ssum(s, k) >= 0,
    decreases k,
{
    if k > 0 {
        lemma_tf_ssum_nonneg(s, k - 1);
    }
}

impl Default for SampleTailFree {
    /// The default `z` of one disables the stage; at least one entry is
    /// kept when enabled.
    fn default() -> (r: SampleTailFree)
        ensures
            r.z.bits == FX_ONE,
            r.min_keep == 1,
    {
        SampleTailFree { z: Fx { bits: FX_ONE }, min_keep: 1 }
    }
}

} // verus!
