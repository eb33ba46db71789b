use vstd::prelude::*;

use crate::fixed::{Fx, FX_ONE};
use crate::resource::HasSamplerResources;
use crate::types::{softmaxed_shape, sum_probs, Logit, Logits, SamplerError};

verus! {

/// Where the Top-P scan cuts, starting at position `i` with accumulated
/// probability `acc`: after the first position where the cumulative
/// probability reaches `p` and at least `min_keep` entries have been seen,
/// or nowhere.
pub open spec fn top_p_cut_from(s: Seq<Logit>, p: int, min_keep: int, i: int, acc: int) -> int
    decreases s.len() - i when 0 <= i <= s.len()
{
    if i >= s.len() {
        s.len() as int
    } else {
        let acc2 = acc + s[i].prob.bits;
        if acc2 >= p && i + 1 >= min_keep {
            i + 1
        } else {
            top_p_cut_from(s, p, min_keep, i + 1, acc2)
        }
    }
}

/// The number of entries Top-P keeps of a softmaxed sequence.
pub open spec fn top_p_cut(s: Seq<Logit>, p: int, min_keep: int) -> int {
    top_p_cut_from(s, p, min_keep, 0, 0)
}

/// The cut never exceeds the length, and keeps at least one entry of a
/// nonempty sequence.
proof fn lemma_top_p_cut_range(s: Seq<Logit>, p: int, min_keep: int, i: int, acc: int)
    requires
        0 <= i <= s.len(),
    ensures
        i <= top_p_cut_from(s, p, min_keep, i, acc) || s.len() == top_p_cut_from(
            s,
            p,
            min_keep,
            i,
            acc,
        ),
        top_p_cut_from(s, p, min_keep, i, acc) <= s.len(),
        i < s.len() ==> top_p_cut_from(s, p, min_keep, i, acc) >= i + 1,
    decreases s.len() - i,
{
    if i < s.len() {
        lemma_top_p_cut_range(s, p, min_keep, i + 1, acc + s[i].prob.bits);
    }
}

/// With a target of one or more, the scan can only stop at the very end:
/// every proper prefix of a softmaxed sequence sums strictly below one.
proof fn lemma_top_p_cut_full(s: Seq<Logit>, p: int, min_keep: int, i: int, acc: int)
    requires
        p >= FX_ONE as int,
        0 <= i <= s.len(),
        acc == sum_probs(s.subrange(0, i)),
        forall|j: int| 0 <= j < s.len() ==> sum_probs(#[trigger] s.subrange(0, j)) < FX_ONE as int,
        s.len() > 0 ==> sum_probs(s.subrange(0, s.len() as int)) <= FX_ONE as int,
    ensures
        top_p_cut_from(s, p, min_keep, i, acc) == s.len(),
    decreases s.len() - i,
{
    if i < s.len() {
        let acc2 = acc + s[i].prob.bits;
        assert(s.subrange(0, i + 1).drop_last() =~= s.subrange(0, i));
        assert(s.subrange(0, i + 1).last() == s[i]);
        assert(acc2 == sum_probs(s.subrange(0, i + 1)));
        if i + 1 < s.len() {
            assert(acc2 < FX_ONE as int);
            lemma_top_p_cut_full(s, p, min_keep, i + 1, acc2);
        } else {
            lemma_top_p_cut_full(s, p, min_keep, i + 1, acc2);
        }
    }
}

/// Top-P (nucleus) sampling: adds up the token probabilities in descending
/// order until the total reaches `p` and at least `min_keep` entries have
/// been seen; the remaining entries are eliminated.
#[derive(Debug, Clone, Copy, PartialEq, Eq, Structural)]
pub struct SampleTopP {
    pub p: Fx,
    pub min_keep: usize,
}

impl SampleTopP {
    pub fn new(p: Fx, min_keep: usize) -> (r: SampleTopP)
        ensures
            r.p == p,
            r.min_keep == min_keep,
    {
        SampleTopP { p, min_keep }
    }

    /// Builder-style update of `min_keep`.
    pub fn min_keep(self, val: usize) -> (r: SampleTopP)
        ensures
            r == (SampleTopP { min_keep: val, ..self }),
    {
        SampleTopP { min_keep: val, ..self }
    }

    /// Builder-style update of `p`.
    pub fn p(self, val: Fx) -> (r: SampleTopP)
        ensures
            r == (SampleTopP { p: val, ..self }),
    {
        SampleTopP { p: val, ..self }
    }

    /// Softmax, then keep the shortest prefix whose cumulative probability
    /// reaches `p` (and has at least `min_keep` entries). A target of one
    /// or more keeps everything; a target at or below zero with `min_keep`
    /// at most one keeps exactly the single highest-probability entry.
    pub fn sample<R: HasSamplerResources>(&mut self, _res: &mut R, logits: &mut Logits) -> (r:
        Result<(), SamplerError>)
        requires
            old(logits).wf(),
        ensures
            r.is_ok(),
            final(logits).wf(),
            *final(_res) == *old(_res),
            old(logits)@.len() == 0 ==> *final(logits) == *old(logits),
            old(logits)@.len() > 0 ==> exists|sm: Seq<Logit>|
                #![trigger softmaxed_shape(old(logits)@, sm)]
                softmaxed_shape(old(logits)@, sm) && final(logits)@ == sm.subrange(
                    0,
                    top_p_cut(sm, old(self).p.bits as int, old(self).min_keep as int),
                ),
            old(self).p.bits >= FX_ONE ==> final(logits)@.len() == old(logits)@.len(),
            old(self).p.bits >= FX_ONE && old(logits).spec_softmax() ==> *final(logits) == *old(
                logits,
            ),
            old(self).p.bits <= 0 && old(self).min_keep <= 1 && old(logits)@.len() > 0 ==> final(logits)@.len() == 1,
            final(logits)@.len() < old(logits)@.len() ==> !final(logits).spec_softmax(),
    {
        let n = logits.len();
        if n == 0 {
            return Ok(());
        }
        let _ = logits.ensure_softmax();
        let ghost sm = logits@;
        let mut i: usize = 0;
        let mut acc: i64 = 0;
        let mut cut: usize = n;
        let mut found = false;
        proof {
            assert(sm.subrange(0, 0) =~= Seq::<Logit>::empty());
        }
        while i < n && !found
            invariant
                0 <= i <= n,
                n == logits@.len(),
                logits@ == sm,
                logits.wf(),
                softmaxed_shape(old(logits)@, sm),
                crate::types::probs_current(sm),
                sum_probs(sm) <= FX_ONE,
                forall|j: int| 0 <= j < n ==> 0 <= (#[trigger] sm[j].prob.bits) <= FX_ONE,
                n <= FX_ONE,
                acc == sum_probs(sm.subrange(0, i as int)),
                0 <= acc <= (i as int) * (FX_ONE as int),
                !found ==> top_p_cut(sm, self.p.bits as int, self.min_keep as int)
                    == top_p_cut_from(sm, self.p.bits as int, self.min_keep as int, i as int, acc as int),
                found ==> cut as int == top_p_cut(sm, self.p.bits as int, self.min_keep as int),
                found ==> cut <= n,
                !found ==> cut == n,
                self.p == old(self).p,
                self.min_keep == old(self).min_keep,
            decreases n - i,
        {
            let e = logits.entry(i);
            proof {
                assert(sm.subrange(0, i + 1).drop_last() =~= sm.subrange(0, i as int));
                assert(sm.subrange(0, i + 1).last() == sm[i as int]);
                lemma_sum_probs_prefix_bounds(sm, i as int + 1);
            }
            let acc2 = acc + e.prob.bits;
            if acc2 >= self.p.bits && i + 1 >= self.min_keep {
                cut = i + 1;
                found = true;
            }
            acc = acc2;
            i = i + 1;
        }
        proof {
            if !found {
                assert(i == n);
                assert(top_p_cut_from(
                    sm,
                    self.p.bits as int,
                    self.min_keep as int,
                    n as int,
                    acc as int,
                ) == n);
            }
            assert(cut as int == top_p_cut(sm, self.p.bits as int, self.min_keep as int));
            assert(cut <= n);
            lemma_top_p_cut_range(sm, self.p.bits as int, self.min_keep as int, 0, 0);
            if self.p.bits >= FX_ONE {
                assert(sm.subrange(0, n as int) =~= sm);
                lemma_top_p_cut_full(sm, self.p.bits as int, self.min_keep as int, 0, 0);
            }
            if self.p.bits <= 0 && self.min_keep <= 1 {
                assert(sm[0].prob.bits >= 0);
                assert(top_p_cut(sm, self.p.bits as int, self.min_keep as int) == 1);
            }
        }
        logits.truncate(cut);
        proof {
            let cutg = top_p_cut(sm, old(self).p.bits as int, old(self).min_keep as int);
            assert(logits@ =~= sm.subrange(0, cutg));
            assert(softmaxed_shape(old(logits)@, sm) && logits@ == sm.subrange(0, cutg));
            if old(self).p.bits >= FX_ONE {
                assert(sm.subrange(0, n as int) =~= sm);
            }
        }
        Ok(())
    }
}

/// Partial sums of probabilities stay within one of the total's bound.
proof fn lemma_sum_probs_prefix_bounds(s: Seq<Logit>, i: int)
    requires
        0 <= i <= s.len(),
        forall|j: int| 0 <= j < s.len() ==> 0 <= (#[trigger] s[j].prob.bits) <= FX_ONE,
    ensures
        0 <= sum_probs(s.subrange(0, i)) <= i * (FX_ONE as int),
    decreases i,
{
    if i > 0 {
        lemma_sum_probs_prefix_bounds(s, i - 1);
        assert(s.subrange(0, i).drop_last() =~= s.subrange(0, i - 1));
        assert(s.subrange(0, i).last() == s[i - 1]);
        assert((i - 1) * (FX_ONE as int) + FX_ONE as int == i * (FX_ONE as int)) by (nonlinear_arith);
    } else {
        assert(s.subrange(0, 0) =~= Seq::<Logit>::empty());
    }
}

impl Default for SampleTopP {
    /// The default keeps 90% of the probability mass and at least one entry.
    fn default() -> (r: SampleTopP)
        ensures
            r.min_keep == 1,
    {
        SampleTopP { p: Fx { bits: 15099494 }, min_keep: 1 }
    }
}

} // verus!
