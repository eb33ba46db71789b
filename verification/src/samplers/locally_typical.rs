use vstd::prelude::*;

use crate::fixed::{fx_add, fx_mul, fx_sub, Fx, FX_INF, FX_ONE};
use crate::fxmath::{ln_fx, ln_spec};
use crate::resource::HasSamplerResources;
use crate::types::{softmaxed_shape, Logit, Logits, SamplerError};

verus! {

/// An entry paired with its typicality score: how far its surprise sits
/// from the distribution's entropy.
#[derive(Debug, Clone, Copy, PartialEq, Eq, Structural)]
pub struct ScoredLogit {
    pub entry: Logit,
    pub score: i64,
}

/// The scored entries holding exactly this score, in order: what a stable
/// reordering preserves.
pub open spec fn with_score(s: Seq<ScoredLogit>, key: i64) -> Seq<ScoredLogit> {
    s.filter(|x: ScoredLogit| x.score == key)
}

/// Ascending order by score.
pub open spec fn sorted_by_score(s: Seq<ScoredLogit>) -> bool {
    forall|i: int, j: int| 0 <= i <= j < s.len() ==> #[trigger] s[i].score <= #[trigger] s[j].score
}

/// Relies on `slice::sort_by`: a stable sort by the comparator, reordering
/// entries and changing nothing else, so the result is an ascending-by-score
/// permutation of the input in which entries of equal score keep their
/// relative order (stated as: filtering by any score value is unchanged).
#[verifier::external_body]
fn sort_scored_asc(v: &mut Vec<ScoredLogit>)
    ensures
        final(v)@.len() == old(v)@.len(),
        final(v)@.to_multiset() == old(v)@.to_multiset(),
        sorted_by_score(final(v)@),
        forall|key: i64| #[trigger] with_score(final(v)@, key) == with_score(old(v)@, key),
{
    v.as_mut_slice().sort_by(|a, b| a.score.cmp(&b.score));
}


/// The running entropy total over the first `i` entries: each entry with a
/// representable probability contributes `p * -ln(p)`.
pub open spec fn lt_ent_upto(s: Seq<Logit>, i: int) -> int
    decreases i,
{
    if i <= 0 {
        0
    } else {
        let p = s[i - 1].prob.bits as int;
        let term = if p >= 1 {
            fx_mul(p, fx_sub(0, ln_spec(p)))
        } else {
            0
        };
        fx_add(lt_ent_upto(s, i - 1), term)
    }
}

/// An entry's typicality score: how far its surprise `-ln(p)` sits from
/// the distribution's entropy; a vanishing probability is infinitely
/// atypical.
pub open spec fn lt_score(s: Seq<Logit>, i: int) -> int {
    let p = s[i].prob.bits as int;
    if p >= 1 {
        let d = fx_sub(fx_sub(0, ln_spec(p)), lt_ent_upto(s, s.len() as int));
        if d < 0 {
            fx_sub(0, d)
        } else {
            d
        }
    } else {
        FX_INF as int
    }
}

/// The entries paired with their typicality scores, in place.
pub open spec fn lt_scored(s: Seq<Logit>) -> Seq<ScoredLogit> {
    Seq::new(s.len(), |i: int| ScoredLogit { entry: s[i], score: lt_score(s, i) as i64 })
}

/// Where the typicality scan cuts, over the score-ordered entries: after
/// the first position where the cumulative probability exceeds `p` and at
/// least `min_keep` positions have passed; or nowhere.
pub open spec fn lt_cut_from(s: Seq<ScoredLogit>, p: int, min_keep: int, i: int, acc: int) -> int
    decreases s.len() - i when 0 <= i <= s.len()
{
    if i >= s.len() {
        s.len() as int
    } else {
        let acc2 = acc + s[i].entry.prob.bits;
        if acc2 > p && i >= min_keep {
            i + 1
        } else {
            lt_cut_from(s, p, min_keep, i + 1, acc2)
        }
    }
}

proof fn lemma_lt_cut_range(s: Seq<ScoredLogit>, p: int, min_keep: int, i: int, acc: int)
    requires
        0 <= i <= s.len(),
    ensures
        i < s.len() ==> 1 <= lt_cut_from(s, p, min_keep, i, acc) <= s.len(),
        i >= s.len() ==> lt_cut_from(s, p, min_keep, i, acc) == s.len(),
    decreases s.len() - i,
{
    if i < s.len() {
        lemma_lt_cut_range(s, p, min_keep, i + 1, acc + s[i].entry.prob.bits);
    }
}

/// What typical sampling leaves behind: the kept prefix, in typicality
/// order, of a score-sorted rearrangement of the softmaxed entries.
pub open spec fn lt_result(pre: Seq<Logit>, post: Seq<Logit>, p: int, min_keep: int) -> bool {
    exists|sm: Seq<Logit>, scored: Seq<ScoredLogit>|
        {
            let mk = if min_keep == 0 {
                0int
            } else {
                min_keep - 1
            };
            &&& #[trigger] softmaxed_shape(pre, sm)
            &&& (#[trigger] scored.to_multiset()) == lt_scored(sm).to_multiset()
            &&& (forall|key: i64|
                #[trigger] with_score(scored, key) == with_score(lt_scored(sm), key))
            &&& sorted_by_score(scored)
            &&& post.len() == lt_cut_from(scored, p, mk, 0, 0)
            &&& forall|i: int| 0 <= i < post.len() ==> #[trigger] post[i] == scored[i].entry
        }
}

/// The shared core of typical sampling: softmax, score each entry by the
/// absolute difference between its surprise and the distribution's entropy,
/// reorder ascending by that score, and keep the shortest prefix whose
/// probability mass exceeds `p` (and has at least `min_keep` entries). The
/// kept entries stay in typicality order.
pub fn locally_typical_pass<R: HasSamplerResources>(
    p: Fx,
    min_keep: usize,
    _res: &mut R,
    logits: &mut Logits,
) -> (r: Result<(), SamplerError>)
    requires
        old(logits).wf(),
    ensures
        r.is_ok(),
        final(logits).wf(),
        *final(_res) == *old(_res),
        old(logits)@.len() == 0 ==> *final(logits) == *old(logits),
        old(logits)@.len() > 0 ==> lt_result(
            old(logits)@,
            final(logits)@,
            p.bits as int,
            min_keep as int,
        ),
{
    let n = logits.len();
    if n == 0 {
        return Ok(());
    }
    let _ = logits.softmax();
    let ghost sm = logits@;
    // Entropy of the distribution; terms below one raw unit contribute
    // nothing, as in the real limit.
    let mut ent = Fx { bits: 0 };
    let mut i: usize = 0;
    while i < n
        invariant
            0 <= i <= n,
            n == logits@.len(),
            logits@ == sm,
            logits.wf(),
            ent.bits as int == lt_ent_upto(sm, i as int),
        decreases n - i,
    {
        let pr = logits.entry(i).prob;
        if pr.bits >= 1 {
            let lnp = ln_fx(pr.bits);
            let term = pr.mul(Fx { bits: 0 }.sub(Fx { bits: lnp }));
            ent = ent.add(term);
        } else {
            proof {
                assert(crate::fixed::fx_add(ent.bits as int, 0) == ent.bits as int);
            }
        }
        i = i + 1;
    }
    // Score each entry; a vanishing probability is infinitely surprising.
    let mut scored: Vec<ScoredLogit> = Vec::new();
    let mut i: usize = 0;
    while i < n
        invariant
            0 <= i <= n,
            n == logits@.len(),
            logits@ == sm,
            logits.wf(),
            ent.bits as int == lt_ent_upto(sm, n as int),
            scored@.len() == i,
            forall|j: int| 0 <= j < i ==> (#[trigger] scored@[j]) == lt_scored(sm)[j],
            forall|j: int| 0 <= j < i ==> sm.contains((#[trigger] scored@[j]).entry),
        decreases n - i,
    {
        let e = logits.entry(i);
        let score: i64 = if e.prob.bits >= 1 {
            let lnp = ln_fx(e.prob.bits);
            let diff = Fx { bits: 0 }.sub(Fx { bits: lnp }).sub(ent);
            if diff.bits < 0 {
                Fx { bits: 0 }.sub(diff).bits
            } else {
                diff.bits
            }
        } else {
            FX_INF
        };
        proof {
            assert(sm[i as int] == e);
            assert(sm.contains(e));
            assert(score as int == lt_score(sm, i as int));
        }
        scored.push(ScoredLogit { entry: e, score });
        i = i + 1;
    }
    proof {
        assert(scored@ =~= lt_scored(sm));
    }
    let ghost pre_sort = scored@;
    sort_scored_asc(&mut scored);
    proof {
        assert forall|j: int| 0 <= j < scored@.len() implies sm.contains(
            (#[trigger] scored@[j]).entry,
        ) by {
            broadcast use vstd::multiset::group_multiset_axioms;

            vstd::seq_lib::to_multiset_contains::<ScoredLogit>(scored@, scored@[j]);
            assert(scored@.to_multiset().count(scored@[j]) > 0);
            vstd::seq_lib::to_multiset_contains::<ScoredLogit>(pre_sort, scored@[j]);
            assert(pre_sort.contains(scored@[j]));
            let w = choose|w: int| 0 <= w < pre_sort.len() && pre_sort[w] == scored@[j];
            assert(sm.contains(pre_sort[w].entry));
        }
    }
    // Keep the shortest prefix of the typicality order whose probability
    // mass exceeds p.
    let mk = if min_keep == 0 {
        0
    } else {
        min_keep - 1
    };
    let mut cum: i64 = 0;
    let mut keep: usize = n;
    let mut found = false;
    let mut i: usize = 0;
    while i < n && !found
        invariant
            0 <= i <= n,
            n <= FX_ONE,
            scored@.len() == n,
            forall|j: int| 0 <= j < n ==> sm.contains((#[trigger] scored@[j]).entry),
            forall|j: int|
                0 <= j < n ==> 0 <= ((#[trigger] scored@[j]).entry.prob.bits) <= FX_ONE,
            0 <= cum <= (i as int) * (FX_ONE as int),
            !found ==> lt_cut_from(scored@, p.bits as int, mk as int, 0, 0) == lt_cut_from(
                scored@,
                p.bits as int,
                mk as int,
                i as int,
                cum as int,
            ),
            found ==> keep as int == lt_cut_from(scored@, p.bits as int, mk as int, 0, 0),
            found ==> 1 <= keep <= n,
            !found ==> keep == n,
        decreases n - i,
    {
        proof {
            assert((i as int + 1) * (FX_ONE as int) == (i as int) * (FX_ONE as int) + (
            FX_ONE as int)) by (nonlinear_arith);
        }
        let cum2 = cum + scored[i].entry.prob.bits;
        if cum2 > p.bits && i >= mk {
            keep = i + 1;
            found = true;
        }
        cum = cum2;
        i = i + 1;
    }
    proof {
        if !found {
            assert(lt_cut_from(scored@, p.bits as int, mk as int, n as int, cum as int) == n);
        }
        assert(keep as int == lt_cut_from(scored@, p.bits as int, mk as int, 0, 0));
    }
    // Replace the contents with the kept prefix, in typicality order.
    let mut kept: Vec<Logit> = Vec::new();
    let mut i: usize = 0;
    while i < keep
        invariant
            0 <= i <= keep,
            1 <= keep <= n,
            n <= FX_ONE,
            scored@.len() == n,
            forall|j: int| 0 <= j < n ==> sm.contains((#[trigger] scored@[j]).entry),
            kept@.len() == i,
            forall|j: int| 0 <= j < i ==> (#[trigger] kept@[j]) == scored@[j].entry,
            forall|j: int| 0 <= j < i ==> sm.contains(#[trigger] kept@[j]),
        decreases keep - i,
    {
        kept.push(scored[i].entry);
        i = i + 1;
    }
    proof {
        assert forall|j: int| 0 <= j < kept@.len() implies (#[trigger] kept@[j]).logit.bits
            != crate::fixed::FX_NAN && 0 <= kept@[j].prob.bits <= FX_ONE by {
            assert(sm.contains(kept@[j]));
            let w = choose|w: int| 0 <= w < sm.len() && sm[w] == kept@[j];
            assert(sm[w].logit.bits != crate::fixed::FX_NAN);
        }
    }
    let ghost scored_final = scored@;
    logits.replace_entries(kept);
    proof {
        assert(softmaxed_shape(old(logits)@, sm));
        assert(logits@.len() == lt_cut_from(
            scored_final,
            p.bits as int,
            mk as int,
            0,
            0,
        ));
        assert(scored_final.to_multiset() == lt_scored(sm).to_multiset());
        assert(lt_result(old(logits)@, logits@, p.bits as int, min_keep as int));
    }
    Ok(())
}

/// Locally typical sampling: keeps the entries whose surprise sits closest
/// to the distribution's entropy, reordering them by that closeness.
#[derive(Debug, Clone, Copy, PartialEq, Eq, Structural)]
pub struct SampleLocallyTypical {
    pub p: Fx,
    pub min_keep: usize,
}

impl SampleLocallyTypical {
    pub fn new(p: Fx, min_keep: usize) -> (r: SampleLocallyTypical)
        ensures
            r.p == p,
            r.min_keep == min_keep,
    {
        SampleLocallyTypical { p, min_keep }
    }

    /// Builder-style update of `min_keep`.
    pub fn min_keep(self, val: usize) -> (r: SampleLocallyTypical)
        ensures
            r == (SampleLocallyTypical { min_keep: val, ..self }),
    {
        SampleLocallyTypical { min_keep: val, ..self }
    }

    /// Builder-style update of `p`.
    pub fn p(self, val: Fx) -> (r: SampleLocallyTypical)
        ensures
            r == (SampleLocallyTypical { p: val, ..self }),
    {
        SampleLocallyTypical { p: val, ..self }
    }

    /// Run the shared typical-sampling pass.
    pub fn sample<R: HasSamplerResources>(&mut self, res: &mut R, logits: &mut Logits) -> (r:
        Result<(), SamplerError>)
        requires
            old(logits).wf(),
        ensures
            r.is_ok(),
            final(logits).wf(),
            *final(res) == *old(res),
            old(logits)@.len() == 0 ==> *final(logits) == *old(logits),
            old(logits)@.len() > 0 ==> lt_result(
                old(logits)@,
                final(logits)@,
                old(self).p.bits as int,
                old(self).min_keep as int,
            ),
    {
        locally_typical_pass(self.p, self.min_keep, res, logits)
    }
}

impl Default for SampleLocallyTypical {
    /// The default `p` of one keeps everything but reorders by typicality;
    /// at least one entry is kept.
    fn default() -> (r: SampleLocallyTypical)
        ensures
            r.p.bits == FX_ONE,
            r.min_keep == 1,
    {
        SampleLocallyTypical { p: Fx { bits: FX_ONE }, min_keep: 1 }
    }
}

} // verus!
