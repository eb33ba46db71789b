use vstd::prelude::*;

use crate::resource::HasSamplerResources;
use crate::fixed::{fx_add, fx_div, fx_mul, fx_sub, FX_ONE};
use crate::fxmath::pow_spec;
use crate::samplers::{
    argmax_first, bias_for, count_in, fp_deduction, lt_result, m1_k, m2_cut, mu_next, pen_of,
    rep_penalized, seq_deduction, tf_cut_from, tf_ssum, threshold_cut, top_k_keep, top_p_cut,
    window_spec, SampleFlatBias,
    SampleFreqPresence, SampleGreedy, SampleLocallyTypical, SampleMinP, SampleMirostat1,
    SampleMirostat2, SampleRandDistrib, SampleRepetition, SampleSeqRepetition, SampleTailFree,
    SampleTemperature, SampleTopA, SampleTopK, SampleTopP, SampleTypical,
};
use crate::types::{
    softmax_shape, softmaxed_shape, sorted_desc, with_logit, Logit, Logits, SamplerError, TID,
};

verus! {

/// One sampler of the built-in set, as a tagged variant: the closed set
/// makes a chain a plain vector, with dispatch by case.
#[derive(Debug, Clone)]
pub enum SamplerKind {
    FlatBias(SampleFlatBias),
    Repetition(SampleRepetition),
    FreqPresence(SampleFreqPresence),
    SeqRepetition(SampleSeqRepetition),
    TopK(SampleTopK),
    TopP(SampleTopP),
    MinP(SampleMinP),
    TopA(SampleTopA),
    TailFree(SampleTailFree),
    LocallyTypical(SampleLocallyTypical),
    Typical(SampleTypical),
    Temperature(SampleTemperature),
    Greedy(SampleGreedy),
    RandDistrib(SampleRandDistrib),
    Mirostat1(SampleMirostat1),
    Mirostat2(SampleMirostat2),
}

/// Both values carry the same sampler variant.
pub open spec fn same_variant(a: &SamplerKind, b: &SamplerKind) -> bool {
    match (a, b) {
        (SamplerKind::FlatBias(_), SamplerKind::FlatBias(_)) => true,
        (SamplerKind::Repetition(_), SamplerKind::Repetition(_)) => true,
        (SamplerKind::FreqPresence(_), SamplerKind::FreqPresence(_)) => true,
        (SamplerKind::SeqRepetition(_), SamplerKind::SeqRepetition(_)) => true,
        (SamplerKind::TopK(_), SamplerKind::TopK(_)) => true,
        (SamplerKind::TopP(_), SamplerKind::TopP(_)) => true,
        (SamplerKind::MinP(_), SamplerKind::MinP(_)) => true,
        (SamplerKind::TopA(_), SamplerKind::TopA(_)) => true,
        (SamplerKind::TailFree(_), SamplerKind::TailFree(_)) => true,
        (SamplerKind::LocallyTypical(_), SamplerKind::LocallyTypical(_)) => true,
        (SamplerKind::Typical(_), SamplerKind::Typical(_)) => true,
        (SamplerKind::Temperature(_), SamplerKind::Temperature(_)) => true,
        (SamplerKind::Greedy(_), SamplerKind::Greedy(_)) => true,
        (SamplerKind::RandDistrib(_), SamplerKind::RandDistrib(_)) => true,
        (SamplerKind::Mirostat1(_), SamplerKind::Mirostat1(_)) => true,
        (SamplerKind::Mirostat2(_), SamplerKind::Mirostat2(_)) => true,
        _ => false,
    }
}


/// What one dispatch step guarantees, stated over values: `k0` and `l0`
/// are the stage and container before the call, `k1` and `l1` after,
/// `hist` and `rng` the provider's token history and random-source
/// presence, and `r` the call's outcome. Each arm restates the matching
/// sampler's contract; a stage keeps its variant, so unlike pairs never
/// arise.
pub open spec fn kind_step(
    k0: SamplerKind,
    k1: SamplerKind,
    l0: Logits,
    l1: Logits,
    hist: Option<Seq<TID>>,
    rng: bool,
    r: Result<(), SamplerError>,
) -> bool {
    match (k0, k1) {
        (SamplerKind::FlatBias(s0), SamplerKind::FlatBias(_)) => {
            &&& r.is_ok()
            &&& l1@.len() == l0@.len()
            &&& forall|i: int|
                0 <= i < l0@.len() ==> (#[trigger] l1@[i]).token_id == l0@[i].token_id
                    && l1@[i].prob == l0@[i].prob
            &&& forall|i: int|
                0 <= i < l0@.len() ==> (#[trigger] l1@[i]).logit.bits as int == (match bias_for(
                    s0.bias@,
                    l0@[i].token_id,
                ) {
                    Some(b) => fx_add(l0@[i].logit.bits as int, b.bits as int),
                    None => l0@[i].logit.bits as int,
                })
            &&& (forall|i: int|
                0 <= i < l0@.len() ==> bias_for(s0.bias@, (#[trigger] l0@[i]).token_id)
                    is None) ==> l1 == l0
            &&& (exists|i: int|
                0 <= i < l0@.len() && bias_for(s0.bias@, (#[trigger] l0@[i]).token_id)
                    is Some) ==> !l1.spec_sorted() && !l1.spec_softmax()
        },
        (SamplerKind::Repetition(s0), SamplerKind::Repetition(_)) => {
            &&& s0.spec_disabled(l0@.len() as int) ==> r.is_ok() && l1 == l0
            &&& !s0.spec_disabled(l0@.len() as int) ==> {
                &&& r.is_ok() <==> hist is Some
                &&& r.is_err() ==> l1 == l0 && (r matches Err(SamplerError::MissingResource(_)))
                &&& r.is_ok() ==> {
                    let w = window_spec(hist.unwrap(), s0.last_n as int);
                    &&& (exists|i: int|
                        0 <= i < l0@.len() && w.contains((#[trigger] l0@[i]).token_id))
                        ==> !l1.spec_sorted() && !l1.spec_softmax()
                    &&& (forall|i: int|
                        0 <= i < l0@.len() ==> !w.contains((#[trigger] l0@[i]).token_id)) ==> l1
                        == l0
                    &&& l1@.len() == l0@.len()
                    &&& forall|i: int|
                        0 <= i < l0@.len() ==> (#[trigger] l1@[i]).token_id == l0@[i].token_id
                            && l1@[i].prob == l0@[i].prob
                    &&& forall|i: int|
                        0 <= i < l0@.len() ==> (#[trigger] l1@[i]).logit.bits as int == (if w.contains(
                            l0@[i].token_id,
                        ) {
                            rep_penalized(l0@[i].logit.bits as int, s0.penalty.bits as int)
                        } else {
                            l0@[i].logit.bits as int
                        })
                }
            }
        },
        (SamplerKind::FreqPresence(s0), SamplerKind::FreqPresence(_)) => {
            &&& s0.spec_disabled(l0@.len() as int) ==> r.is_ok() && l1 == l0
            &&& !s0.spec_disabled(l0@.len() as int) ==> {
                &&& r.is_ok() <==> hist is Some
                &&& r.is_err() ==> l1 == l0 && (r matches Err(SamplerError::MissingResource(_)))
                &&& r.is_ok() ==> {
                    let w = window_spec(hist.unwrap(), s0.last_n as int);
                    &&& (exists|i: int|
                        0 <= i < l0@.len() && count_in(w, (#[trigger] l0@[i]).token_id) > 0)
                        ==> !l1.spec_sorted() && !l1.spec_softmax()
                    &&& (forall|i: int|
                        0 <= i < l0@.len() ==> count_in(w, (#[trigger] l0@[i]).token_id) == 0)
                        ==> l1 == l0
                    &&& l1@.len() == l0@.len()
                    &&& forall|i: int|
                        0 <= i < l0@.len() ==> (#[trigger] l1@[i]).token_id == l0@[i].token_id
                            && l1@[i].prob == l0@[i].prob
                    &&& forall|i: int|
                        0 <= i < l0@.len() ==> (#[trigger] l1@[i]).logit.bits as int == (if count_in(
                            w,
                            l0@[i].token_id,
                        ) > 0 {
                            fx_sub(
                                l0@[i].logit.bits as int,
                                fp_deduction(
                                    count_in(w, l0@[i].token_id),
                                    s0.frequency_penalty.bits as int,
                                    s0.presence_penalty.bits as int,
                                ),
                            )
                        } else {
                            l0@[i].logit.bits as int
                        })
                }
            }
        },
        (SamplerKind::SeqRepetition(s0), SamplerKind::SeqRepetition(_)) => {
            &&& l1@.len() == l0@.len()
            &&& forall|i: int|
                0 <= i < l0@.len() ==> (#[trigger] l1@[i]).token_id == l0@[i].token_id
                    && l1@[i].prob == l0@[i].prob
            &&& s0.spec_disabled(l0@.len() as int) ==> r.is_ok() && l1 == l0
            &&& !s0.spec_disabled(l0@.len() as int) ==> {
                &&& hist is None ==> r.is_err() && (r matches Err(
                    SamplerError::MissingResource(_),
                )) && l1 == l0
                &&& hist matches Some(h) ==> {
                    let pm = s0.spec_penalties(h);
                    &&& h.len() < 2 * s0.min_length ==> r.is_ok() && l1 == l0
                    &&& h.len() >= 2 * s0.min_length ==> {
                        &&& (r.is_ok() <==> forall|q: int|
                            0 <= q < pm.len() ==> ((#[trigger] pm[q]).0 as int) < l0@.len())
                        &&& r.is_err() ==> (r matches Err(SamplerError::InternalError(_)))
                        &&& r.is_ok() ==> forall|i: int|
                            0 <= i < l0@.len() ==> (#[trigger] l1@[i]).logit.bits as int == (match pen_of(
                                pm,
                                i as TID,
                            ) {
                                Some(c) => fx_sub(
                                    l0@[i].logit.bits as int,
                                    seq_deduction(
                                        c as int,
                                        s0.stacking_penalty.bits as int,
                                        s0.flat_penalty.bits as int,
                                    ),
                                ),
                                None => l0@[i].logit.bits as int,
                            })
                    }
                }
            }
        },
        (SamplerKind::TopK(s0), SamplerKind::TopK(_)) => {
            &&& r.is_ok()
            &&& l1@.len() == top_k_keep(s0.k as int, s0.min_keep as int, l0@.len() as int)
            &&& sorted_desc(l1@)
            &&& l1.spec_sorted()
            &&& exists|mid: Seq<Logit>|
                #![trigger mid.to_multiset()]
                mid.to_multiset() == l0@.to_multiset() && sorted_desc(mid) && (forall|key: i64|
                    #[trigger] with_logit(mid, key) == with_logit(l0@, key)) && l1@
                    == mid.subrange(
                    0,
                    top_k_keep(s0.k as int, s0.min_keep as int, l0@.len() as int),
                )
        },
        (SamplerKind::TopP(s0), SamplerKind::TopP(_)) => {
            &&& r.is_ok()
            &&& l0@.len() == 0 ==> l1 == l0
            &&& l0@.len() > 0 ==> exists|sm: Seq<Logit>|
                #![trigger softmaxed_shape(l0@, sm)]
                softmaxed_shape(l0@, sm) && l1@ == sm.subrange(
                    0,
                    top_p_cut(sm, s0.p.bits as int, s0.min_keep as int),
                )
            &&& s0.p.bits >= FX_ONE ==> l1@.len() == l0@.len()
            &&& s0.p.bits >= FX_ONE && l0.spec_softmax() ==> l1 == l0
            &&& s0.p.bits <= 0 && s0.min_keep <= 1 && l0@.len() > 0 ==> l1@.len() == 1
            &&& l1@.len() < l0@.len() ==> !l1.spec_softmax()
        },
        (SamplerKind::MinP(s0), SamplerKind::MinP(_)) => {
            &&& r.is_ok()
            &&& s0.p.bits == 0 || l0@.len() == 0 ==> l1 == l0
            &&& s0.p.bits != 0 && l0@.len() > 0 ==> exists|sm: Seq<Logit>|
                #![trigger softmaxed_shape(l0@, sm)]
                softmaxed_shape(l0@, sm) && l1@ == (if sm.len() <= s0.min_keep {
                    sm
                } else {
                    sm.subrange(
                        0,
                        threshold_cut(
                            sm,
                            fx_mul(sm[0].prob.bits as int, s0.p.bits as int),
                            if s0.min_keep > 1 {
                                s0.min_keep as int
                            } else {
                                1
                            },
                        ),
                    )
                })
            &&& l1@.len() < l0@.len() ==> !l1.spec_softmax()
        },
        (SamplerKind::TopA(s0), SamplerKind::TopA(_)) => {
            &&& r.is_ok()
            &&& s0.a1.bits == 0 || s0.a2.bits == 0 || l0@.len() == 0 ==> l1 == l0
            &&& s0.a1.bits != 0 && s0.a2.bits != 0 && l0@.len() > 0 ==> exists|sm: Seq<Logit>|
                #![trigger softmaxed_shape(l0@, sm)]
                softmaxed_shape(l0@, sm) && l1@ == (if sm.len() <= s0.min_keep {
                    sm
                } else {
                    sm.subrange(
                        0,
                        threshold_cut(
                            sm,
                            fx_mul(
                                pow_spec(sm[0].prob.bits as int, s0.a2.bits as int),
                                s0.a1.bits as int,
                            ),
                            if s0.min_keep > 1 {
                                s0.min_keep as int
                            } else {
                                1
                            },
                        ),
                    )
                })
            &&& l1@.len() < l0@.len() ==> !l1.spec_softmax()
        },
        (SamplerKind::TailFree(s0), SamplerKind::TailFree(_)) => {
            &&& r.is_ok()
            &&& s0.z.bits >= FX_ONE || l0@.len() < 2 ==> l1 == l0
            &&& s0.z.bits < FX_ONE && l0@.len() >= 2 ==> exists|sm: Seq<Logit>|
                #![trigger softmaxed_shape(l0@, sm)]
                softmaxed_shape(l0@, sm) && l1@ == sm.subrange(
                    0,
                    tf_cut_from(
                        sm,
                        s0.z.bits as int,
                        s0.min_keep as int,
                        tf_ssum(sm, sm.len() - 2),
                        0,
                        0,
                    ),
                )
            &&& l1@.len() < l0@.len() ==> !l1.spec_softmax()
        },
        (SamplerKind::LocallyTypical(s0), SamplerKind::LocallyTypical(_)) => {
            &&& r.is_ok()
            &&& l0@.len() == 0 ==> l1 == l0
            &&& l0@.len() > 0 ==> lt_result(l0@, l1@, s0.p.bits as int, s0.min_keep as int)
        },
        (SamplerKind::Typical(s0), SamplerKind::Typical(_)) => {
            &&& r.is_ok()
            &&& l0@.len() == 0 ==> l1 == l0
            &&& l0@.len() > 0 ==> lt_result(l0@, l1@, s0.p.bits as int, s0.min_keep as int)
        },
        (SamplerKind::Temperature(s0), SamplerKind::Temperature(_)) => {
            &&& r.is_ok()
            &&& s0.temperature.bits == 0 ==> l1 == l0
            &&& s0.temperature.bits != 0 ==> {
                &&& l1@.len() == l0@.len()
                &&& forall|i: int|
                    0 <= i < l0@.len() ==> (#[trigger] l1@[i]).token_id == l0@[i].token_id
                        && l1@[i].prob == l0@[i].prob
                &&& forall|i: int|
                    0 <= i < l0@.len() ==> (#[trigger] l1@[i]).logit.bits as int == fx_div(
                        l0@[i].logit.bits as int,
                        s0.temperature.bits as int,
                    )
                &&& l0@.len() > 0 ==> !l1.spec_sorted() && !l1.spec_softmax()
            }
        },
        (SamplerKind::Greedy(_), SamplerKind::Greedy(s1)) => {
            &&& r.is_ok()
            &&& l1 == l0
            &&& l0@.len() == 0 ==> s1.spec_token() is None
            &&& l0@.len() > 0 ==> s1.spec_token() == Some(
                l0@[
                    if l0.spec_sorted() {
                        0int
                    } else {
                        argmax_first(l0@)
                    }
                ].token_id,
            )
        },
        (SamplerKind::RandDistrib(_), SamplerKind::RandDistrib(s1)) => {
            &&& l0.spec_softmax() ==> l1 == l0
            &&& l0@.len() == 0 ==> r.is_ok() && l1 == l0 && s1.spec_token() is None
            &&& l0@.len() > 0 ==> {
                &&& r.is_ok() <==> rng
                &&& exists|sm: Seq<Logit>|
                    #![trigger softmaxed_shape(l0@, sm)]
                    softmaxed_shape(l0@, sm) && l1@ == sm
                &&& r.is_ok() ==> s1.spec_token() is Some
                &&& r.is_ok() ==> exists|i: int|
                    0 <= i < l1@.len() && s1.spec_token() == Some((#[trigger] l1@[i]).token_id)
                        && l1@[i].prob.bits > 0
                &&& r.is_err() ==> s1.spec_token() is None
            }
            &&& r matches Err(e) ==> (e matches SamplerError::MissingResource(_))
        },
        (SamplerKind::Mirostat1(s0), SamplerKind::Mirostat1(s1)) => {
            &&& s1.tau == s0.tau
            &&& s1.eta == s0.eta
            &&& l0@.len() == 0 || s0.m < 1 ==> r.is_ok() && l1 == l0 && s1.spec_token() is None
                && s1.mu == s0.mu
            &&& l0@.len() > 0 && s0.m >= 1 && s0.n_vocab == 0 ==> r.is_err() && (r matches Err(
                SamplerError::InternalError(_),
            )) && l1 == l0 && s1.spec_token() is None && s1.mu == s0.mu
            &&& l0@.len() > 0 && s0.m >= 1 && s0.n_vocab != 0 ==> {
                &&& r.is_ok() <==> rng
                &&& l1@.len() >= 1
                &&& r.is_ok() ==> s1.spec_token() is Some
                &&& r.is_ok() ==> exists|sm0: Seq<Logit>, mid: Seq<Logit>|
                    #![trigger softmax_shape(l0@, sm0), mid.to_multiset()]
                    softmax_shape(l0@, sm0) && ({
                        let kk = top_k_keep(
                            m1_k(sm0, s0.m as int, s0.n_vocab as int, s0.mu.bits as int),
                            1,
                            sm0.len() as int,
                        );
                        1 <= kk <= mid.len() && mid.to_multiset() == sm0.to_multiset()
                            && sorted_desc(mid) && softmaxed_shape(mid.subrange(0, kk), l1@)
                    })
                &&& r.is_ok() ==> match s1.spec_token() {
                    Some(t) => exists|i: int|
                        0 <= i < l1@.len() && (#[trigger] l1@[i]).token_id == t
                            && l1@[i].prob.bits >= 1 && s1.mu.bits as int == mu_next(
                            s0.mu.bits as int,
                            s0.eta.bits as int,
                            s0.tau.bits as int,
                            l1@[i].prob.bits as int,
                        ),
                    None => s1.mu == s0.mu,
                }
            }
            &&& r matches Err(e) ==> (e matches SamplerError::MissingResource(_) || e matches
                SamplerError::InternalError(_))
        },
        (SamplerKind::Mirostat2(s0), SamplerKind::Mirostat2(s1)) => {
            &&& s1.tau == s0.tau
            &&& s1.eta == s0.eta
            &&& l0@.len() == 0 ==> r.is_ok() && l1 == l0 && s1.spec_token() is None && s1.mu
                == s0.mu
            &&& l0@.len() > 0 ==> {
                &&& r.is_ok() <==> rng
                &&& l1@.len() >= 1
                &&& r.is_ok() ==> s1.spec_token() is Some
                &&& r.is_ok() ==> match s1.spec_token() {
                    Some(t) => exists|i: int|
                        0 <= i < l1@.len() && (#[trigger] l1@[i]).token_id == t
                            && l1@[i].prob.bits >= 1 && s1.mu.bits as int == mu_next(
                            s0.mu.bits as int,
                            s0.eta.bits as int,
                            s0.tau.bits as int,
                            l1@[i].prob.bits as int,
                        ),
                    None => s1.mu == s0.mu,
                }
                &&& r.is_err() ==> (r matches Err(SamplerError::MissingResource(_)))
                &&& r.is_ok() ==> exists|sm1: Seq<Logit>|
                    #![trigger softmax_shape(l0@, sm1)]
                    softmax_shape(l0@, sm1) && ({
                        let cut = m2_cut(sm1, s0.mu.bits as int, 0);
                        let keep = if cut < 1 {
                            1int
                        } else {
                            cut
                        };
                        0 <= keep <= sm1.len() && softmax_shape(sm1.subrange(0, keep), l1@)
                    })
            }
        },
        _ => false,
    }
}

/// Stages that succeed on every well-formed container, whatever
/// resources the provider carries.
pub open spec fn kind_never_fails(k: SamplerKind) -> bool {
    match k {
        SamplerKind::FlatBias(_) => true,
        SamplerKind::TopK(_) => true,
        SamplerKind::TopP(_) => true,
        SamplerKind::MinP(_) => true,
        SamplerKind::TopA(_) => true,
        SamplerKind::TailFree(_) => true,
        SamplerKind::LocallyTypical(_) => true,
        SamplerKind::Typical(_) => true,
        SamplerKind::Temperature(_) => true,
        SamplerKind::Greedy(_) => true,
        _ => false,
    }
}


/// The two stage values are alike: the same variant with equal settings,
/// with a flat-bias stage compared by the entries its table holds.
pub open spec fn kind_like(a: SamplerKind, b: SamplerKind) -> bool {
    match (a, b) {
        (SamplerKind::FlatBias(x), SamplerKind::FlatBias(y)) => x.bias@ == y.bias@,
        (SamplerKind::Repetition(x), SamplerKind::Repetition(y)) => x == y,
        (SamplerKind::FreqPresence(x), SamplerKind::FreqPresence(y)) => x == y,
        (SamplerKind::SeqRepetition(x), SamplerKind::SeqRepetition(y)) => x == y,
        (SamplerKind::TopK(x), SamplerKind::TopK(y)) => x == y,
        (SamplerKind::TopP(x), SamplerKind::TopP(y)) => x == y,
        (SamplerKind::MinP(x), SamplerKind::MinP(y)) => x == y,
        (SamplerKind::TopA(x), SamplerKind::TopA(y)) => x == y,
        (SamplerKind::TailFree(x), SamplerKind::TailFree(y)) => x == y,
        (SamplerKind::LocallyTypical(x), SamplerKind::LocallyTypical(y)) => x == y,
        (SamplerKind::Typical(x), SamplerKind::Typical(y)) => x == y,
        (SamplerKind::Temperature(x), SamplerKind::Temperature(y)) => x == y,
        (SamplerKind::Greedy(x), SamplerKind::Greedy(y)) => x == y,
        (SamplerKind::RandDistrib(x), SamplerKind::RandDistrib(y)) => x == y,
        (SamplerKind::Mirostat1(x), SamplerKind::Mirostat1(y)) => x == y,
        (SamplerKind::Mirostat2(x), SamplerKind::Mirostat2(y)) => x == y,
        _ => false,
    }
}

impl SamplerKind {

    /// A fresh stage with the same settings: every variant is copied
    /// field for field, a flat-bias table entry by entry. Unlike a
    /// derived clone, the copy's relation to the original is stated.
    pub fn duplicate(&self) -> (r: SamplerKind)
        ensures
            kind_like(*self, r),
            same_variant(self, &r),
    {
        match self {
            SamplerKind::FlatBias(x) => {
                let n = x.bias.len();
                let mut v: Vec<(TID, crate::fixed::Fx)> = Vec::new();
                let mut i: usize = 0;
                while i < n
                    invariant
                        0 <= i <= n,
                        n == x.bias@.len(),
                        v@ =~= x.bias@.subrange(0, i as int),
                    decreases n - i,
                {
                    let e = x.bias[i];
                    v.push(e);
                    i = i + 1;
                }
                proof {
                    assert(v@ =~= x.bias@);
                }
                SamplerKind::FlatBias(SampleFlatBias { bias: v })
            },
            SamplerKind::Repetition(x) => SamplerKind::Repetition(*x),
            SamplerKind::FreqPresence(x) => SamplerKind::FreqPresence(*x),
            SamplerKind::SeqRepetition(x) => SamplerKind::SeqRepetition(*x),
            SamplerKind::TopK(x) => SamplerKind::TopK(*x),
            SamplerKind::TopP(x) => SamplerKind::TopP(*x),
            SamplerKind::MinP(x) => SamplerKind::MinP(*x),
            SamplerKind::TopA(x) => SamplerKind::TopA(*x),
            SamplerKind::TailFree(x) => SamplerKind::TailFree(*x),
            SamplerKind::LocallyTypical(x) => SamplerKind::LocallyTypical(*x),
            SamplerKind::Typical(x) => SamplerKind::Typical(*x),
            SamplerKind::Temperature(x) => SamplerKind::Temperature(*x),
            SamplerKind::Greedy(x) => SamplerKind::Greedy(*x),
            SamplerKind::RandDistrib(x) => SamplerKind::RandDistrib(*x),
            SamplerKind::Mirostat1(x) => SamplerKind::Mirostat1(*x),
            SamplerKind::Mirostat2(x) => SamplerKind::Mirostat2(*x),
        }
    }

    /// The token this stage most recently selected, if it is a selecting
    /// stage and has selected one.
    pub open spec fn spec_token(&self) -> Option<TID> {
        match self {
            SamplerKind::Greedy(s) => s.spec_token(),
            SamplerKind::RandDistrib(s) => s.spec_token(),
            SamplerKind::Mirostat1(s) => s.spec_token(),
            SamplerKind::Mirostat2(s) => s.spec_token(),
            _ => None,
        }
    }

    /// Query the last selection; filter stages report nothing.
    pub fn sampled_token_id(&self) -> (r: Option<TID>)
        ensures
            r == self.spec_token(),
    {
        match self {
            SamplerKind::Greedy(s) => s.get_token_id(),
            SamplerKind::RandDistrib(s) => s.get_token_id(),
            SamplerKind::Mirostat1(s) => s.get_token_id(),
            SamplerKind::Mirostat2(s) => s.get_token_id(),
            _ => None,
        }
    }

    /// Run this stage once over the container, dispatching by variant;
    /// `kind_step` restates each sampler's contract for the matching
    /// case. Whatever the stage, the container stays well-formed and the
    /// provider keeps its resources.
    pub fn sample<R: HasSamplerResources>(&mut self, res: &mut R, logits: &mut Logits) -> (r:
        Result<(), SamplerError>)
        requires
            old(logits).wf(),
        ensures
            final(logits).wf(),
            final(res).spec_has_rng() == old(res).spec_has_rng(),
            final(res).spec_last_tokens() == old(res).spec_last_tokens(),
            same_variant(old(self), final(self)),
            kind_step(
                *old(self),
                *final(self),
                *old(logits),
                *final(logits),
                old(res).spec_last_tokens(),
                old(res).spec_has_rng(),
                r,
            ),
    {
        match self {
            SamplerKind::FlatBias(s) => s.sample(res, logits),
            SamplerKind::Repetition(s) => s.sample(res, logits),
            SamplerKind::FreqPresence(s) => s.sample(res, logits),
            SamplerKind::SeqRepetition(s) => s.sample(res, logits),
            SamplerKind::TopK(s) => s.sample(res, logits),
            SamplerKind::TopP(s) => s.sample(res, logits),
            SamplerKind::MinP(s) => s.sample(res, logits),
            SamplerKind::TopA(s) => s.sample(res, logits),
            SamplerKind::TailFree(s) => s.sample(res, logits),
            SamplerKind::LocallyTypical(s) => s.sample(res, logits),
            SamplerKind::Typical(s) => s.sample(res, logits),
            SamplerKind::Temperature(s) => s.sample(res, logits),
            SamplerKind::Greedy(s) => s.sample(res, logits),
            SamplerKind::RandDistrib(s) => s.sample(res, logits),
            SamplerKind::Mirostat1(s) => s.sample(res, logits),
            SamplerKind::Mirostat2(s) => s.sample(res, logits),
        }
    }
}


/// The chain's stages run left to right over one container, every step
/// succeeding: `ss0` becomes `ss1` stage by stage while the container
/// moves from `l0` to `l1` through one intermediate state per stage,
/// each step as `kind_step` states it.
pub open spec fn chain_steps(
    ss0: Seq<SamplerKind>,
    ss1: Seq<SamplerKind>,
    l0: Logits,
    l1: Logits,
    hist: Option<Seq<TID>>,
    rng: bool,
) -> bool
    decreases ss0.len(),
{
    if ss0.len() == 0 {
        ss1.len() == 0 && l1 == l0
    } else {
        ss1.len() == ss0.len() && exists|mid: Logits|
            #![trigger kind_step(ss0[0], ss1[0], l0, mid, hist, rng, Ok(()))]
            kind_step(ss0[0], ss1[0], l0, mid, hist, rng, Ok(())) && chain_steps(
                ss0.drop_first(),
                ss1.drop_first(),
                mid,
                l1,
                hist,
                rng,
            )
    }
}

/// One more successful step extends a run of the chain.
proof fn lemma_chain_steps_push(
    ss0: Seq<SamplerKind>,
    ss1: Seq<SamplerKind>,
    k0: SamplerKind,
    k1: SamplerKind,
    l0: Logits,
    lm: Logits,
    l1: Logits,
    hist: Option<Seq<TID>>,
    rng: bool,
)
    requires
        chain_steps(ss0, ss1, l0, lm, hist, rng),
        kind_step(k0, k1, lm, l1, hist, rng, Ok(())),
    ensures
        chain_steps(ss0.push(k0), ss1.push(k1), l0, l1, hist, rng),
    decreases ss0.len(),
{
    if ss0.len() == 0 {
        assert(ss0.push(k0).drop_first() =~= Seq::<SamplerKind>::empty());
        assert(ss1.push(k1).drop_first() =~= Seq::<SamplerKind>::empty());
        assert(ss0.push(k0)[0] == k0);
        assert(ss1.push(k1)[0] == k1);
        assert(kind_step(k0, k1, lm, l1, hist, rng, Ok(())));
        assert(chain_steps(
            ss0.push(k0).drop_first(),
            ss1.push(k1).drop_first(),
            l1,
            l1,
            hist,
            rng,
        ));
    } else {
        let mid = choose|mid: Logits|
            #![trigger kind_step(ss0[0], ss1[0], l0, mid, hist, rng, Ok(()))]
            kind_step(ss0[0], ss1[0], l0, mid, hist, rng, Ok(())) && chain_steps(
                ss0.drop_first(),
                ss1.drop_first(),
                mid,
                lm,
                hist,
                rng,
            );
        lemma_chain_steps_push(ss0.drop_first(), ss1.drop_first(), k0, k1, mid, lm, l1, hist, rng);
        assert(ss0.push(k0).drop_first() =~= ss0.drop_first().push(k0));
        assert(ss1.push(k1).drop_first() =~= ss1.drop_first().push(k1));
        assert(ss0.push(k0)[0] == ss0[0]);
        assert(ss1.push(k1)[0] == ss1[0]);
    }
}

/// The selection that a left-fold over the stages reports: the last
/// stage's nonempty report, or nothing.
pub open spec fn last_report(samplers: Seq<SamplerKind>) -> Option<TID>
    decreases samplers.len(),
{
    if samplers.len() == 0 {
        None
    } else if samplers.last().spec_token() is Some {
        samplers.last().spec_token()
    } else {
        last_report(samplers.drop_last())
    }
}

/// A list of samplers run in sequence over one container per call. The
/// chain caches the most recent selection: it clears the cache at the start
/// of every call, then lets each stage's nonempty report overwrite it, so
/// later selecting stages win. The first failing stage aborts the call and
/// its error is handed through unchanged.
#[derive(Debug, Clone)]
pub struct SamplerChain {
    pub samplers: Vec<SamplerKind>,
    pub token: Option<TID>,
}

impl SamplerChain {
    pub fn new() -> (r: SamplerChain)
        ensures
            r.samplers@.len() == 0,
            r.token is None,
    {
        SamplerChain { samplers: Vec::new(), token: None }
    }

    /// Append a sampler; the cached selection is cleared.
    pub fn push_sampler(&mut self, sampler: SamplerKind)
        ensures
            final(self).samplers@ == old(self).samplers@.push(sampler),
            final(self).token is None,
    {
        self.token = None;
        self.samplers.push(sampler);
    }

    pub open spec fn spec_token(&self) -> Option<TID> {
        self.token
    }

    /// Query the cached selection.
    pub fn sampled_token_id(&self) -> (r: Option<TID>)
        ensures
            r == self.spec_token(),
    {
        self.token
    }

    /// Left-fold the stages over the container: clear the cache, run each
    /// stage in order, let nonempty reports overwrite the cache, and stop
    /// at the first failure, handing its error through unchanged. An empty
    /// chain changes nothing and reports nothing.
    pub fn sample<R: HasSamplerResources>(&mut self, res: &mut R, logits: &mut Logits) -> (r:
        Result<(), SamplerError>)
        requires
            old(logits).wf(),
        ensures
            final(logits).wf(),
            final(res).spec_has_rng() == old(res).spec_has_rng(),
            final(res).spec_last_tokens() == old(res).spec_last_tokens(),
            final(self).samplers@.len() == old(self).samplers@.len(),
            old(self).samplers@.len() == 0 ==> r.is_ok() && *final(logits) == *old(logits)
                && final(self).spec_token() is None,
            r.is_ok() ==> final(self).spec_token() == last_report(final(self).samplers@),
            r.is_ok() && old(self).samplers@.len() > 0 && (final(self).samplers@.last() is Greedy)
                && final(logits)@.len() > 0 ==> final(self).spec_token() == Some(
                final(logits)@[
                    if final(logits).spec_sorted() {
                        0int
                    } else {
                        argmax_first(final(logits)@)
                    }
                ].token_id,
            ),
            r.is_ok() && old(self).samplers@.len() > 0 && (final(self).samplers@.last()
                is RandDistrib) && final(logits)@.len() > 0 ==> final(self).spec_token() is Some
                && exists|i: int|
                0 <= i < final(logits)@.len() && Some((#[trigger] final(logits)@[i]).token_id)
                    == final(self).spec_token() && final(logits)@[i].prob.bits > 0,
            r.is_err() ==> final(self).spec_token() is None,
            (forall|j: int|
                0 <= j < old(self).samplers@.len() ==> kind_never_fails(
                    #[trigger] old(self).samplers@[j],
                )) ==> r.is_ok(),
            r.is_ok() ==> chain_steps(
                old(self).samplers@,
                final(self).samplers@,
                *old(logits),
                *final(logits),
                old(res).spec_last_tokens(),
                old(res).spec_has_rng(),
            ),
    {
        self.token = None;
        let n = self.samplers.len();
        let mut i: usize = 0;
        proof {
            assert(self.samplers@.subrange(0, 0) =~= Seq::<SamplerKind>::empty());
            assert(old(self).samplers@.subrange(0, 0) =~= Seq::<SamplerKind>::empty());
        }
        while i < n
            invariant
                0 <= i <= n,
                n == self.samplers@.len(),
                old(self).samplers@.len() == n,
                forall|j: int| i <= j < n ==> self.samplers@[j] == #[trigger] old(self).samplers@[j],
                n == 0 ==> *logits == *old(logits),
                logits.wf(),
                res.spec_has_rng() == old(res).spec_has_rng(),
                res.spec_last_tokens() == old(res).spec_last_tokens(),
                i == 0 ==> self.spec_token() is None,
                self.spec_token() == last_report(self.samplers@.subrange(0, i as int)),
                chain_steps(
                    old(self).samplers@.subrange(0, i as int),
                    self.samplers@.subrange(0, i as int),
                    *old(logits),
                    *logits,
                    old(res).spec_last_tokens(),
                    old(res).spec_has_rng(),
                ),
                i > 0 && (self.samplers@[i - 1] is Greedy) && logits@.len() > 0
                    ==> self.spec_token() == Some(
                    logits@[
                        if logits.spec_sorted() {
                            0int
                        } else {
                            argmax_first(logits@)
                        }
                    ].token_id,
                ),
                i > 0 && (self.samplers@[i - 1] is RandDistrib) && logits@.len() > 0
                    ==> self.spec_token() is Some && exists|q: int|
                    0 <= q < logits@.len() && Some((#[trigger] logits@[q]).token_id)
                        == self.spec_token() && logits@[q].prob.bits > 0,
            decreases n - i,
        {
            let ghost pre_samplers = self.samplers@;
            let ghost logits_pre = *logits;
            let mut s = self.samplers.remove(i);
            let step = s.sample(res, logits);
            self.samplers.insert(i, s);
            proof {
                assert(self.samplers@.subrange(0, i as int) =~= pre_samplers.subrange(
                    0,
                    i as int,
                ));
                assert(self.samplers@ =~= pre_samplers.update(i as int, self.samplers@[i as int]));
            }
            match step {
                Ok(()) => {
                    proof {
                        lemma_chain_steps_push(
                            old(self).samplers@.subrange(0, i as int),
                            self.samplers@.subrange(0, i as int),
                            old(self).samplers@[i as int],
                            self.samplers@[i as int],
                            *old(logits),
                            logits_pre,
                            *logits,
                            old(res).spec_last_tokens(),
                            old(res).spec_has_rng(),
                        );
                        assert(old(self).samplers@.subrange(0, i + 1) =~= old(
                            self,
                        ).samplers@.subrange(0, i as int).push(old(self).samplers@[i as int]));
                        assert(self.samplers@.subrange(0, i + 1) =~= self.samplers@.subrange(
                            0,
                            i as int,
                        ).push(self.samplers@[i as int]));
                    }
                },
                Err(e) => {
                    self.token = None;
                    proof {
                        assert(!kind_never_fails(old(self).samplers@[i as int]));
                    }
                    return Err(e);
                },
            }
            match self.samplers[i].sampled_token_id() {
                Some(t) => {
                    self.token = Some(t);
                },
                None => {},
            }
            proof {
                let pre = self.samplers@.subrange(0, i + 1);
                assert(pre.drop_last() =~= self.samplers@.subrange(0, i as int));
                assert(pre.last() == self.samplers@[i as int]);
            }
            i = i + 1;
        }
        proof {
            assert(self.samplers@.subrange(0, n as int) =~= self.samplers@);
            assert(old(self).samplers@.subrange(0, n as int) =~= old(self).samplers@);
        }
        Ok(())
    }

    /// Run the chain, then report the cached selection.
    pub fn sample_token<R: HasSamplerResources>(&mut self, res: &mut R, logits: &mut Logits) -> (r:
        Result<Option<TID>, SamplerError>)
        requires
            old(logits).wf(),
        ensures
            final(logits).wf(),
            r matches Ok(t) ==> t == final(self).spec_token(),
    {
        match self.sample(res, logits) {
            Ok(()) => Ok(self.sampled_token_id()),
            Err(e) => Err(e),
        }
    }
}

impl Default for SamplerChain {
    fn default() -> (r: SamplerChain)
        ensures
            r.samplers@.len() == 0,
            r.token is None,
    {
        SamplerChain { samplers: Vec::new(), token: None }
    }
}

impl Logits {
    /// Convenience: run one sampler over this container; the dispatch
    /// contract holds of the outcome.
    pub fn sample<R: HasSamplerResources>(&mut self, res: &mut R, sampler: &mut SamplerKind) -> (r:
        Result<(), SamplerError>)
        requires
            old(self).wf(),
        ensures
            final(self).wf(),
            final(res).spec_has_rng() == old(res).spec_has_rng(),
            final(res).spec_last_tokens() == old(res).spec_last_tokens(),
            same_variant(old(sampler), final(sampler)),
            kind_step(
                *old(sampler),
                *final(sampler),
                *old(self),
                *final(self),
                old(res).spec_last_tokens(),
                old(res).spec_has_rng(),
                r,
            ),
    {
        sampler.sample(res, self)
    }

    /// Convenience: run one sampler, then report its selection; the
    /// dispatch contract holds of the outcome.
    pub fn sample_token<R: HasSamplerResources>(
        &mut self,
        res: &mut R,
        sampler: &mut SamplerKind,
    ) -> (r: Result<Option<TID>, SamplerError>)
        requires
            old(self).wf(),
        ensures
            final(self).wf(),
            final(res).spec_has_rng() == old(res).spec_has_rng(),
            final(res).spec_last_tokens() == old(res).spec_last_tokens(),
            same_variant(old(sampler), final(sampler)),
            r matches Ok(t) ==> t == final(sampler).spec_token() && kind_step(
                *old(sampler),
                *final(sampler),
                *old(self),
                *final(self),
                old(res).spec_last_tokens(),
                old(res).spec_has_rng(),
                Ok(()),
            ),
            r matches Err(e) ==> kind_step(
                *old(sampler),
                *final(sampler),
                *old(self),
                *final(self),
                old(res).spec_last_tokens(),
                old(res).spec_has_rng(),
                Err(e),
            ),
    {
        match sampler.sample(res, self) {
            Ok(()) => Ok(sampler.sampled_token_id()),
            Err(e) => Err(e),
        }
    }
}

} // verus!
