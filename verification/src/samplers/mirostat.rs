use vstd::prelude::*;

use crate::fixed::{fx_add, fx_div, fx_mul, fx_sat, fx_sat_usize, fx_sub, Fx, FX_ONE};
use crate::fxmath::{lg_fx, lg_spec, ln_fx, ln_spec, pow_fx, pow_spec};
use crate::resource::HasSamplerResources;
use crate::samplers::rand_distrib::SampleRandDistrib;
use crate::samplers::top_k::SampleTopK;
use crate::types::{Logit, Logits, SamplerError, TID};

verus! {

/// The surprise of a probability: `-log2(p)`, with probabilities below one
/// raw unit floored to one unit.
pub open spec fn surprise_of(p: int) -> int {
    fx_sub(
        0,
        lg_spec(
            if p < 1 {
                1
            } else {
                p
            },
        ),
    )
}

/// The adaptive controllers' learning-state update after selecting a token
/// of probability `p`: `mu - eta * (surprise - tau)`.
pub open spec fn mu_next(mu: int, eta: int, tau: int, p: int) -> int {
    fx_sub(mu, fx_mul(eta, fx_sub(surprise_of(p), tau)))
}

/// The exec form of the surprise.
fn surprise_exec(p: i64) -> (r: i64)
    ensures
        r as int == surprise_of(p as int),
{
    let q = if p < 1 {
        1
    } else {
        p
    };
    let lg = lg_fx(q);
    Fx { bits: 0 }.sub(Fx { bits: lg }).bits
}

/// Find an entry carrying the token with a positive probability.
fn find_token(logits: &Logits, t: TID) -> (r: Option<usize>)
    ensures
        r matches Some(i) ==> i < logits@.len() && logits@[i as int].token_id == t
            && logits@[i as int].prob.bits >= 1,
        r is None ==> forall|j: int|
            0 <= j < logits@.len() ==> !((#[trigger] logits@[j]).token_id == t
                && logits@[j].prob.bits >= 1),
{
    let n = logits.len();
    let mut i: usize = 0;
    while i < n
        invariant
            0 <= i <= n,
            n == logits@.len(),
            forall|j: int|
                0 <= j < i ==> !((#[trigger] logits@[j]).token_id == t && logits@[j].prob.bits
                    >= 1),
        decreases n - i,
    {
        let e = logits.entry(i);
        if e.token_id == t && e.prob.bits >= 1 {
            return Some(i);
        }
        i = i + 1;
    }
    None
}

/// The `i`th ratio term of the Zipf-exponent estimate:
/// `ln((i + 2) / (i + 1))` in fixed point.
pub open spec fn m1_t(i: int) -> int {
    ln_spec(fx_div(fx_sat((i + 2) * FX_ONE as int), fx_sat((i + 1) * FX_ONE as int)))
}

/// The `i`th probability ratio of adjacent softmaxed entries.
pub open spec fn m1_b(sm: Seq<Logit>, i: int) -> int {
    fx_div(sm[i].prob.bits as int, sm[i + 1].prob.bits as int)
}

/// Sum of the first `i` products `t_j * b_j` of the estimate.
pub open spec fn m1_sum_tb(sm: Seq<Logit>, i: int) -> int
    decreases i,
{
    if i <= 0 {
        0
    } else {
        fx_add(m1_sum_tb(sm, i - 1), fx_mul(m1_t(i - 1), m1_b(sm, i - 1)))
    }
}

/// Sum of the first `i` squares `t_j * t_j` of the estimate.
pub open spec fn m1_sum_tt(i: int) -> int
    decreases i,
{
    if i <= 0 {
        0
    } else {
        fx_add(m1_sum_tt(i - 1), fx_mul(m1_t(i - 1), m1_t(i - 1)))
    }
}

/// The truncation size the first Mirostat derives from the softmaxed
/// probabilities `sm`, the ratio count `m`, the vocabulary size and the
/// current surprise target `mu`: the closed form of the Zipf estimate
/// and the power step, clamped to at least one.
pub open spec fn m1_k(sm: Seq<Logit>, m: int, n_vocab: int, mu: int) -> int {
    let upto = if m - 1 < sm.len() - 1 {
        m - 1
    } else {
        sm.len() - 1
    };
    let s_hat = fx_div(m1_sum_tb(sm, upto), m1_sum_tt(upto));
    let eps = fx_sub(s_hat, FX_ONE as int);
    let nv = fx_sat(n_vocab * FX_ONE as int);
    let nvb = if nv < 1 {
        1int
    } else {
        nv
    };
    let nv_pow = pow_spec(nvb, fx_sub(0, eps));
    let base = fx_sub(fx_mul(eps, fx_mul(mu, mu)), nv_pow);
    let kfx = if base < 1 {
        FX_ONE as int
    } else {
        pow_spec(base, fx_div(FX_ONE as int, s_hat))
    };
    let k = if kfx <= 0 {
        0int
    } else {
        fx_sat_usize(kfx / FX_ONE as int)
    };
    if k < 1 {
        1int
    } else {
        k
    }
}

/// Mirostat (first version): estimates a Zipf exponent from the head of the
/// distribution, derives a truncation size from it and the learning state
/// `mu`, keeps that many entries, selects by weighted draw, and moves `mu`
/// toward holding the selection's surprise near `tau`.
#[derive(Debug, Clone, Copy, PartialEq, Eq, Structural)]
pub struct SampleMirostat1 {
    pub n_vocab: usize,
    pub m: usize,
    pub tau: Fx,
    pub eta: Fx,
    pub mu: Fx,
    pub token: Option<TID>,
    pub rd_sampler: SampleRandDistrib,
}

impl SampleMirostat1 {
    /// Build with a vocabulary size, target surprise and learning rate;
    /// `mu` starts at twice the target.
    pub fn new(n_vocab: usize, tau: Fx, eta: Fx) -> (r: SampleMirostat1)
        ensures
            r.n_vocab == n_vocab,
            r.tau == tau,
            r.eta == eta,
            r.mu.bits as int == crate::fixed::fx_add(tau.bits as int, tau.bits as int),
            r.m == 100,
            r.spec_token() is None,
    {
        SampleMirostat1 {
            n_vocab,
            m: 100,
            tau,
            eta,
            mu: tau.add(tau),
            token: None,
            rd_sampler: SampleRandDistrib::new(),
        }
    }

    pub closed spec fn spec_token(&self) -> Option<TID> {
        self.token
    }

    pub fn get_token_id(&self) -> (r: Option<TID>)
        ensures
            r == self.spec_token(),
    {
        self.token
    }

    /// Builder-style update of the vocabulary size.
    pub fn n_vocab(self, val: usize) -> (r: SampleMirostat1)
        ensures
            r == (SampleMirostat1 { n_vocab: val, ..self }),
    {
        SampleMirostat1 { n_vocab: val, ..self }
    }

    /// Builder-style update of `m`.
    pub fn m(self, val: usize) -> (r: SampleMirostat1)
        ensures
            r == (SampleMirostat1 { m: val, ..self }),
    {
        SampleMirostat1 { m: val, ..self }
    }

    /// Builder-style update of `tau`; also resets `mu` to twice `tau`.
    pub fn tau(self, val: Fx) -> (r: SampleMirostat1)
        ensures
            r.tau == val,
            r.mu.bits as int == crate::fixed::fx_add(val.bits as int, val.bits as int),
            r.eta == self.eta,
            r.m == self.m,
            r.n_vocab == self.n_vocab,
    {
        SampleMirostat1 { tau: val, mu: val.add(val), ..self }
    }

    /// Builder-style update of `eta`.
    pub fn eta(self, val: Fx) -> (r: SampleMirostat1)
        ensures
            r == (SampleMirostat1 { eta: val, ..self }),
    {
        SampleMirostat1 { eta: val, ..self }
    }

    /// Builder-style update of `mu` (set it after `tau` to override the
    /// automatic reset).
    pub fn mu(self, val: Fx) -> (r: SampleMirostat1)
        ensures
            r == (SampleMirostat1 { mu: val, ..self }),
    {
        SampleMirostat1 { mu: val, ..self }
    }

    /// One adaptive sampling pass. A designed no-op (empty input or `m`
    /// below one) reports no token; a vocabulary size of zero is an error;
    /// otherwise success depends exactly on a random-number source being
    /// present, and on success the learning state moves by
    /// `eta * (surprise(selected) - tau)`.
    pub fn sample<R: HasSamplerResources>(&mut self, res: &mut R, logits: &mut Logits) -> (r:
        Result<(), SamplerError>)
        requires
            old(logits).wf(),
        ensures
            final(logits).wf(),
            final(res).spec_has_rng() == old(res).spec_has_rng(),
            final(res).spec_last_tokens() == old(res).spec_last_tokens(),
            final(self).tau == old(self).tau,
            final(self).eta == old(self).eta,
            old(logits)@.len() == 0 || old(self).m < 1 ==> r.is_ok() && *final(logits) == *old(logits) && final(self).spec_token() is None && final(self).mu == old(self).mu,
            old(logits)@.len() > 0 && old(self).m >= 1 && old(self).n_vocab == 0 ==> r.is_err()
                && (r matches Err(SamplerError::InternalError(_))) && *final(logits) == *old(logits) && final(self).spec_token() is None && final(self).mu == old(self).mu,
            old(logits)@.len() > 0 && old(self).m >= 1 && old(self).n_vocab != 0 ==> {
                &&& r.is_ok() <==> old(res).spec_has_rng()
                &&& final(logits)@.len() >= 1
                &&& r.is_ok() ==> final(self).spec_token() is Some
                &&& r.is_ok() ==> exists|sm0: Seq<Logit>, mid: Seq<Logit>|
                    #![trigger crate::types::softmax_shape(old(logits)@, sm0), mid.to_multiset()]
                    crate::types::softmax_shape(old(logits)@, sm0) && ({
                        let kk = crate::samplers::top_k::top_k_keep(
                            m1_k(
                                sm0,
                                old(self).m as int,
                                old(self).n_vocab as int,
                                old(self).mu.bits as int,
                            ),
                            1,
                            sm0.len() as int,
                        );
                        1 <= kk <= mid.len() && mid.to_multiset() == sm0.to_multiset()
                            && crate::types::sorted_desc(mid) && crate::types::softmaxed_shape(
                            mid.subrange(0, kk),
                            final(logits)@,
                        )
                    })
                &&& r.is_ok() ==> match final(self).spec_token() {
                    Some(t) => exists|i: int|
                        0 <= i < final(logits)@.len() && (#[trigger] final(logits)@[i]).token_id
                            == t && final(logits)@[i].prob.bits >= 1 && final(self).mu.bits as int == mu_next(
                            old(self).mu.bits as int,
                            old(self).eta.bits as int,
                            old(self).tau.bits as int,
                            final(logits)@[i].prob.bits as int,
                        ),
                    None => final(self).mu == old(self).mu,
                }
            },
            r matches Err(e) ==> (e matches SamplerError::MissingResource(_) || e matches
                SamplerError::InternalError(_)),
    {
        self.token = None;
        let n = logits.len();
        if n == 0 || self.m < 1 {
            return Ok(());
        }
        if self.n_vocab == 0 {
            return Err(
                SamplerError::InternalError("Mirostat v1 sampler requires n_vocab".to_string()),
            );
        }
        let _ = logits.softmax();
        let ghost smx = logits@;
        let ghost mu0 = self.mu.bits as int;
        // Zipf exponent estimate from the first m-1 probability ratios.
        let upto = {
            let a = self.m - 1;
            let b = logits.len() - 1;
            if a < b {
                a
            } else {
                b
            }
        };
        let mut i: usize = 0;
        let mut sum_ti_bi = Fx { bits: 0 };
        let mut sum_ti_sq = Fx { bits: 0 };
        while i < upto
            invariant
                0 <= i <= upto,
                upto < logits@.len(),
                logits.wf(),
                logits@ == smx,
                upto as int == (if self.m - 1 < smx.len() - 1 {
                    self.m - 1
                } else {
                    smx.len() - 1
                }),
                sum_ti_bi.bits as int == m1_sum_tb(smx, i as int),
                sum_ti_sq.bits as int == m1_sum_tt(i as int),
            decreases upto - i,
        {
            let num = Fx::from_uint(i + 2);
            let den = Fx::from_uint(i + 1);
            let ratio = num.div(den);
            assert(ratio.bits >= 1) by {
                crate::fixed::lemma_fx_div_pos(num.bits as int, den.bits as int);
            }
            let t_i = Fx { bits: ln_fx(ratio.bits) };
            let b_i = logits.entry(i).prob.div(logits.entry(i + 1).prob);
            proof {
                assert(t_i.bits as int == m1_t(i as int));
                assert(b_i.bits as int == m1_b(smx, i as int));
            }
            sum_ti_bi = sum_ti_bi.add(t_i.mul(b_i));
            sum_ti_sq = sum_ti_sq.add(t_i.mul(t_i));
            i = i + 1;
        }
        let s_hat = sum_ti_bi.div(sum_ti_sq);
        let epsilon_hat = s_hat.sub(Fx { bits: FX_ONE });
        // The closed-form truncation size.
        let mu2 = self.mu.mul(self.mu);
        let nv = Fx::from_uint(self.n_vocab);
        let nv_bits = if nv.bits < 1 {
            1
        } else {
            nv.bits
        };
        let nv_pow = pow_fx(nv_bits, epsilon_hat.neg().bits);
        let base = epsilon_hat.mul(mu2).sub(Fx { bits: nv_pow });
        let k_fx = if base.bits < 1 {
            Fx { bits: FX_ONE }
        } else {
            let inv_s = Fx { bits: FX_ONE }.div(s_hat);
            Fx { bits: pow_fx(base.bits, inv_s.bits) }
        };
        let mut k = k_fx.to_uint_sat();
        if k < 1 {
            k = 1;
        }
        proof {
            assert(k as int == m1_k(smx, self.m as int, self.n_vocab as int, mu0));
        }
        let mut top_k = SampleTopK::new(k, 1);
        let ghost sm0 = logits@;
        let _ = top_k.sample(res, logits);
        let ghost kk = crate::samplers::top_k::top_k_keep(k as int, 1, sm0.len() as int);
        let ghost mid = choose|mid: Seq<Logit>|
            #![trigger mid.to_multiset()]
            mid.to_multiset() == sm0.to_multiset() && crate::types::sorted_desc(mid) && logits@
                == mid.subrange(0, kk);
        proof {
            vstd::seq_lib::to_multiset_len::<Logit>(mid);
            vstd::seq_lib::to_multiset_len::<Logit>(sm0);
        }
        let rd_res = self.rd_sampler.sample(res, logits);
        match rd_res {
            Ok(()) => {
                match self.rd_sampler.get_token_id() {
                    Some(tid) => {
                        match find_token(logits, tid) {
                            Some(idx) => {
                                let p = logits.entry(idx).prob.bits;
                                let s = surprise_exec(p);
                                self.mu = self.mu.sub(
                                    self.eta.mul(Fx { bits: s }.sub(self.tau)),
                                );
                                self.token = Some(tid);
                                Ok(())
                            },
                            None => {
                                proof {
                                    assert(false);
                                }
                                Err(
                                    SamplerError::InternalError(
                                        "selected token not in logits".to_string(),
                                    ),
                                )
                            },
                        }
                    },
                    None => {
                        proof {
                            assert(false);
                        }
                        Ok(())
                    },
                }
            },
            Err(e) => Err(e),
        }
    }
}

/// Where the second Mirostat's truncation cuts: the first position whose
/// surprise exceeds `mu` (a zero probability counting as infinitely
/// surprising), or the length.
pub open spec fn m2_cut(s: Seq<Logit>, mu: int, i: int) -> int
    decreases s.len() - i when 0 <= i <= s.len()
{
    if i >= s.len() {
        s.len() as int
    } else if s[i].prob.bits < 1 || surprise_of(s[i].prob.bits as int) > mu {
        i
    } else {
        m2_cut(s, mu, i + 1)
    }
}


/// Mirostat (second version): truncates to the prefix whose surprise does
/// not exceed `mu` (at least one entry), renormalizes, selects by weighted
/// draw, and applies the same `mu` update rule as the first version.
#[derive(Debug, Clone, Copy, PartialEq, Eq, Structural)]
pub struct SampleMirostat2 {
    pub tau: Fx,
    pub eta: Fx,
    pub mu: Fx,
    pub token: Option<TID>,
    pub rd_sampler: SampleRandDistrib,
}

impl SampleMirostat2 {
    /// Build with a target surprise and learning rate; `mu` starts at twice
    /// the target.
    pub fn new(tau: Fx, eta: Fx) -> (r: SampleMirostat2)
        ensures
            r.tau == tau,
            r.eta == eta,
            r.mu.bits as int == crate::fixed::fx_add(tau.bits as int, tau.bits as int),
            r.spec_token() is None,
    {
        SampleMirostat2 {
            tau,
            eta,
            mu: tau.add(tau),
            token: None,
            rd_sampler: SampleRandDistrib::new(),
        }
    }

    pub closed spec fn spec_token(&self) -> Option<TID> {
        self.token
    }

    pub fn get_token_id(&self) -> (r: Option<TID>)
        ensures
            r == self.spec_token(),
    {
        self.token
    }

    /// Builder-style update of `tau`; also resets `mu` to twice `tau`.
    pub fn tau(self, val: Fx) -> (r: SampleMirostat2)
        ensures
            r.tau == val,
            r.mu.bits as int == crate::fixed::fx_add(val.bits as int, val.bits as int),
            r.eta == self.eta,
    {
        SampleMirostat2 { tau: val, mu: val.add(val), ..self }
    }

    /// Builder-style update of `eta`.
    pub fn eta(self, val: Fx) -> (r: SampleMirostat2)
        ensures
            r == (SampleMirostat2 { eta: val, ..self }),
    {
        SampleMirostat2 { eta: val, ..self }
    }

    /// Builder-style update of `mu` (set it after `tau` to override the
    /// automatic reset).
    pub fn mu(self, val: Fx) -> (r: SampleMirostat2)
        ensures
            r == (SampleMirostat2 { mu: val, ..self }),
    {
        SampleMirostat2 { mu: val, ..self }
    }

    /// One adaptive sampling pass: truncate by surprise, renormalize,
    /// select. Success depends exactly on a random-number source being
    /// present; on success the learning state moves by
    /// `eta * (surprise(selected) - tau)`.
    pub fn sample<R: HasSamplerResources>(&mut self, res: &mut R, logits: &mut Logits) -> (r:
        Result<(), SamplerError>)
        requires
            old(logits).wf(),
        ensures
            final(logits).wf(),
            final(res).spec_has_rng() == old(res).spec_has_rng(),
            final(res).spec_last_tokens() == old(res).spec_last_tokens(),
            final(self).tau == old(self).tau,
            final(self).eta == old(self).eta,
            old(logits)@.len() == 0 ==> r.is_ok() && *final(logits) == *old(logits) && final(self).spec_token() is None && final(self).mu == old(self).mu,
            old(logits)@.len() > 0 ==> {
                &&& r.is_ok() <==> old(res).spec_has_rng()
                &&& final(logits)@.len() >= 1
                &&& r.is_ok() ==> final(self).spec_token() is Some
                &&& r.is_ok() ==> match final(self).spec_token() {
                    Some(t) => exists|i: int|
                        0 <= i < final(logits)@.len() && (#[trigger] final(logits)@[i]).token_id
                            == t && final(logits)@[i].prob.bits >= 1 && final(self).mu.bits as int == mu_next(
                            old(self).mu.bits as int,
                            old(self).eta.bits as int,
                            old(self).tau.bits as int,
                            final(logits)@[i].prob.bits as int,
                        ),
                    None => final(self).mu == old(self).mu,
                }
                &&& r.is_err() ==> (r matches Err(SamplerError::MissingResource(_)))
                &&& r.is_ok() ==> exists|sm1: Seq<Logit>|
                    #![trigger crate::types::softmax_shape(old(logits)@, sm1)]
                    crate::types::softmax_shape(old(logits)@, sm1) && ({
                        let cut = m2_cut(sm1, old(self).mu.bits as int, 0);
                        let keep = if cut < 1 {
                            1int
                        } else {
                            cut
                        };
                        0 <= keep <= sm1.len() && crate::types::softmax_shape(
                            sm1.subrange(0, keep),
                            final(logits)@,
                        )
                    })
            },
    {
        self.token = None;
        let n = logits.len();
        if n == 0 {
            return Ok(());
        }
        let _ = logits.softmax();
        let ghost sm1 = logits@;
        // Find the truncation point by surprise.
        let mut i: usize = 0;
        let mut cut: usize = logits.len();
        let mut found = false;
        let nn = logits.len();
        while i < nn && !found
            invariant
                0 <= i <= nn,
                nn == logits@.len(),
                logits.wf(),
                !found ==> m2_cut(logits@, self.mu.bits as int, 0) == m2_cut(
                    logits@,
                    self.mu.bits as int,
                    i as int,
                ),
                found ==> cut as int == m2_cut(logits@, self.mu.bits as int, 0),
                found ==> cut <= nn,
                !found ==> cut == nn,
            decreases nn - i,
        {
            let e = logits.entry(i);
            let exceeds = if e.prob.bits < 1 {
                true
            } else {
                let s = surprise_exec(e.prob.bits);
                s > self.mu.bits
            };
            if exceeds {
                cut = i;
                found = true;
            }
            i = i + 1;
        }
        let new_size = if cut < 1 {
            1
        } else {
            cut
        };
        logits.truncate(new_size);
        let ghost trunc = logits@;
        proof {
            assert(trunc =~= sm1.subrange(0, new_size as int));
        }
        let _ = logits.softmax();
        let rd_res = self.rd_sampler.sample(res, logits);
        match rd_res {
            Ok(()) => {
                match self.rd_sampler.get_token_id() {
                    Some(tid) => {
                        match find_token(logits, tid) {
                            Some(idx) => {
                                let p = logits.entry(idx).prob.bits;
                                let s = surprise_exec(p);
                                self.mu = self.mu.sub(
                                    self.eta.mul(Fx { bits: s }.sub(self.tau)),
                                );
                                self.token = Some(tid);
                                Ok(())
                            },
                            None => {
                                proof {
                                    assert(false);
                                }
                                Err(
                                    SamplerError::InternalError(
                                        "selected token not in logits".to_string(),
                                    ),
                                )
                            },
                        }
                    },
                    None => {
                        proof {
                            assert(false);
                        }
                        Ok(())
                    },
                }
            },
            Err(e) => Err(e),
        }
    }
}

} // verus!
