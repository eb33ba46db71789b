use vstd::prelude::*;

use crate::fixed::{fx_div, fx_mul, Fx, FX_ONE};
use crate::resource::HasSamplerResources;
use crate::samplers::history::{contains_tok, window_spec, window_vec};
use crate::types::{Logits, SamplerError};

verus! {

/// What the repetition penalty makes of one logit: scaled down toward zero
/// when positive, scaled further down when non-positive.
pub open spec fn rep_penalized(l: int, penalty: int) -> int {
    if l <= 0 {
        fx_mul(l, penalty)
    } else {
        fx_div(l, penalty)
    }
}

/// Repetition penalty sampling: penalizes tokens that appear in the
/// trailing `last_n` history tokens. A penalty at or below one counts as
/// disabled (the convention adopted here), as does `last_n` of zero.
#[derive(Debug, Clone, Copy, PartialEq, Eq, Structural)]
pub struct SampleRepetition {
    pub penalty: Fx,
    pub last_n: usize,
}

impl SampleRepetition {
    pub fn new(penalty: Fx, last_n: usize) -> (r: SampleRepetition)
        ensures
            r.penalty == penalty,
            r.last_n == last_n,
    {
        SampleRepetition { penalty, last_n }
    }

    /// Builder-style update of `last_n`.
    pub fn last_n(self, val: usize) -> (r: SampleRepetition)
        ensures
            r.penalty == self.penalty,
            r.last_n == val,
    {
        SampleRepetition { last_n: val, ..self }
    }

    /// Builder-style update of the penalty.
    pub fn penalty(self, val: Fx) -> (r: SampleRepetition)
        ensures
            r.penalty == val,
            r.last_n == self.last_n,
    {
        SampleRepetition { penalty: val, ..self }
    }

    /// Whether the stage is a designed no-op for this input.
    pub open spec fn spec_disabled(&self, n: int) -> bool {
        n == 0 || self.last_n == 0 || self.penalty.bits <= FX_ONE
    }

    /// Penalize every entry whose token occurs in the trailing window:
    /// a non-positive logit is multiplied by the penalty, a positive one
    /// divided by it. Fails only when the stage is enabled and the provider
    /// carries no token history.
    pub fn sample<R: HasSamplerResources>(&mut self, res: &mut R, logits: &mut Logits) -> (r:
        Result<(), SamplerError>)
        requires
            old(logits).wf(),
        ensures
            final(logits).wf(),
            *final(res) == *old(res),
            old(self).spec_disabled(old(logits)@.len() as int) ==> r.is_ok() && *final(logits)
                == *old(logits),
            !old(self).spec_disabled(old(logits)@.len() as int) ==> {
                &&& r.is_ok() <==> old(res).spec_last_tokens() is Some
                &&& r.is_err() ==> *final(logits) == *old(logits) && (r matches Err(
                    SamplerError::MissingResource(_),
                ))
                &&& r.is_ok() ==> {
                    let w = window_spec(
                        old(res).spec_last_tokens().unwrap(),
                        old(self).last_n as int,
                    );
                    &&& (exists|i: int|
                        0 <= i < old(logits)@.len() && w.contains(
                            (#[trigger] old(logits)@[i]).token_id,
                        )) ==> !final(logits).spec_sorted() && !final(logits).spec_softmax()
                    &&& (forall|i: int|
                        0 <= i < old(logits)@.len() ==> !w.contains(
                            (#[trigger] old(logits)@[i]).token_id,
                        )) ==> *final(logits) == *old(logits)
                    &&& final(logits)@.len() == old(logits)@.len()
                    &&& forall|i: int|
                        0 <= i < old(logits)@.len() ==> (#[trigger] final(logits)@[i]).token_id
                            == old(logits)@[i].token_id && final(logits)@[i].prob == old(logits)@[i].prob
                    &&& forall|i: int|
                        0 <= i < old(logits)@.len() ==> (#[trigger] final(logits)@[i]).logit.bits as int == if w.contains(old(logits)@[i].token_id) {
                            rep_penalized(
                                old(logits)@[i].logit.bits as int,
                                old(self).penalty.bits as int,
                            )
                        } else {
                            old(logits)@[i].logit.bits as int
                        }
                }
            },
    {
        let n = logits.len();
        if n == 0 || self.last_n == 0 || self.penalty.bits <= FX_ONE {
            return Ok(());
        }
        let tokens = match res.with_last_tokens() {
            Ok(t) => t,
            Err(e) => {
                return Err(e);
            },
        };
        let w = window_vec(&tokens, self.last_n);
        let mut i: usize = 0;
        let mut changed = false;
        while i < n
            invariant
                0 <= i <= n,
                n == logits@.len(),
                logits.wf(),
                old(logits)@.len() == n,
                w@ == window_spec(old(res).spec_last_tokens().unwrap(), old(self).last_n as int),
                self.penalty == old(self).penalty,
                forall|j: int|
                    0 <= j < n ==> (#[trigger] logits@[j]).token_id == old(logits)@[j].token_id
                        && logits@[j].prob == old(logits)@[j].prob,
                forall|j: int|
                    0 <= j < i ==> (#[trigger] logits@[j]).logit.bits as int == if w@.contains(
                        old(logits)@[j].token_id,
                    ) {
                        rep_penalized(
                            old(logits)@[j].logit.bits as int,
                            old(self).penalty.bits as int,
                        )
                    } else {
                        old(logits)@[j].logit.bits as int
                    },
                forall|j: int| i <= j < n ==> (#[trigger] logits@[j]) == old(logits)@[j],
                !changed ==> *logits == *old(logits),
                changed ==> !logits.spec_sorted() && !logits.spec_softmax(),
                changed ==> exists|j: int|
                    0 <= j < n && w@.contains((#[trigger] old(logits)@[j]).token_id),
                !changed ==> forall|j: int|
                    0 <= j < i ==> !w@.contains((#[trigger] old(logits)@[j]).token_id),
            decreases n - i,
        {
            let e = logits.entry(i);
            if contains_tok(&w, e.token_id) {
                let nv = if e.logit.bits <= 0 {
                    e.logit.mul(self.penalty)
                } else {
                    e.logit.div(self.penalty)
                };
                assert(!nv.spec_is_nan());
                logits.set_logit(i, nv);
                changed = true;
            }
            i = i + 1;
        }
        Ok(())
    }
}

impl Default for SampleRepetition {
    /// The default penalizes mildly over the last 64 tokens.
    fn default() -> (r: SampleRepetition)
        ensures
            r.last_n == 64,
    {
        SampleRepetition { penalty: Fx { bits: 18454938 }, last_n: 64 }
    }
}

} // verus!
