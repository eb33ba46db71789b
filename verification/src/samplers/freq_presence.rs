use vstd::prelude::*;

use crate::fixed::{fx_add, fx_mul, fx_sat, fx_sub, Fx, FX_ONE};
use crate::resource::HasSamplerResources;
use crate::samplers::history::{count_in, count_tok, window_spec, window_vec};
use crate::types::{Logits, SamplerError};

verus! {

/// What the frequency/presence penalty subtracts from a logit whose token
/// occurs `c` times in the window.
pub open spec fn fp_deduction(c: nat, freq: int, presence: int) -> int {
    fx_add(fx_mul(fx_sat(c * FX_ONE as int), freq), presence)
}

/// Presence and frequency penalty sampling: the presence penalty applies
/// once to any token seen in the trailing window; the frequency penalty
/// stacks with the number of occurrences.
#[derive(Debug, Clone, Copy, PartialEq, Eq, Structural)]
pub struct SampleFreqPresence {
    pub frequency_penalty: Fx,
    pub presence_penalty: Fx,
    pub last_n: usize,
}

impl SampleFreqPresence {
    pub fn new(frequency_penalty: Fx, presence_penalty: Fx, last_n: usize) -> (r:
        SampleFreqPresence)
        ensures
            r.frequency_penalty == frequency_penalty,
            r.presence_penalty == presence_penalty,
            r.last_n == last_n,
    {
        SampleFreqPresence { frequency_penalty, presence_penalty, last_n }
    }

    /// Builder-style update of `last_n`.
    pub fn last_n(self, val: usize) -> (r: SampleFreqPresence)
        ensures
            r == (SampleFreqPresence { last_n: val, ..self }),
    {
        SampleFreqPresence { last_n: val, ..self }
    }

    /// Builder-style update of the frequency penalty.
    pub fn frequency(self, val: Fx) -> (r: SampleFreqPresence)
        ensures
            r == (SampleFreqPresence { frequency_penalty: val, ..self }),
    {
        SampleFreqPresence { frequency_penalty: val, ..self }
    }

    /// Builder-style update of the presence penalty.
    pub fn presence(self, val: Fx) -> (r: SampleFreqPresence)
        ensures
            r == (SampleFreqPresence { presence_penalty: val, ..self }),
    {
        SampleFreqPresence { presence_penalty: val, ..self }
    }

    /// Whether the stage is a designed no-op for this input.
    pub open spec fn spec_disabled(&self, n: int) -> bool {
        n == 0 || self.last_n == 0 || (self.frequency_penalty.bits == 0
            && self.presence_penalty.bits == 0)
    }

    /// Subtract `count * frequency_penalty + presence_penalty` from each
    /// entry whose token occurs in the trailing window. Fails only when the
    /// stage is enabled and the provider carries no token history.
    pub fn sample<R: HasSamplerResources>(&mut self, res: &mut R, logits: &mut Logits) -> (r:
        Result<(), SamplerError>)
        requires
            old(logits).wf(),
        ensures
            final(logits).wf(),
            *final(res) == *old(res),
            old(self).spec_disabled(old(logits)@.len() as int) ==> r.is_ok() && *final(logits)
                == *old(logits),
            !old(self).spec_disabled(old(logits)@.len() as int) ==> {
                &&& r.is_ok() <==> old(res).spec_last_tokens() is Some
                &&& r.is_err() ==> *final(logits) == *old(logits) && (r matches Err(
                    SamplerError::MissingResource(_),
                ))
                &&& r.is_ok() ==> {
                    let w = window_spec(
                        old(res).spec_last_tokens().unwrap(),
                        old(self).last_n as int,
                    );
                    &&& (exists|i: int|
                        0 <= i < old(logits)@.len() && count_in(
                            w,
                            (#[trigger] old(logits)@[i]).token_id,
                        ) > 0) ==> !final(logits).spec_sorted() && !final(logits).spec_softmax()
                    &&& (forall|i: int|
                        0 <= i < old(logits)@.len() ==> count_in(
                            w,
                            (#[trigger] old(logits)@[i]).token_id,
                        ) == 0) ==> *final(logits) == *old(logits)
                    &&& final(logits)@.len() == old(logits)@.len()
                    &&& forall|i: int|
                        0 <= i < old(logits)@.len() ==> (#[trigger] final(logits)@[i]).token_id
                            == old(logits)@[i].token_id && final(logits)@[i].prob == old(
                            logits,
                        )@[i].prob
                    &&& forall|i: int|
                        0 <= i < old(logits)@.len() ==> (#[trigger] final(logits)@[i]).logit.bits as int
                            == if count_in(w, old(logits)@[i].token_id) > 0 {
                            fx_sub(
                                old(logits)@[i].logit.bits as int,
                                fp_deduction(
                                    count_in(w, old(logits)@[i].token_id),
                                    old(self).frequency_penalty.bits as int,
                                    old(self).presence_penalty.bits as int,
                                ),
                            )
                        } else {
                            old(logits)@[i].logit.bits as int
                        }
                }
            },
    {
        let n = logits.len();
        if n == 0 || self.last_n == 0 || (self.frequency_penalty.bits == 0
            && self.presence_penalty.bits == 0) {
            return Ok(());
        }
        let tokens = match res.with_last_tokens() {
            Ok(t) => t,
            Err(e) => {
                return Err(e);
            },
        };
        let w = window_vec(&tokens, self.last_n);
        let mut i: usize = 0;
        let mut changed = false;
        while i < n
            invariant
                0 <= i <= n,
                n == logits@.len(),
                logits.wf(),
                old(logits)@.len() == n,
                w@ == window_spec(old(res).spec_last_tokens().unwrap(), old(self).last_n as int),
                self.frequency_penalty == old(self).frequency_penalty,
                self.presence_penalty == old(self).presence_penalty,
                forall|j: int|
                    0 <= j < n ==> (#[trigger] logits@[j]).token_id == old(logits)@[j].token_id
                        && logits@[j].prob == old(logits)@[j].prob,
                forall|j: int|
                    0 <= j < i ==> (#[trigger] logits@[j]).logit.bits as int == if count_in(
                        w@,
                        old(logits)@[j].token_id,
                    ) > 0 {
                        fx_sub(
                            old(logits)@[j].logit.bits as int,
                            fp_deduction(
                                count_in(w@, old(logits)@[j].token_id),
                                old(self).frequency_penalty.bits as int,
                                old(self).presence_penalty.bits as int,
                            ),
                        )
                    } else {
                        old(logits)@[j].logit.bits as int
                    },
                forall|j: int| i <= j < n ==> (#[trigger] logits@[j]) == old(logits)@[j],
                !changed ==> *logits == *old(logits),
                changed ==> !logits.spec_sorted() && !logits.spec_softmax(),
                changed ==> exists|j: int|
                    0 <= j < n && count_in(w@, (#[trigger] old(logits)@[j]).token_id) > 0,
                !changed ==> forall|j: int|
                    0 <= j < i ==> count_in(w@, (#[trigger] old(logits)@[j]).token_id) == 0,
            decreases n - i,
        {
            let e = logits.entry(i);
            let c = count_tok(&w, e.token_id);
            if c > 0 {
                let cf = Fx::from_uint(c);
                let ded = cf.mul(self.frequency_penalty).add(self.presence_penalty);
                let nv = e.logit.sub(ded);
                assert(!nv.spec_is_nan());
                logits.set_logit(i, nv);
                changed = true;
            }
            i = i + 1;
        }
        Ok(())
    }
}

impl Default for SampleFreqPresence {
    /// The default disables both penalties over a 64-token window.
    fn default() -> (r: SampleFreqPresence)
        ensures
            r.frequency_penalty.bits == 0,
            r.presence_penalty.bits == 0,
            r.last_n == 64,
    {
        SampleFreqPresence {
            frequency_penalty: Fx { bits: 0 },
            presence_penalty: Fx { bits: 0 },
            last_n: 64,
        }
    }
}

} // verus!
