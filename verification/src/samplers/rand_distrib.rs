use vstd::prelude::*;

use crate::rand::sum_i64;
use crate::resource::HasSamplerResources;
use crate::types::{softmaxed_shape, sum_probs, Logit, Logits, SamplerError, TID};

verus! {

/// A weight vector read off a sequence of entries sums to the same total as
/// the probabilities themselves.
pub proof fn lemma_weights_sum(s: Seq<Logit>, w: Seq<i64>)
    requires
        w.len() == s.len(),
        forall|i: int| 0 <= i < s.len() ==> (#[trigger] w[i]) == s[i].prob.bits,
    ensures
        sum_i64(w) == sum_probs(s),
    decreases s.len(),
{
    if s.len() > 0 {
        assert(w.drop_last().len() == s.drop_last().len());
        lemma_weights_sum(s.drop_last(), w.drop_last());
    }
}

/// With nonnegative entries and a positive head, the total is positive.
proof fn lemma_sum_pos(s: Seq<Logit>)
    requires
        s.len() > 0,
        forall|i: int| 0 <= i < s.len() ==> (#[trigger] s[i].prob.bits) >= 0,
        s[0].prob.bits >= 1,
    ensures
        sum_probs(s) >= 1,
    decreases s.len(),
{
    if s.len() == 1 {
    } else {
        assert(s.drop_last()[0] == s[0]);
        lemma_sum_pos(s.drop_last());
    }
}

/// Random-distribution sampling: selects a token with probability
/// proportional to its softmax probability, through the injected
/// random-number source.
#[derive(Debug, Clone, Copy, PartialEq, Eq, Structural)]
pub struct SampleRandDistrib {
    token_id: Option<TID>,
}

impl SampleRandDistrib {
    pub fn new() -> (r: SampleRandDistrib)
        ensures
            r.spec_token() is None,
    {
        SampleRandDistrib { token_id: None }
    }

    /// The last selection.
    pub closed spec fn spec_token(&self) -> Option<TID> {
        self.token_id
    }

    pub fn get_token_id(&self) -> (r: Option<TID>)
        ensures
            r == self.spec_token(),
    {
        self.token_id
    }

    /// Softmax, then draw one entry with probability proportional to its
    /// probability and report its token. Whatever the draw, the reported
    /// token belongs to an entry with positive probability. Fails exactly
    /// when the input is nonempty and the provider carries no
    /// random-number source.
    pub fn sample<R: HasSamplerResources>(&mut self, res: &mut R, logits: &mut Logits) -> (r:
        Result<(), SamplerError>)
        requires
            old(logits).wf(),
        ensures
            final(logits).wf(),
            final(res).spec_has_rng() == old(res).spec_has_rng(),
            final(res).spec_last_tokens() == old(res).spec_last_tokens(),
            old(logits).spec_softmax() ==> *final(logits) == *old(logits),
            old(logits)@.len() == 0 ==> r.is_ok() && *final(logits) == *old(logits) && final(self).spec_token() is None,
            old(logits)@.len() > 0 ==> {
                &&& r.is_ok() <==> old(res).spec_has_rng()
                &&& exists|sm: Seq<Logit>|
                    #![trigger softmaxed_shape(old(logits)@, sm)]
                    softmaxed_shape(old(logits)@, sm) && final(logits)@ == sm
                &&& r.is_ok() ==> final(self).spec_token() is Some
                &&& r.is_ok() ==> exists|i: int|
                    0 <= i < final(logits)@.len() && final(self).spec_token() == Some(
                        (#[trigger] final(logits)@[i]).token_id,
                    ) && final(logits)@[i].prob.bits > 0
                &&& r.is_err() ==> final(self).spec_token() is None
            },
            r matches Err(e) ==> (e matches SamplerError::MissingResource(_)),
    {
        self.token_id = None;
        let n = logits.len();
        if n == 0 {
            return Ok(());
        }
        let _ = logits.ensure_softmax();
        let ghost sm = logits@;
        let weights = logits.probs_vec();
        proof {
            lemma_weights_sum(sm, weights@);
            lemma_sum_pos(sm);
            assert(softmaxed_shape(old(logits)@, sm) && logits@ == sm);
        }
        match res.rand_index(&weights) {
            Ok(idx) => {
                let t = logits.entry(idx).token_id;
                self.token_id = Some(t);
                Ok(())
            },
            Err(e) => Err(e),
        }
    }
}

impl Default for SampleRandDistrib {
    fn default() -> (r: SampleRandDistrib)
        ensures
            r.spec_token() is None,
    {
        SampleRandDistrib { token_id: None }
    }
}

} // verus!
