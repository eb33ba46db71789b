use vstd::prelude::*;

use crate::fixed::{fx_add, Fx};
use crate::resource::HasSamplerResources;
use crate::types::{Logits, SamplerError, TID};

verus! {

/// The first bias listed for a token, if any.
pub open spec fn bias_for(bias: Seq<(TID, Fx)>, t: TID) -> Option<Fx>
    decreases bias.len(),
{
    if bias.len() == 0 {
        None
    } else if bias[0].0 == t {
        Some(bias[0].1)
    } else {
        bias_for(bias.drop_first(), t)
    }
}

/// Flat bias sampling: adds a per-token bias to the matching logits, for
/// example negative infinity to forbid a token. Saturating addition stands
/// in for the real line's infinities.
#[derive(Debug, Clone, PartialEq, Eq)]
pub struct SampleFlatBias {
    pub bias: Vec<(TID, Fx)>,
}

impl SampleFlatBias {
    /// Construct the sampler from a bias list.
    pub fn new(bias: Vec<(TID, Fx)>) -> (r: SampleFlatBias)
        ensures
            r.bias@ == bias@,
    {
        SampleFlatBias { bias }
    }

    /// Add each listed bias to its token's logit (first listing wins),
    /// leaving other entries alone. Any applied bias clears both validity
    /// flags; with no match the container is untouched.
    pub fn sample<R: HasSamplerResources>(&mut self, _res: &mut R, logits: &mut Logits) -> (r:
        Result<(), SamplerError>)
        requires
            old(logits).wf(),
        ensures
            r.is_ok(),
            final(logits).wf(),
            *final(_res) == *old(_res),
            final(logits)@.len() == old(logits)@.len(),
            forall|i: int|
                0 <= i < old(logits)@.len() ==> (#[trigger] final(logits)@[i]).token_id == old(logits)@[i].token_id && final(logits)@[i].prob == old(logits)@[i].prob,
            forall|i: int|
                0 <= i < old(logits)@.len() ==> (#[trigger] final(logits)@[i]).logit.bits as int
                    == match bias_for(old(self).bias@, old(logits)@[i].token_id) {
                    Some(b) => fx_add(old(logits)@[i].logit.bits as int, b.bits as int),
                    None => old(logits)@[i].logit.bits as int,
                },
            (forall|i: int|
                0 <= i < old(logits)@.len() ==> bias_for(
                    old(self).bias@,
                    (#[trigger] old(logits)@[i]).token_id,
                ) is None) ==> *final(logits) == *old(logits),
            (exists|i: int|
                0 <= i < old(logits)@.len() && bias_for(
                    old(self).bias@,
                    (#[trigger] old(logits)@[i]).token_id,
                ) is Some) ==> !final(logits).spec_sorted() && !final(logits).spec_softmax(),
    {
        let n = logits.len();
        let mut i: usize = 0;
        let mut changed = false;
        while i < n
            invariant
                0 <= i <= n,
                n == logits@.len(),
                logits.wf(),
                old(logits)@.len() == n,
                forall|j: int|
                    0 <= j < n ==> (#[trigger] logits@[j]).token_id == old(logits)@[j].token_id
                        && logits@[j].prob == old(logits)@[j].prob,
                forall|j: int|
                    0 <= j < i ==> (#[trigger] logits@[j]).logit.bits as int == match bias_for(
                        self.bias@,
                        old(logits)@[j].token_id,
                    ) {
                        Some(b) => fx_add(old(logits)@[j].logit.bits as int, b.bits as int),
                        None => old(logits)@[j].logit.bits as int,
                    },
                forall|j: int| i <= j < n ==> (#[trigger] logits@[j]) == old(logits)@[j],
                !changed ==> *logits == *old(logits),
                changed ==> !logits.spec_sorted() && !logits.spec_softmax(),
                changed ==> exists|j: int|
                    0 <= j < n && bias_for(self.bias@, (#[trigger] old(logits)@[j]).token_id)
                        is Some,
                !changed ==> forall|j: int|
                    0 <= j < i ==> bias_for(
                        self.bias@,
                        (#[trigger] old(logits)@[j]).token_id,
                    ) is None,
            decreases n - i,
        {
            let e = logits.entry(i);
            let found = self.lookup(e.token_id);
            match found {
                Some(b) => {
                    let nv = e.logit.add(b);
                    assert(!nv.spec_is_nan());
                    logits.set_logit(i, nv);
                    changed = true;
                },
                None => {},
            }
            i = i + 1;
        }
        Ok(())
    }

    /// Scan the bias list for the first entry naming the token.
    fn lookup(&self, t: TID) -> (r: Option<Fx>)
        ensures
            r == bias_for(self.bias@, t),
    {
        let n = self.bias.len();
        let mut i: usize = 0;
        proof {
            assert(self.bias@.skip(0) =~= self.bias@);
        }
        while i < n
            invariant
                0 <= i <= n,
                n == self.bias@.len(),
                bias_for(self.bias@, t) == bias_for(self.bias@.skip(i as int), t),
            decreases n - i,
        {
            proof {
                let sk = self.bias@.skip(i as int);
                assert(sk.len() > 0);
                assert(sk[0] == self.bias@[i as int]);
                assert(sk.drop_first() =~= self.bias@.skip(i + 1));
            }
            let (tid, b) = self.bias[i];
            if tid == t {
                return Some(b);
            }
            i = i + 1;
        }
        proof {
            assert(self.bias@.skip(n as int).len() == 0);
        }
        None
    }
}

impl Default for SampleFlatBias {
    /// The default bias list is empty.
    fn default() -> (r: SampleFlatBias)
        ensures
            r.bias@.len() == 0,
    {
        SampleFlatBias { bias: Vec::new() }
    }
}

} // verus!
