use vstd::prelude::*;

use crate::resource::HasSamplerResources;
use crate::types::{Logit, Logits, SamplerError, TID};

verus! {

/// The greatest logit bit pattern in a nonempty sequence.
pub open spec fn max_bits(s: Seq<Logit>) -> int
    decreases s.len(),
{
    if s.len() <= 1 {
        s[0].logit.bits as int
    } else {
        let m = max_bits(s.drop_last());
        if s.last().logit.bits as int >= m {
            s.last().logit.bits as int
        } else {
            m
        }
    }
}

/// The first position holding the greatest logit.
pub open spec fn argmax_first(s: Seq<Logit>) -> int
    decreases s.len(),
{
    if s.len() <= 1 {
        0
    } else if s.last().logit.bits as int > max_bits(s.drop_last()) {
        s.len() - 1
    } else {
        argmax_first(s.drop_last())
    }
}

/// Greedy sampling: selects the token with the highest logit value. On a
/// container whose sorted flag holds this is the first entry; otherwise the
/// scan keeps the first among equal maxima.
#[derive(Debug, Clone, Copy, PartialEq, Eq, Structural)]
pub struct SampleGreedy {
    token_id: Option<TID>,
}

impl SampleGreedy {
    pub fn new() -> (r: SampleGreedy)
        ensures
            r.spec_token() is None,
    {
        SampleGreedy { token_id: None }
    }

    /// The last selection.
    pub closed spec fn spec_token(&self) -> Option<TID> {
        self.token_id
    }

    pub fn get_token_id(&self) -> (r: Option<TID>)
        ensures
            r == self.spec_token(),
    {
        self.token_id
    }

    /// Select the entry with the maximal logit, leaving the container
    /// untouched: the first entry when the sorted flag holds, else the
    /// first among equal maxima.
    pub fn sample<R: HasSamplerResources>(&mut self, _res: &mut R, logits: &mut Logits) -> (r:
        Result<(), SamplerError>)
        requires
            old(logits).wf(),
        ensures
            r.is_ok(),
            *final(_res) == *old(_res),
            *final(logits) == *old(logits),
            old(logits)@.len() == 0 ==> final(self).spec_token() is None,
            old(logits)@.len() > 0 ==> final(self).spec_token() == Some(
                old(logits)@[
                    if old(logits).spec_sorted() {
                        0
                    } else {
                        argmax_first(old(logits)@)
                    }
                ].token_id,
            ),
    {
        let n = logits.len();
        if n == 0 {
            self.token_id = None;
            return Ok(());
        }
        if logits.get_sorted() {
            self.token_id = Some(logits.entry(0).token_id);
            return Ok(());
        }
        let mut best_idx: usize = 0;
        let mut best_bits: i64 = logits.entry(0).logit.bits;
        let mut i: usize = 1;
        proof {
            assert(logits@.subrange(0, 1).len() == 1);
            assert(max_bits(logits@.subrange(0, 1)) == logits@[0].logit.bits as int);
            assert(argmax_first(logits@.subrange(0, 1)) == 0);
        }
        while i < n
            invariant
                1 <= i <= n,
                n == logits@.len(),
                best_idx < i,
                best_bits as int == max_bits(logits@.subrange(0, i as int)),
                best_idx as int == argmax_first(logits@.subrange(0, i as int)),
                best_bits == logits@[best_idx as int].logit.bits,
            decreases n - i,
        {
            let e = logits.entry(i);
            proof {
                let pre = logits@.subrange(0, i + 1);
                assert(pre.drop_last() =~= logits@.subrange(0, i as int));
                assert(pre.last() == logits@[i as int]);
            }
            if e.logit.bits > best_bits {
                best_idx = i;
                best_bits = e.logit.bits;
            }
            i = i + 1;
        }
        proof {
            assert(logits@.subrange(0, n as int) =~= logits@);
        }
        self.token_id = Some(logits.entry(best_idx).token_id);
        Ok(())
    }
}

impl Default for SampleGreedy {
    fn default() -> (r: SampleGreedy)
        ensures
            r.spec_token() is None,
    {
        SampleGreedy { token_id: None }
    }
}

} // verus!
