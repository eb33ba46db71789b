use vstd::prelude::*;

use crate::resource::HasSamplerResources;
use crate::types::{sorted_desc, with_logit, Logits, SamplerError};

verus! {

/// Top-K sampling: retains the top `max(k, min_keep)` entries with the
/// highest logit; the remaining entries are eliminated.
#[derive(Debug, Clone, Copy, PartialEq, Eq, Structural)]
pub struct SampleTopK {
    pub k: usize,
    pub min_keep: usize,
}

/// The number of entries Top-K keeps of `n`: `k` raised to at least
/// `min_keep` and capped at `n`.
pub open spec fn top_k_keep(k: int, min_keep: int, n: int) -> int {
    let kk = if k > min_keep {
        k
    } else {
        min_keep
    };
    if kk < n {
        kk
    } else {
        n
    }
}

impl SampleTopK {
    pub fn new(k: usize, min_keep: usize) -> (r: SampleTopK)
        ensures
            r.k == k,
            r.min_keep == min_keep,
    {
        SampleTopK { k, min_keep }
    }

    /// Builder-style update of `min_keep`.
    pub fn min_keep(self, val: usize) -> (r: SampleTopK)
        ensures
            r.k == self.k,
            r.min_keep == val,
    {
        SampleTopK { min_keep: val, ..self }
    }

    /// Builder-style update of `k`.
    pub fn k(self, val: usize) -> (r: SampleTopK)
        ensures
            r.k == val,
            r.min_keep == self.min_keep,
    {
        SampleTopK { k: val, ..self }
    }

    /// Sort descending and keep the `max(k, min_keep)` (at most all)
    /// highest-logit entries: the result is a prefix of a descending
    /// rearrangement of the input, so every kept entry has a logit at least
    /// that of every dropped one.
    pub fn sample<R: HasSamplerResources>(&mut self, _res: &mut R, logits: &mut Logits) -> (r:
        Result<(), SamplerError>)
        requires
            old(logits).wf(),
        ensures
            r.is_ok(),
            final(logits).wf(),
            *final(_res) == *old(_res),
            final(logits)@.len() == top_k_keep(
                old(self).k as int,
                old(self).min_keep as int,
                old(logits)@.len() as int,
            ),
            sorted_desc(final(logits)@),
            final(logits).spec_sorted(),
            exists|mid: Seq<crate::types::Logit>|
                #![trigger mid.to_multiset()]
                mid.to_multiset() == old(logits)@.to_multiset() && sorted_desc(mid) && (forall|key: i64|
                    #[trigger] with_logit(mid, key) == with_logit(old(logits)@, key)) && final(logits)@
                    == mid.subrange(
                    0,
                    top_k_keep(old(self).k as int, old(self).min_keep as int, old(logits)@.len() as int),
                ),
    {
        let _ = logits.ensure_sorted();
        let ghost mid = logits@;
        let kk = if self.k > self.min_keep {
            self.k
        } else {
            self.min_keep
        };
        let n = logits.len();
        let keep = if kk < n {
            kk
        } else {
            n
        };
        logits.truncate(keep);
        Ok(())
    }
}

impl Default for SampleTopK {
    /// The default keeps the top 40, and at least one entry.
    fn default() -> (r: SampleTopK)
        ensures
            r.k == 40,
            r.min_keep == 1,
    {
        SampleTopK { k: 40, min_keep: 1 }
    }
}

} // verus!
