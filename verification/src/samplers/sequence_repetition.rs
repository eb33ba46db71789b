use vstd::prelude::*;

use crate::fixed::{fx_add, fx_mul, fx_sat, fx_sub, Fx, FX_ONE};
use crate::resource::HasSamplerResources;
use crate::samplers::history::{window_spec, window_vec};
use crate::types::{Logits, SamplerError, TID};

verus! {

/// What one sequence-repetition hit subtracts from a logit when the
/// longest continued sequence has length `c`:
/// `c * stacking_penalty + flat_penalty`.
pub open spec fn seq_deduction(c: int, stacking: int, flat: int) -> int {
    fx_add(fx_mul(fx_sat(c * FX_ONE as int), stacking), flat)
}

/// The fuzzy walk of the candidate region (`hay`, from `hay_start`)
/// against the trailing needle (from `needle_start`, `nlen` tokens): each
/// exact match resets a one-step lookahead window, each mismatch consumes
/// one unit of tolerance and widens the window to `ml + 1` steps, and a
/// walk that covers the whole needle ends at the hay position it reports.
pub open spec fn fuzzy_walk(
    toks: Seq<TID>,
    hay_start: int,
    needle_start: int,
    nlen: int,
    hp: int,
    window: int,
    tol: int,
    nidx: int,
    ml: int,
) -> Option<int>
    decreases nlen - nidx, window when 0 <= nidx <= nlen && 0 <= window
{
    if nidx >= nlen {
        None
    } else if window <= 0 {
        if tol <= 0 {
            None
        } else {
            fuzzy_walk(toks, hay_start, needle_start, nlen, hp, ml + 1, tol - 1, nidx + 1, ml)
        }
    } else if hp >= toks.len() - hay_start {
        None
    } else if toks[hay_start + hp] == toks[needle_start + nidx] {
        if nidx + 1 == nlen {
            Some(hp + 1)
        } else {
            fuzzy_walk(toks, hay_start, needle_start, nlen, hp + 1, 1, tol, nidx + 1, ml)
        }
    } else {
        fuzzy_walk(toks, hay_start, needle_start, nlen, hp + 1, window - 1, tol, nidx, ml)
    }
}

/// A successful fuzzy walk ends within the hay and past its start.
proof fn lemma_fuzzy_walk_range(
    toks: Seq<TID>,
    hay_start: int,
    needle_start: int,
    nlen: int,
    hp: int,
    window: int,
    tol: int,
    nidx: int,
    ml: int,
)
    requires
        0 <= nidx <= nlen,
        0 <= window,
        0 <= hp,
        0 <= ml,
    ensures
        fuzzy_walk(toks, hay_start, needle_start, nlen, hp, window, tol, nidx, ml) matches Some(e)
            ==> hp + 1 <= e <= toks.len() - hay_start,
    decreases nlen - nidx, window,
{
    if nidx >= nlen {
    } else if window <= 0 {
        if tol > 0 {
            lemma_fuzzy_walk_range(
                toks,
                hay_start,
                needle_start,
                nlen,
                hp,
                ml + 1,
                tol - 1,
                nidx + 1,
                ml,
            );
        }
    } else if hp >= toks.len() - hay_start {
    } else if toks[hay_start + hp] == toks[needle_start + nidx] {
        if nidx + 1 != nlen {
            lemma_fuzzy_walk_range(
                toks,
                hay_start,
                needle_start,
                nlen,
                hp + 1,
                1,
                tol,
                nidx + 1,
                ml,
            );
        }
    } else {
        lemma_fuzzy_walk_range(
            toks,
            hay_start,
            needle_start,
            nlen,
            hp + 1,
            window - 1,
            tol,
            nidx,
            ml,
        );
    }
}

/// Run the fuzzy walk from its starting state.
fn fuzzy_end(
    toks: &Vec<TID>,
    hay_start: usize,
    needle_start: usize,
    nlen: usize,
    tolerance: usize,
    ml: usize,
) -> (r: Option<usize>)
    requires
        hay_start <= toks@.len(),
        needle_start <= toks@.len(),
        nlen <= toks@.len() - needle_start,
        ml < usize::MAX,
    ensures
        r is Some <==> fuzzy_walk(
            toks@,
            hay_start as int,
            needle_start as int,
            nlen as int,
            0,
            1,
            tolerance as int,
            0,
            ml as int,
        ) is Some,
        r matches Some(e) ==> Some(e as int) == fuzzy_walk(
            toks@,
            hay_start as int,
            needle_start as int,
            nlen as int,
            0,
            1,
            tolerance as int,
            0,
            ml as int,
        ) && 1 <= e <= toks@.len() - hay_start,
{
    let tl = toks.len();
    let hay_len = tl - hay_start;
    let mut hp: usize = 0;
    let mut window: usize = 1;
    let mut tol = tolerance;
    let mut nidx: usize = 0;
    loop
        invariant
            tl == toks@.len(),
            hay_start + hay_len == tl,
            nlen <= tl - needle_start,
            ml < usize::MAX,
            0 <= nidx <= nlen,
            0 <= hp <= hay_len,
            fuzzy_walk(
                toks@,
                hay_start as int,
                needle_start as int,
                nlen as int,
                0,
                1,
                tolerance as int,
                0,
                ml as int,
            ) == fuzzy_walk(
                toks@,
                hay_start as int,
                needle_start as int,
                nlen as int,
                hp as int,
                window as int,
                tol as int,
                nidx as int,
                ml as int,
            ),
        decreases nlen - nidx, window,
    {
        if nidx >= nlen {
            return None;
        }
        if window == 0 {
            if tol == 0 {
                return None;
            }
            tol = tol - 1;
            window = ml + 1;
            nidx = nidx + 1;
        } else if hp >= hay_len {
            return None;
        } else if toks[hay_start + hp] == toks[needle_start + nidx] {
            if nidx + 1 == nlen {
                proof {
                    lemma_fuzzy_walk_range(
                        toks@,
                        hay_start as int,
                        needle_start as int,
                        nlen as int,
                        0,
                        1,
                        tolerance as int,
                        0,
                        ml as int,
                    );
                }
                return Some(hp + 1);
            }
            hp = hp + 1;
            window = 1;
            nidx = nidx + 1;
        } else {
            hp = hp + 1;
            window = window - 1;
        }
    }
}

/// Every alignment the scan tries, from the state `(hay_off, nlen)` on:
/// for each candidate region start and trailing-needle length whose first
/// tokens agree, a successful fuzzy walk that leaves room after its end
/// contributes the continuation token it would repeat, with the matched
/// length.
pub open spec fn seqs_from(
    toks: Seq<TID>,
    min_len: int,
    tol: int,
    ml: int,
    hay_off: int,
    nlen: int,
) -> Seq<(TID, usize)>
    decreases toks.len() - hay_off, toks.len() - nlen when 0 <= hay_off <= toks.len() && 0 <= nlen
        <= toks.len() && min_len >= 2
{
    let seqlen = toks.len() as int;
    if seqlen - hay_off <= min_len {
        Seq::empty()
    } else if seqlen - nlen < min_len {
        seqs_from(toks, min_len, tol, ml, hay_off + 1, min_len)
    } else {
        let ns = seqlen - nlen;
        let hay_len = seqlen - hay_off;
        let emit: Seq<(TID, usize)> = if toks[hay_off] == toks[ns] {
            match fuzzy_walk(toks, hay_off, ns, nlen, 0, 1, tol, 0, ml) {
                Some(e) => if hay_len > nlen && hay_len > e + 1 {
                    seq![(toks[hay_off + e], (e + 1) as usize)]
                } else {
                    Seq::empty()
                },
                None => Seq::empty(),
            }
        } else {
            Seq::empty()
        };
        emit + (if nlen + 1 >= hay_len {
            seqs_from(toks, min_len, tol, ml, hay_off + 1, min_len)
        } else {
            seqs_from(toks, min_len, tol, ml, hay_off, nlen + 1)
        })
    }
}

/// All sequences the window's scan finds, with their continuation tokens.
pub open spec fn found_seqs(toks: Seq<TID>, min_len: int, tol: int, ml: int) -> Seq<(TID, usize)> {
    seqs_from(toks, min_len, tol, ml, 0, min_len)
}

/// Scan every alignment of the trailing needle against earlier positions of
/// the window, returning `(token, length)` for every sequence whose
/// continuation token would repeat it.
fn find_seqs(toks: &Vec<TID>, min_len: usize, tolerance: usize, max_merge: usize) -> (r: Vec<
    (TID, usize),
>)
    requires
        min_len >= 2,
        min_len <= toks@.len(),
        max_merge < usize::MAX,
    ensures
        r@ == found_seqs(toks@, min_len as int, tolerance as int, max_merge as int),
{
    let seqlen = toks.len();
    let mut acc: Vec<(TID, usize)> = Vec::new();
    let mut hay_off: usize = 0;
    let mut nlen: usize = min_len;
    while seqlen - hay_off > min_len
        invariant
            seqlen == toks@.len(),
            min_len >= 2,
            max_merge < usize::MAX,
            0 <= hay_off <= seqlen,
            min_len <= nlen <= seqlen,
            found_seqs(toks@, min_len as int, tolerance as int, max_merge as int) == acc@
                + seqs_from(
                toks@,
                min_len as int,
                tolerance as int,
                max_merge as int,
                hay_off as int,
                nlen as int,
            ),
        decreases seqlen - hay_off, seqlen - nlen,
    {
        let hay_len = seqlen - hay_off;
        if seqlen - nlen < min_len {
            hay_off = hay_off + 1;
            nlen = min_len;
        } else {
            let ghost prev_acc = acc@;
            let ghost prev_hay = hay_off;
            let ghost prev_ns = seqlen - nlen;
            let ghost prev_nlen = nlen;
            let ns = seqlen - nlen;
            if toks[hay_off] == toks[ns] {
                match fuzzy_end(toks, hay_off, ns, nlen, tolerance, max_merge) {
                    Some(e) => {
                        if hay_len > nlen && e < hay_len - 1 {
                            acc.push((toks[hay_off + e], e + 1));
                        }
                    },
                    None => {},
                }
            }
            if nlen + 1 >= hay_len {
                hay_off = hay_off + 1;
                nlen = min_len;
            } else {
                nlen = nlen + 1;
            }
            proof {
                let full = found_seqs(toks@, min_len as int, tolerance as int, max_merge as int);
                let e = if toks@[prev_hay as int] == toks@[prev_ns as int] {
                    match fuzzy_walk(
                        toks@,
                        prev_hay as int,
                        prev_ns as int,
                        prev_nlen as int,
                        0,
                        1,
                        tolerance as int,
                        0,
                        max_merge as int,
                    ) {
                        Some(x) => if (seqlen - prev_hay) as int > prev_nlen as int && (seqlen
                            - prev_hay) as int > x + 1 {
                            seq![(toks@[prev_hay + x], (x + 1) as usize)]
                        } else {
                            Seq::<(TID, usize)>::empty()
                        },
                        None => Seq::<(TID, usize)>::empty(),
                    }
                } else {
                    Seq::<(TID, usize)>::empty()
                };
                assert(acc@ =~= prev_acc + e);
                assert(prev_acc + (e + seqs_from(
                    toks@,
                    min_len as int,
                    tolerance as int,
                    max_merge as int,
                    hay_off as int,
                    nlen as int,
                )) =~= (prev_acc + e) + seqs_from(
                    toks@,
                    min_len as int,
                    tolerance as int,
                    max_merge as int,
                    hay_off as int,
                    nlen as int,
                ));
            }
        }
    }
    proof {
        assert(acc@ + Seq::<(TID, usize)>::empty() =~= acc@);
        assert(found_seqs(toks@, min_len as int, tolerance as int, max_merge as int) =~= acc@);
    }
    acc
}

/// Fold one `(token, length)` pair into the penalty map, keeping the
/// greatest length per token.
pub open spec fn upsert(acc: Seq<(TID, usize)>, tid: TID, c: usize) -> Seq<(TID, usize)>
    decreases acc.len(),
{
    if acc.len() == 0 {
        seq![(tid, c)]
    } else if acc[0].0 == tid {
        if c > acc[0].1 {
            seq![(tid, c)] + acc.drop_first()
        } else {
            acc
        }
    } else {
        seq![acc[0]] + upsert(acc.drop_first(), tid, c)
    }
}

/// The penalty map of the first `n` found pairs: greatest length per
/// token, first appearances first.
pub open spec fn merged(pairs: Seq<(TID, usize)>, n: int) -> Seq<(TID, usize)>
    decreases n,
{
    if n <= 0 {
        Seq::empty()
    } else {
        upsert(merged(pairs, n - 1), pairs[n - 1].0, pairs[n - 1].1)
    }
}

/// The length the penalty map holds for a token, if any.
pub open spec fn pen_of(pm: Seq<(TID, usize)>, t: TID) -> Option<usize>
    decreases pm.len(),
{
    if pm.len() == 0 {
        None
    } else if pm[0].0 == t {
        Some(pm[0].1)
    } else {
        pen_of(pm.drop_first(), t)
    }
}

proof fn lemma_upsert_first(acc: Seq<(TID, usize)>, tid: TID, c: usize, j: int)
    requires
        0 <= j < acc.len(),
        acc[j].0 == tid,
        forall|q: int| 0 <= q < j ==> (#[trigger] acc[q]).0 != tid,
    ensures
        upsert(acc, tid, c) == if c > acc[j].1 {
            acc.update(j, (tid, c))
        } else {
            acc
        },
    decreases acc.len(),
{
    if j == 0 {
        if c > acc[0].1 {
            assert(seq![(tid, c)] + acc.drop_first() =~= acc.update(0, (tid, c)));
        }
    } else {
        assert(forall|q: int|
            0 <= q < j - 1 ==> (#[trigger] acc.drop_first()[q]).0 == acc[q + 1].0);
        lemma_upsert_first(acc.drop_first(), tid, c, j - 1);
        if c > acc[j].1 {
            assert(seq![acc[0]] + acc.drop_first().update(j - 1, (tid, c)) =~= acc.update(
                j,
                (tid, c),
            ));
        } else {
            assert(seq![acc[0]] + acc.drop_first() =~= acc);
        }
    }
}

proof fn lemma_upsert_none(acc: Seq<(TID, usize)>, tid: TID, c: usize)
    requires
        forall|q: int| 0 <= q < acc.len() ==> (#[trigger] acc[q]).0 != tid,
    ensures
        upsert(acc, tid, c) == acc.push((tid, c)),
    decreases acc.len(),
{
    if acc.len() == 0 {
        assert(seq![(tid, c)] =~= acc.push((tid, c)));
    } else {
        assert(forall|q: int|
            0 <= q < acc.drop_first().len() ==> (#[trigger] acc.drop_first()[q]).0 == acc[
                q + 1
            ].0);
        lemma_upsert_none(acc.drop_first(), tid, c);
        assert(seq![acc[0]] + acc.drop_first().push((tid, c)) =~= acc.push((tid, c)));
    }
}

/// Keep the greatest length seen for each token.
fn merge_max(pairs: Vec<(TID, usize)>) -> (r: Vec<(TID, usize)>)
    ensures
        r@ == merged(pairs@, pairs@.len() as int),
        forall|k: int, l: int|
            0 <= k < l < r@.len() ==> (#[trigger] r@[k]).0 != (#[trigger] r@[l]).0,
{
    let mut out: Vec<(TID, usize)> = Vec::new();
    let mut i: usize = 0;
    while i < pairs.len()
        invariant
            0 <= i <= pairs@.len(),
            out@ == merged(pairs@, i as int),
            forall|k: int, l: int|
                0 <= k < l < out@.len() ==> (#[trigger] out@[k]).0 != (#[trigger] out@[l]).0,
        decreases pairs@.len() - i,
    {
        let (tid, c) = pairs[i];
        let mut j: usize = 0;
        let mut seen = false;
        while j < out.len() && !seen
            invariant
                0 <= j <= out@.len(),
                forall|k: int, l: int|
                    0 <= k < l < out@.len() ==> (#[trigger] out@[k]).0 != (#[trigger] out@[l]).0,
                !seen ==> forall|q: int| 0 <= q < j ==> (#[trigger] out@[q]).0 != tid,
                seen ==> out@ == upsert(merged(pairs@, i as int), tid, c),
                !seen ==> out@ == merged(pairs@, i as int),
            decreases out@.len() - j + (if seen {
                0int
            } else {
                1int
            }),
        {
            let (otid, oc) = out[j];
            if otid == tid {
                seen = true;
                proof {
                    lemma_upsert_first(out@, tid, c, j as int);
                }
                if c > oc {
                    let ghost before = out@;
                    out[j] = (tid, c);
                    proof {
                        assert(out@ =~= before.update(j as int, (tid, c)));
                        assert(before[j as int].0 == tid);
                        assert forall|k: int, l: int| 0 <= k < l < out@.len() implies (
                        #[trigger] out@[k]).0 != (#[trigger] out@[l]).0 by {
                            assert(before[k].0 != before[l].0);
                        }
                    }
                }
            } else {
                j = j + 1;
            }
        }
        if !seen {
            proof {
                lemma_upsert_none(out@, tid, c);
            }
            out.push((tid, c));
        }
        i = i + 1;
    }
    out
}

/// Sequence-repetition sampling: penalizes tokens that would continue a
/// trailing sequence of the history that already occurred earlier in the
/// window, located by fuzzy matching with a mismatch `tolerance` and a
/// lookahead of `max_merge` steps per tolerated mismatch.
#[derive(Debug, Clone, Copy, PartialEq, Eq, Structural)]
pub struct SampleSeqRepetition {
    pub flat_penalty: Fx,
    pub stacking_penalty: Fx,
    pub tolerance: usize,
    pub max_merge: usize,
    pub min_length: usize,
    pub last_n: usize,
}

impl SampleSeqRepetition {
    pub fn new(
        flat_penalty: Fx,
        stacking_penalty: Fx,
        min_length: usize,
        tolerance: usize,
        max_merge: usize,
        last_n: usize,
    ) -> (r: SampleSeqRepetition)
        ensures
            r == (SampleSeqRepetition {
                flat_penalty,
                stacking_penalty,
                min_length,
                tolerance,
                max_merge,
                last_n,
            }),
    {
        SampleSeqRepetition { flat_penalty, stacking_penalty, min_length, tolerance, max_merge, last_n }
    }

    /// Builder-style update of `min_length`.
    pub fn min_length(self, val: usize) -> (r: SampleSeqRepetition)
        ensures
            r == (SampleSeqRepetition { min_length: val, ..self }),
    {
        SampleSeqRepetition { min_length: val, ..self }
    }

    /// Builder-style update of `tolerance`.
    pub fn tolerance(self, val: usize) -> (r: SampleSeqRepetition)
        ensures
            r == (SampleSeqRepetition { tolerance: val, ..self }),
    {
        SampleSeqRepetition { tolerance: val, ..self }
    }

    /// Builder-style update of `max_merge`.
    pub fn max_merge(self, val: usize) -> (r: SampleSeqRepetition)
        ensures
            r == (SampleSeqRepetition { max_merge: val, ..self }),
    {
        SampleSeqRepetition { max_merge: val, ..self }
    }

    /// Builder-style update of `last_n`.
    pub fn last_n(self, val: usize) -> (r: SampleSeqRepetition)
        ensures
            r == (SampleSeqRepetition { last_n: val, ..self }),
    {
        SampleSeqRepetition { last_n: val, ..self }
    }

    /// Builder-style update of the flat penalty.
    pub fn flat_penalty(self, val: Fx) -> (r: SampleSeqRepetition)
        ensures
            r == (SampleSeqRepetition { flat_penalty: val, ..self }),
    {
        SampleSeqRepetition { flat_penalty: val, ..self }
    }

    /// Builder-style update of the stacking penalty.
    pub fn stacking_penalty(self, val: Fx) -> (r: SampleSeqRepetition)
        ensures
            r == (SampleSeqRepetition { stacking_penalty: val, ..self }),
    {
        SampleSeqRepetition { stacking_penalty: val, ..self }
    }

    /// Whether the stage is a designed no-op for this input.
    pub open spec fn spec_disabled(&self, n: int) -> bool {
        n == 0 || (self.flat_penalty.bits == 0 && self.stacking_penalty.bits == 0)
            || self.min_length < 2 || self.last_n < self.min_length
    }

    /// The lookahead width, capped one below the machine edge so the
    /// widened window stays representable; a wider lookahead than the
    /// window's length behaves the same.
    pub open spec fn spec_merge_cap(&self) -> int {
        if self.max_merge < usize::MAX {
            self.max_merge as int
        } else {
            usize::MAX as int - 1
        }
    }

    /// The penalty map this configuration derives from a history: the
    /// greatest matched length per continuation token over every sequence
    /// the window's fuzzy scan finds.
    pub open spec fn spec_penalties(&self, hist: Seq<TID>) -> Seq<(TID, usize)> {
        let w = window_spec(hist, self.last_n as int);
        let found = found_seqs(w, self.min_length as int, self.tolerance as int, self.spec_merge_cap());
        merged(found, found.len() as int)
    }

    /// For every token that would continue a repeated trailing sequence of
    /// the history window, subtract `length * stacking_penalty +
    /// flat_penalty`, keeping the greatest length per token: exactly the
    /// tokens of the penalty map are penalized, each by exactly its mapped
    /// length. Fails with a missing-resource error without a history, and
    /// with an internal error exactly when a penalized token id lies
    /// outside the container.
    pub fn sample<R: HasSamplerResources>(&mut self, res: &mut R, logits: &mut Logits) -> (r:
        Result<(), SamplerError>)
        requires
            old(logits).wf(),
        ensures
            final(logits).wf(),
            *final(res) == *old(res),
            final(logits)@.len() == old(logits)@.len(),
            forall|i: int|
                0 <= i < old(logits)@.len() ==> (#[trigger] final(logits)@[i]).token_id == old(logits)@[i].token_id && final(logits)@[i].prob == old(logits)@[i].prob,
            old(self).spec_disabled(old(logits)@.len() as int) ==> r.is_ok() && *final(logits)
                == *old(logits),
            !old(self).spec_disabled(old(logits)@.len() as int) ==> {
                &&& old(res).spec_last_tokens() is None ==> r.is_err() && (r matches Err(
                    SamplerError::MissingResource(_),
                )) && *final(logits) == *old(logits)
                &&& old(res).spec_last_tokens() matches Some(hist) ==> {
                    let pm = old(self).spec_penalties(hist);
                    &&& hist.len() < 2 * old(self).min_length ==> r.is_ok() && *final(logits)
                        == *old(logits)
                    &&& hist.len() >= 2 * old(self).min_length ==> {
                        &&& (r.is_ok() <==> forall|q: int|
                            0 <= q < pm.len() ==> ((#[trigger] pm[q]).0 as int) < old(logits)@.len())
                        &&& r.is_err() ==> (r matches Err(SamplerError::InternalError(_)))
                        &&& r.is_ok() ==> forall|i: int|
                            0 <= i < old(logits)@.len() ==> (#[trigger] final(logits)@[i]).logit.bits as int == (match pen_of(pm, i as TID) {
                                Some(c) => fx_sub(
                                    old(logits)@[i].logit.bits as int,
                                    seq_deduction(
                                        c as int,
                                        old(self).stacking_penalty.bits as int,
                                        old(self).flat_penalty.bits as int,
                                    ),
                                ),
                                None => old(logits)@[i].logit.bits as int,
                            })
                    }
                }
            },
    {
        let n = logits.len();
        if n == 0 || (self.flat_penalty.bits == 0 && self.stacking_penalty.bits == 0)
            || self.min_length < 2 || self.last_n < self.min_length {
            return Ok(());
        }
        let tokens = match res.with_last_tokens() {
            Ok(t) => t,
            Err(e) => {
                return Err(e);
            },
        };
        if self.min_length > usize::MAX / 2 || tokens.len() < 2 * self.min_length {
            return Ok(());
        }
        let toks = window_vec(&tokens, self.last_n);
        proof {
            assert(toks@.len() >= self.min_length as int);
        }
        let ml = if self.max_merge < usize::MAX {
            self.max_merge
        } else {
            usize::MAX - 1
        };
        let found = find_seqs(&toks, self.min_length, self.tolerance, ml);
        let penalize = merge_max(found);
        let ghost pm = old(self).spec_penalties(old(res).spec_last_tokens().unwrap());
        proof {
            assert(penalize@ == pm);
        }
        let mut k: usize = 0;
        while k < penalize.len()
            invariant
                0 <= k <= penalize@.len(),
                n == logits@.len(),
                logits.wf(),
                old(logits)@.len() == n,
                penalize@ == pm,
                !old(self).spec_disabled(old(logits)@.len() as int),
                old(res).spec_last_tokens() is Some,
                old(res).spec_last_tokens().unwrap().len() >= 2 * old(self).min_length,
                *res == *old(res),
                pm == old(self).spec_penalties(old(res).spec_last_tokens().unwrap()),
                forall|q: int, l: int|
                    0 <= q < l < pm.len() ==> (#[trigger] pm[q]).0 != (#[trigger] pm[l]).0,
                forall|q: int| 0 <= q < k ==> ((#[trigger] pm[q]).0 as int) < n,
                self.flat_penalty == old(self).flat_penalty,
                self.stacking_penalty == old(self).stacking_penalty,
                forall|i: int|
                    0 <= i < n ==> (#[trigger] logits@[i]).token_id == old(logits)@[i].token_id
                        && logits@[i].prob == old(logits)@[i].prob,
                forall|i: int|
                    0 <= i < n ==> (#[trigger] logits@[i]).logit.bits as int == (match first_pen(
                        pm,
                        i as TID,
                        k as int,
                    ) {
                        Some(c) => fx_sub(
                            old(logits)@[i].logit.bits as int,
                            seq_deduction(
                                c as int,
                                old(self).stacking_penalty.bits as int,
                                old(self).flat_penalty.bits as int,
                            ),
                        ),
                        None => old(logits)@[i].logit.bits as int,
                    }),
            decreases penalize@.len() - k,
        {
            let (tid, c) = penalize[k];
            let pos = tid as usize;
            if pos >= n {
                proof {
                    assert(((pm[k as int]).0 as int) >= n);
                }
                return Err(SamplerError::InternalError("token out of range".to_string()));
            }
            proof {
                assert(first_pen(pm, pos as TID, k as int) is None) by {
                    lemma_first_pen_distinct(pm, pos as TID, k as int);
                }
            }
            let e = logits.entry(pos);
            let ded = Fx::from_uint(c).mul(self.stacking_penalty).add(self.flat_penalty);
            let nv = e.logit.sub(ded);
            assert(!nv.spec_is_nan());
            let ghost before_state = logits@;
            logits.set_logit(pos, nv);
            proof {
                assert forall|i: int|
                    0 <= i < n implies (#[trigger] logits@[i]).logit.bits as int == (
                match first_pen(pm, i as TID, k + 1) {
                    Some(cc) => fx_sub(
                        old(logits)@[i].logit.bits as int,
                        seq_deduction(
                            cc as int,
                            old(self).stacking_penalty.bits as int,
                            old(self).flat_penalty.bits as int,
                        ),
                    ),
                    None => old(logits)@[i].logit.bits as int,
                }) by {
                    if i == pos as int {
                        assert(first_pen(pm, i as TID, k + 1) == Some(c));
                    } else {
                        assert(logits@[i] == before_state[i]);
                        assert(first_pen(pm, i as TID, k + 1) == first_pen(pm, i as TID, k as int));
                    }
                }
            }
            k = k + 1;
        }
        proof {
            assert forall|i: int| 0 <= i < n implies #[trigger] first_pen(
                pm,
                i as TID,
                pm.len() as int,
            ) == pen_of(pm, i as TID) by {
                lemma_first_pen_full(pm, i as TID, 0);
                assert(pm.skip(0) =~= pm);
            }
        }
        Ok(())
    }
}

/// The first pair among the map's first `k` entries naming the token.
pub open spec fn first_pen(pm: Seq<(TID, usize)>, t: TID, k: int) -> Option<usize>
    decreases k,
{
    if k <= 0 {
        None
    } else if first_pen(pm, t, k - 1) is Some {
        first_pen(pm, t, k - 1)
    } else if 0 <= k - 1 < pm.len() && pm[k - 1].0 == t {
        Some(pm[k - 1].1)
    } else {
        None
    }
}

/// With distinct tokens, a token not among the first `k` entries has no
/// earlier penalty.
proof fn lemma_first_pen_distinct(pm: Seq<(TID, usize)>, t: TID, k: int)
    requires
        0 <= k < pm.len(),
        pm[k].0 == t,
        forall|q: int, l: int|
            0 <= q < l < pm.len() ==> (#[trigger] pm[q]).0 != (#[trigger] pm[l]).0,
    ensures
        first_pen(pm, t, k) is None,
    decreases k,
{
    if k > 0 {
        assert(pm[k - 1].0 != t);
        lemma_first_pen_distinct_inner(pm, t, k, k - 1);
    }
}

proof fn lemma_first_pen_distinct_inner(pm: Seq<(TID, usize)>, t: TID, k: int, j: int)
    requires
        0 <= j < k < pm.len(),
        pm[k].0 == t,
        forall|q: int, l: int|
            0 <= q < l < pm.len() ==> (#[trigger] pm[q]).0 != (#[trigger] pm[l]).0,
    ensures
        first_pen(pm, t, j + 1) is None,
    decreases j,
{
    assert(pm[j].0 != t);
    if j > 0 {
        lemma_first_pen_distinct_inner(pm, t, k, j - 1);
    }
}

/// Scanning the whole map front to back finds the same entry as the
/// first-match lookup.
proof fn lemma_first_pen_full(pm: Seq<(TID, usize)>, t: TID, from: int)
    requires
        0 <= from <= pm.len(),
        first_pen(pm, t, from) is None,
    ensures
        first_pen(pm, t, pm.len() as int) == pen_of(pm.skip(from), t),
    decreases pm.len() - from,
{
    if from == pm.len() {
        assert(pm.skip(from) =~= Seq::<(TID, usize)>::empty());
    } else {
        let sk = pm.skip(from);
        assert(sk[0] == pm[from]);
        assert(sk.drop_first() =~= pm.skip(from + 1));
        if pm[from].0 == t {
            assert(first_pen(pm, t, from + 1) == Some(pm[from].1));
            lemma_first_pen_stable(pm, t, from + 1);
        } else {
            lemma_first_pen_full(pm, t, from + 1);
        }
    }
}

/// A found entry stays found as the scan extends.
proof fn lemma_first_pen_stable(pm: Seq<(TID, usize)>, t: TID, k: int)
    requires
        0 <= k <= pm.len(),
        first_pen(pm, t, k) is Some,
    ensures
        first_pen(pm, t, pm.len() as int) == first_pen(pm, t, k),
    decreases pm.len() - k,
{
    if k < pm.len() {
        lemma_first_pen_stable(pm, t, k + 1);
    }
}

impl Default for SampleSeqRepetition {
    /// The default considers 64 trailing tokens, requires sequences of at
    /// least four, tolerates no mismatches, and disables both penalties.
    fn default() -> (r: SampleSeqRepetition)
        ensures
            r.flat_penalty.bits == 0,
            r.stacking_penalty.bits == 0,
            r.tolerance == 0,
            r.max_merge == 1,
            r.min_length == 4,
            r.last_n == 64,
    {
        SampleSeqRepetition {
            flat_penalty: Fx { bits: 0 },
            stacking_penalty: Fx { bits: 0 },
            tolerance: 0,
            max_merge: 1,
            min_length: 4,
            last_n: 64,
        }
    }
}

} // verus!
