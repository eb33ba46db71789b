use vstd::prelude::*;

use crate::fixed::{fx_sub, Fx, FX_NAN, FX_ONE};
use crate::fxmath::{exp_fx, exp_spec};

verus! {

/// Type for token identifiers.
pub type TID = u32;

/// Errors of the logits container.
#[derive(Debug, Clone, PartialEq, Eq)]
pub enum LogitsError {
    /// Holds the position (also the token id) of the offending score: a
    /// score may not be the reserved not-a-number pattern.
    InvalidLogit(usize),
    /// General internal error.
    InternalError(String),
}

impl LogitsError {
    /// A short description, in place of a `Display` implementation.
    pub fn message(&self) -> String {
        match self {
            LogitsError::InvalidLogit(_) => "invalid logit: scores may not be NaN".to_string(),
            LogitsError::InternalError(s) => s.clone(),
        }
    }
}

/// Errors of the samplers.
#[derive(Debug)]
pub enum SamplerError {
    /// General internal error.
    InternalError(String),
    /// A required resource (RNG or token history) was not available; holds
    /// the resource's name.
    MissingResource(String),
    /// An error from the logits container.
    LogitsError(LogitsError),
    /// A weighted-distribution construction error from the RNG crate.
    RandWeightedError(rand::distributions::WeightedError),
    /// A general error from the RNG crate, such as an entropy-source
    /// failure while seeding.
    RandError(rand::Error),
}

impl SamplerError {
    /// A short description, in place of a `Display` implementation.
    pub fn message(&self) -> String {
        match self {
            SamplerError::InternalError(s) => s.clone(),
            SamplerError::MissingResource(s) => s.clone(),
            SamplerError::LogitsError(e) => e.message(),
            SamplerError::RandWeightedError(_) => "weighted distribution error".to_string(),
            SamplerError::RandError(_) => "random number generator error".to_string(),
        }
    }
}

/// An individual logit: a token id, its score, and its probability as of
/// the latest softmax pass.
#[derive(Debug, Clone, Copy, PartialEq, Eq, Structural)]
pub struct Logit {
    /// The token id.
    pub token_id: TID,
    /// The logit score.
    pub logit: Fx,
    /// Computed probability; meaningful only while the container's softmax
    /// flag holds.
    pub prob: Fx,
}

/// Descending order by logit score.
pub open spec fn sorted_desc(s: Seq<Logit>) -> bool {
    forall|i: int, j: int|
        0 <= i <= j < s.len() ==> #[trigger] s[i].logit.bits >= #[trigger] s[j].logit.bits
}

/// The (token id, logit) pairs of a sequence of entries: what a sampler pass
/// that only recomputes probabilities leaves unchanged.
pub open spec fn keys_of(s: Seq<Logit>) -> Seq<(TID, i64)> {
    s.map_values(|l: Logit| (l.token_id, l.logit.bits))
}

/// The entries holding exactly this logit value, in order: what a stable
/// reordering preserves.
pub open spec fn with_logit(s: Seq<Logit>, key: i64) -> Seq<Logit> {
    s.filter(|l: Logit| l.logit.bits == key)
}

/// Sum of the probability fields.
pub open spec fn sum_probs(s: Seq<Logit>) -> int
    decreases s.len(),
{
    if s.len() == 0 {
        0
    } else {
        sum_probs(s.drop_last()) + s.last().prob.bits
    }
}

/// Probabilities form a currently-valid softmax result: within `[0, FX_ONE]`,
/// non-increasing along the (sorted) order, with a total within `len` raw
/// units below one, and a strictly positive head.
pub open spec fn probs_current(s: Seq<Logit>) -> bool {
    &&& forall|i: int| 0 <= i < s.len() ==> 0 <= #[trigger] s[i].prob.bits <= FX_ONE
    &&& forall|i: int, j: int|
        0 <= i <= j < s.len() ==> #[trigger] s[i].prob.bits >= #[trigger] s[j].prob.bits
    &&& s.len() > 0 ==> FX_ONE - s.len() <= sum_probs(s) <= FX_ONE
    &&& s.len() > 0 ==> s[0].prob.bits >= 1
    &&& forall|i: int| 0 <= i < s.len() ==> sum_probs(#[trigger] s.subrange(0, i)) < FX_ONE as int
}

/// Upper bound on how many entries a container may hold: one entry per raw
/// probability unit, so that a softmax total is meaningful.
pub open spec fn len_ok(n: int) -> bool {
    n <= FX_ONE
}

/// A collection of [`Logit`]s with the two validity flags: sorted
/// (descending by logit) and softmax (probabilities current).
///
/// Flag discipline: any write to a logit score clears the sorted flag, and
/// any score write or membership change clears the softmax flag.
#[derive(Debug, Clone)]
pub struct Logits {
    sorted: bool,
    softmax: bool,
    logits: Vec<Logit>,
}

impl View for Logits {
    type V = Seq<Logit>;

    closed spec fn view(&self) -> Seq<Logit> {
        self.logits@
    }
}

impl Logits {
    /// Well-formedness: scores are never the reserved NaN pattern, the
    /// flags honestly describe the entries, and the length is bounded.
    pub open spec fn wf(&self) -> bool {
        &&& len_ok(self@.len() as int)
        &&& forall|i: int| 0 <= i < self@.len() ==> (#[trigger] self@[i].logit.bits) != FX_NAN
        &&& forall|i: int| 0 <= i < self@.len() ==> 0 <= (#[trigger] self@[i].prob.bits) <= FX_ONE
        &&& self.spec_sorted() ==> sorted_desc(self@)
        &&& self.spec_softmax() ==> self.spec_sorted() && probs_current(self@)
    }

    pub closed spec fn spec_sorted(&self) -> bool {
        self.sorted
    }

    pub closed spec fn spec_softmax(&self) -> bool {
        self.softmax
    }

    /// Build a container from raw scores, assigning token ids by position.
    /// Fails, naming the position, exactly when a score is the reserved
    /// NaN pattern.
    pub fn try_from_iter(values: Vec<Fx>) -> (r: Result<Logits, LogitsError>)
        requires
            len_ok(values@.len() as int),
            values@.len() <= u32::MAX,
        ensures
            r.is_ok() <==> (forall|i: int|
                0 <= i < values@.len() ==> (#[trigger] values@[i].bits) != FX_NAN),
            r matches Ok(l) ==> {
                &&& l.wf()
                &&& l@.len() == values@.len()
                &&& !l.spec_sorted()
                &&& !l.spec_softmax()
                &&& forall|i: int|
                    0 <= i < values@.len() ==> (#[trigger] l@[i]) == (Logit {
                        token_id: i as TID,
                        logit: values@[i],
                        prob: Fx { bits: 0 },
                    })
            },
            r matches Err(e) ==> {
                &&& e matches LogitsError::InvalidLogit(idx)
                &&& 0 <= idx < values@.len()
                &&& values@[idx as int].bits == FX_NAN
                &&& forall|j: int| 0 <= j < idx ==> (#[trigger] values@[j].bits) != FX_NAN
            },
    {
        let n = values.len();
        let mut out: Vec<Logit> = Vec::new();
        let mut i: usize = 0;
        while i < n
            invariant
                0 <= i <= n,
                n == values@.len(),
                n <= u32::MAX,
                out@.len() == i,
                forall|j: int| 0 <= j < i ==> (#[trigger] values@[j].bits) != FX_NAN,
                forall|j: int|
                    0 <= j < i ==> (#[trigger] out@[j]) == (Logit {
                        token_id: j as TID,
                        logit: values@[j],
                        prob: Fx { bits: 0 },
                    }),
            decreases n - i,
        {
            let v = values[i];
            if v.is_nan() {
                return Err(LogitsError::InvalidLogit(i));
            }
            out.push(Logit { token_id: i as TID, logit: v, prob: Fx { bits: 0 } });
            i = i + 1;
        }
        Ok(Logits { sorted: false, softmax: false, logits: out })
    }

    /// Number of entries.
    pub fn len(&self) -> (r: usize)
        ensures
            r == self@.len(),
    {
        self.logits.len()
    }

    pub fn is_empty(&self) -> (r: bool)
        ensures
            r == (self@.len() == 0),
    {
        self.logits.len() == 0
    }

    /// The entry at a position.
    pub fn entry(&self, i: usize) -> (r: Logit)
        requires
            i < self@.len(),
        ensures
            r == self@[i as int],
    {
        self.logits[i]
    }

    /// Get the sorted flag.
    pub fn get_sorted(&self) -> (r: bool)
        ensures
            r == self.spec_sorted(),
    {
        self.sorted
    }

    /// Set the sorted flag. Claiming sortedness is only accepted of entries
    /// that really are sorted.
    pub fn set_sorted(&mut self, is_sorted: bool)
        requires
            old(self).wf(),
            is_sorted ==> sorted_desc(old(self)@),
        ensures
            final(self).wf(),
            final(self)@ == old(self)@,
            final(self).spec_sorted() == is_sorted,
            final(self).spec_softmax() == (old(self).spec_softmax() && is_sorted),
    {
        self.sorted = is_sorted;
        if !is_sorted {
            self.softmax = false;
        }
    }

    /// Get the softmax-validity flag.
    pub fn get_softmax(&self) -> (r: bool)
        ensures
            r == self.spec_softmax(),
    {
        self.softmax
    }

    /// Clear the softmax-validity flag.
    pub fn clear_softmax(&mut self)
        requires
            old(self).wf(),
        ensures
            final(self).wf(),
            final(self)@ == old(self)@,
            final(self).spec_sorted() == old(self).spec_sorted(),
            !final(self).spec_softmax(),
    {
        self.softmax = false;
    }

    /// Keep only the first `n` entries. A proper truncation is a membership
    /// change and clears the softmax flag; order (and the sorted flag) are
    /// kept, and keeping everything changes nothing.
    pub fn truncate(&mut self, n: usize)
        requires
            old(self).wf(),
        ensures
            final(self).wf(),
            final(self)@ == old(self)@.subrange(0, vstd::math::min(n as int, old(self)@.len() as int)),
            final(self).spec_sorted() == old(self).spec_sorted(),
            final(self).spec_softmax() == (old(self).spec_softmax() && n >= old(self)@.len()),
            n >= old(self)@.len() ==> *final(self) == *old(self),
    {
        if n >= self.logits.len() {
            proof {
                assert(self@.subrange(0, self@.len() as int) =~= self@);
            }
            return ;
        }
        self.logits.truncate(n);
        self.softmax = false;
    }

    /// Overwrite one entry's logit score. A score write: both validity
    /// flags are cleared.
    pub fn set_logit(&mut self, i: usize, v: Fx)
        requires
            old(self).wf(),
            i < old(self)@.len(),
            !v.spec_is_nan(),
        ensures
            final(self).wf(),
            final(self)@ == old(self)@.update(
                i as int,
                Logit { logit: v, ..old(self)@[i as int] },
            ),
            !final(self).spec_sorted(),
            !final(self).spec_softmax(),
    {
        let mut entry = self.logits[i];
        entry.logit = v;
        self.logits[i] = entry;
        self.sorted = false;
        self.softmax = false;
    }

    /// Replace the whole contents. A membership change: both validity flags
    /// are cleared.
    pub fn replace_entries(&mut self, entries: Vec<Logit>)
        requires
            old(self).wf(),
            len_ok(entries@.len() as int),
            forall|i: int| 0 <= i < entries@.len() ==> (#[trigger] entries@[i].logit.bits) != FX_NAN,
            forall|i: int|
                0 <= i < entries@.len() ==> 0 <= (#[trigger] entries@[i].prob.bits) <= FX_ONE,
        ensures
            final(self).wf(),
            final(self)@ == entries@,
            !final(self).spec_sorted(),
            !final(self).spec_softmax(),
    {
        self.logits = entries;
        self.sorted = false;
        self.softmax = false;
    }

    /// The probability fields as a plain weight vector.
    pub fn probs_vec(&self) -> (r: Vec<i64>)
        ensures
            r@.len() == self@.len(),
            forall|i: int| 0 <= i < self@.len() ==> (#[trigger] r@[i]) == self@[i].prob.bits,
    {
        let mut out: Vec<i64> = Vec::new();
        let mut i: usize = 0;
        let n = self.logits.len();
        while i < n
            invariant
                0 <= i <= n,
                n == self@.len(),
                out@.len() == i,
                forall|j: int| 0 <= j < i ==> (#[trigger] out@[j]) == self@[j].prob.bits,
            decreases n - i,
        {
            out.push(self.logits[i].prob.bits);
            i = i + 1;
        }
        out
    }

    /// Ensure the entries are sorted descending by logit. Idempotent: when
    /// the sorted flag already holds, nothing changes. Never fails; the
    /// `Result` mirrors the fallible interface of a sampling pass.
    pub fn ensure_sorted(&mut self) -> (r: Result<(), LogitsError>)
        requires
            old(self).wf(),
        ensures
            r.is_ok(),
            final(self).wf(),
            final(self).spec_sorted(),
            sorted_desc(final(self)@),
            final(self)@.to_multiset() == old(self)@.to_multiset(),
            final(self)@.len() == old(self)@.len(),
            forall|key: i64| #[trigger] with_logit(final(self)@, key) == with_logit(
                old(self)@,
                key,
            ),
            old(self).spec_sorted() ==> *final(self) == *old(self),
            final(self).spec_softmax() == old(self).spec_softmax(),
    {
        if self.sorted {
            return Ok(());
        }
        sort_logits_desc(&mut self.logits);
        self.sorted = true;
        proof {
            lemma_multiset_preserves_nan_free(old(self)@, self@);
            vstd::seq_lib::to_multiset_len::<Logit>(old(self)@);
            vstd::seq_lib::to_multiset_len::<Logit>(self@);
        }
        Ok(())
    }
}

/// A multiset-preserving rearrangement keeps every per-element property;
/// here: scores stay NaN-free and probabilities stay in range.
proof fn lemma_multiset_preserves_nan_free(a: Seq<Logit>, b: Seq<Logit>)
    requires
        a.to_multiset() == b.to_multiset(),
        forall|i: int| 0 <= i < a.len() ==> (#[trigger] a[i].logit.bits) != FX_NAN,
        forall|i: int| 0 <= i < a.len() ==> 0 <= (#[trigger] a[i].prob.bits) <= FX_ONE,
    ensures
        forall|i: int| 0 <= i < b.len() ==> (#[trigger] b[i].logit.bits) != FX_NAN,
        forall|i: int| 0 <= i < b.len() ==> 0 <= (#[trigger] b[i].prob.bits) <= FX_ONE,
{
    assert forall|i: int| 0 <= i < b.len() implies (#[trigger] b[i].logit.bits) != FX_NAN by {
        vstd::seq_lib::to_multiset_contains::<Logit>(b, b[i]);
        assert(b.contains(b[i]));
        assert(b.to_multiset().count(b[i]) > 0);
        vstd::seq_lib::to_multiset_contains::<Logit>(a, b[i]);
        assert(a.contains(b[i]));
        let j = choose|j: int| 0 <= j < a.len() && a[j] == b[i];
        assert(a[j].logit.bits != FX_NAN);
    }
    assert forall|i: int| 0 <= i < b.len() implies 0 <= (#[trigger] b[i].prob.bits) <= FX_ONE by {
        vstd::seq_lib::to_multiset_contains::<Logit>(b, b[i]);
        assert(b.contains(b[i]));
        assert(b.to_multiset().count(b[i]) > 0);
        vstd::seq_lib::to_multiset_contains::<Logit>(a, b[i]);
        assert(a.contains(b[i]));
        let j = choose|j: int| 0 <= j < a.len() && a[j] == b[i];
        assert(0 <= a[j].prob.bits <= FX_ONE);
    }
}

/// Relies on `slice::sort_by`: a stable sort by the comparator, reordering
/// entries and changing nothing else, so the result is a descending-by-logit
/// permutation of the input in which entries of equal logit keep their
/// relative order (stated as: filtering by any logit value is unchanged).
#[verifier::external_body]
fn sort_logits_desc(v: &mut Vec<Logit>)
    ensures
        final(v)@.len() == old(v)@.len(),
        final(v)@.to_multiset() == old(v)@.to_multiset(),
        sorted_desc(final(v)@),
        forall|key: i64| #[trigger] with_logit(final(v)@, key) == with_logit(old(v)@, key),
{
    v.as_mut_slice().sort_by(|a, b| b.logit.bits.cmp(&a.logit.bits));
}


/// The logit bit patterns of a sequence of entries.
pub open spec fn lbits(s: Seq<Logit>) -> Seq<i64> {
    s.map_values(|l: Logit| l.logit.bits)
}

/// The clamped exponential chain of a softmax pass over sorted scores:
/// entry `i` weighs `e^(l_i - l_0)`, floored at one raw unit and clamped
/// to be non-increasing along the order.
pub open spec fn soft_e(ls: Seq<i64>, i: int) -> int
    decreases i,
{
    let e = exp_spec(fx_sub(ls[i] as int, ls[0] as int));
    if i <= 0 {
        e
    } else {
        let p = soft_e(ls, i - 1);
        if e > p {
            p
        } else {
            e
        }
    }
}

/// Sum of the first `n` softmax weights.
pub open spec fn soft_sum(ls: Seq<i64>, n: int) -> int
    decreases n,
{
    if n <= 0 {
        0
    } else {
        soft_sum(ls, n - 1) + soft_e(ls, n - 1)
    }
}

/// The shape any pass that ensures current probabilities leaves behind:
/// a descending rearrangement of the same (token, logit) pairs whose
/// probabilities are currently valid.
pub open spec fn softmaxed_shape(pre: Seq<Logit>, post: Seq<Logit>) -> bool {
    &&& post.len() == pre.len()
    &&& sorted_desc(post)
    &&& probs_current(post)
    &&& exists|mid: Seq<Logit>|
        mid.to_multiset() == pre.to_multiset() && #[trigger] keys_of(mid) == keys_of(post)
}

/// `softmaxed_shape` pinned further: the probabilities follow the
/// clamped-exponential formula over the result's own scores.
pub open spec fn softmax_shape(pre: Seq<Logit>, post: Seq<Logit>) -> bool {
    &&& softmaxed_shape(pre, post)
    &&& forall|i: int|
        0 <= i < post.len() ==> (#[trigger] post[i].prob.bits) as int == soft_e(lbits(post), i) * (
        FX_ONE as int) / soft_sum(lbits(post), post.len() as int)
}

/// The weight chain is non-increasing.
proof fn lemma_soft_e_mono(ls: Seq<i64>, j: int, k: int)
    requires
        0 <= j <= k,
    ensures
        soft_e(ls, j) >= soft_e(ls, k),
    decreases k - j,
{
    if j < k {
        lemma_soft_e_mono(ls, j, k - 1);
    }
}

/// With every weight at least one, partial sums grow at least linearly.
proof fn lemma_soft_sum_lb(ls: Seq<i64>, n: int)
    requires
        forall|k: int| 0 <= k < n ==> #[trigger] soft_e(ls, k) >= 1,
    ensures
        soft_sum(ls, n) >= if n >= 0 { n } else { 0 },
    decreases n,
{
    if n > 0 {
        lemma_soft_sum_lb(ls, n - 1);
    }
}

/// The total dominates each single weight, with room for the others.
proof fn lemma_soft_sum_ge_each(ls: Seq<i64>, n: int, j: int)
    requires
        0 <= j < n,
        forall|k: int| 0 <= k < n ==> #[trigger] soft_e(ls, k) >= 1,
    ensures
        soft_sum(ls, n) >= soft_e(ls, j) + (n - 1),
    decreases n,
{
    if j == n - 1 {
        lemma_soft_sum_lb(ls, n - 1);
    } else {
        lemma_soft_sum_ge_each(ls, n - 1, j);
    }
}

/// Floor-division bounds: `d * (num / d)` is within `d` below `num`.
proof fn lemma_div_mul_bounds(num: int, d: int)
    requires
        d >= 1,
        num >= 0,
    ensures
        0 <= num / d,
        d * (num / d) <= num,
        d * (num / d) >= num - d + 1,
{
    vstd::arithmetic::div_mod::lemma_fundamental_div_mod(num, d);
    vstd::arithmetic::div_mod::lemma_mod_bound(num, d);
    vstd::arithmetic::div_mod::lemma_div_pos_is_pos(num, d);
}

/// One normalization step keeps the scaled partial-sum bounds.
proof fn lemma_accumulate(total: int, sp_old: int, p: int, ssum_old: int, e: int, i: int)
    requires
        total * sp_old <= (FX_ONE as int) * ssum_old,
        total * sp_old >= (FX_ONE as int) * ssum_old - i * total,
        total * p <= (FX_ONE as int) * e,
        total * p >= (FX_ONE as int) * e - total,
        total >= 0,
        i >= 0,
    ensures
        total * (sp_old + p) <= (FX_ONE as int) * (ssum_old + e),
        total * (sp_old + p) >= (FX_ONE as int) * (ssum_old + e) - (i + 1) * total,
{
    assert(total * (sp_old + p) == total * sp_old + total * p) by (nonlinear_arith);
    assert((FX_ONE as int) * (ssum_old + e) == (FX_ONE as int) * ssum_old + (FX_ONE as int) * e)
        by (nonlinear_arith);
    assert((i + 1) * total == i * total + total) by (nonlinear_arith);
}

/// Scaled floor division is monotone in the numerator.
proof fn lemma_div_ordered_scaled(a: int, b: int, d: int)
    requires
        0 <= a <= b,
        d >= 1,
    ensures
        a * (FX_ONE as int) / d <= b * (FX_ONE as int) / d,
{
    assert(a * (FX_ONE as int) <= b * (FX_ONE as int)) by (nonlinear_arith)
        requires
            0 <= a <= b,
    ;
    assert(a * (FX_ONE as int) >= 0) by (nonlinear_arith)
        requires
            a >= 0,
    ;
    vstd::arithmetic::div_mod::lemma_div_is_ordered(
        a * (FX_ONE as int),
        b * (FX_ONE as int),
        d,
    );
}

/// Later partial sums outgrow earlier ones by at least one per entry.
proof fn lemma_soft_sum_gap(ls: Seq<i64>, i: int, n: int)
    requires
        0 <= i <= n,
        forall|k: int| 0 <= k < n ==> #[trigger] soft_e(ls, k) >= 1,
    ensures
        soft_sum(ls, n) >= soft_sum(ls, i) + (n - i),
    decreases n - i,
{
    if i < n {
        lemma_soft_sum_gap(ls, i, n - 1);
    }
}

impl Logits {
    /// Apply the softmax function: sort descending, weigh each entry by the
    /// exponential of its distance to the maximum, and normalize. A no-op on
    /// empty input; on anything else the resulting probabilities are
    /// nonnegative, non-increasing, and total within `len` raw units of one.
    #[verifier::rlimit(80)]
    pub fn softmax(&mut self) -> (r: Result<(), LogitsError>)
        requires
            old(self).wf(),
        ensures
            r.is_ok(),
            final(self).wf(),
            final(self)@.len() == old(self)@.len(),
            old(self)@.len() == 0 ==> *final(self) == *old(self),
            old(self)@.len() > 0 ==> {
                &&& final(self).spec_sorted()
                &&& final(self).spec_softmax()
                &&& softmax_shape(old(self)@, final(self)@)
            },
            old(self).spec_sorted() ==> lbits(final(self)@) == lbits(old(self)@) && keys_of(
                final(self)@,
            ) == keys_of(old(self)@),
    {
        let n = self.logits.len();
        if n == 0 {
            return Ok(());
        }
        let _ = self.ensure_sorted();
        let ghost mid = self@;
        proof {
            assert(keys_of(mid) == keys_of(self@));
        }
        let l0: i64 = self.logits[0].logit.bits;
        let ghost ls = lbits(self@);
        // First pass: store the clamped exponential weights in the prob
        // fields and accumulate their total.
        let mut i: usize = 0;
        let mut sum: i64 = 0;
        let mut prev: i64 = FX_ONE;
        while i < n
            invariant
                0 < n <= FX_ONE,
                self@.len() == n,
                0 <= i <= n,
                self.spec_sorted(),
                ls == lbits(self@),
                keys_of(self@) == keys_of(mid),
                sorted_desc(self@),
                l0 == self@[0].logit.bits,
                forall|j: int| 0 <= j < n ==> (#[trigger] self@[j].logit.bits) != FX_NAN,
                forall|j: int|
                    0 <= j < i ==> (#[trigger] self@[j].prob.bits) as int == soft_e(ls, j),
                forall|j: int| 0 <= j < i ==> 1 <= (#[trigger] self@[j].prob.bits) <= FX_ONE,
                forall|j: int| i <= j < n ==> (#[trigger] self@[j]) == mid[j],
                forall|j: int| 0 <= j < n ==> 0 <= (#[trigger] self@[j].prob.bits) <= FX_ONE,
                sum as int == soft_sum(ls, i as int),
                i <= sum <= i * (FX_ONE as int),
                i > 0 ==> prev as int == soft_e(ls, i - 1),
                1 <= prev <= FX_ONE,
            decreases n - i,
        {
            let li: i64 = self.logits[i].logit.bits;
            let d = Fx { bits: li }.sub(Fx { bits: l0 });
            assert(d.bits <= 0);
            let e_raw = exp_fx(d.bits);
            let e: i64 = if i > 0 && e_raw > prev {
                prev
            } else {
                e_raw
            };
            assert(1 <= e <= FX_ONE);
            let mut entry = self.logits[i];
            entry.prob = Fx { bits: e };
            self.logits[i] = entry;
            proof {
                assert(lbits(self@) =~= ls);
                assert(keys_of(self@) =~= keys_of(mid));
                assert(e as int == soft_e(ls, i as int));
                assert(soft_sum(ls, i + 1) == soft_sum(ls, i as int) + soft_e(ls, i as int));
                assert((i + 1) * (FX_ONE as int) == i * (FX_ONE as int) + FX_ONE as int)
                    by (nonlinear_arith);
            }
            sum = sum + e;
            prev = e;
            i = i + 1;
        }
        proof {
            assert(soft_e(ls, 0) == exp_spec(fx_sub(l0 as int, l0 as int)));
            assert(fx_sub(l0 as int, l0 as int) == 0);
            crate::fxmath::lemma_exp_spec_zero();
            assert(self@[0].prob.bits == FX_ONE);
            assert forall|j: int| 0 <= j < n implies 1 <= #[trigger] soft_e(ls, j) <= FX_ONE by {
                assert((self@[j].prob.bits) as int == soft_e(ls, j));
                assert(1 <= self@[j].prob.bits <= FX_ONE);
            }
        }
        // Second pass: normalize by the total.
        let ghost total = sum as int;
        let mut i: usize = 0;
        while i < n
            invariant
                0 < n <= FX_ONE,
                self@.len() == n,
                0 <= i <= n,
                self.spec_sorted(),
                ls == lbits(self@),
                keys_of(self@) == keys_of(mid),
                sorted_desc(self@),
                forall|j: int| 0 <= j < n ==> (#[trigger] self@[j].logit.bits) != FX_NAN,
                sum as int == total,
                total == soft_sum(ls, n as int),
                n <= total <= n * (FX_ONE as int),
                forall|j: int| 0 <= j < n ==> 1 <= #[trigger] soft_e(ls, j) <= FX_ONE,
                forall|j: int|
                    i <= j < n ==> (#[trigger] self@[j].prob.bits) as int == soft_e(ls, j),
                forall|j: int|
                    0 <= j < i ==> (#[trigger] self@[j].prob.bits) as int == soft_e(ls, j) * (
                    FX_ONE as int) / total,
                forall|j: int| 0 <= j < n ==> 0 <= (#[trigger] self@[j].prob.bits) <= FX_ONE,
                i > 0 ==> self@[0].prob.bits >= 1,
                forall|j: int, k: int|
                    0 <= j <= k < i ==> (#[trigger] self@[j].prob.bits) >= (
                    #[trigger] self@[k].prob.bits),
                total * sum_probs(self@.subrange(0, i as int)) <= (FX_ONE as int) * soft_sum(
                    ls,
                    i as int,
                ),
                total * sum_probs(self@.subrange(0, i as int)) >= (FX_ONE as int) * soft_sum(
                    ls,
                    i as int,
                ) - i * total,
                forall|j: int|
                    0 <= j <= i ==> total * sum_probs(#[trigger] self@.subrange(0, j)) <= (
                    FX_ONE as int) * soft_sum(ls, j),
            decreases n - i,
        {
            let e: i64 = self.logits[i].prob.bits;
            assert(e as int == soft_e(ls, i as int));
            assert(e * FX_ONE <= FX_ONE * FX_ONE) by (nonlinear_arith)
                requires
                    1 <= e <= FX_ONE,
            ;
            assert(e * FX_ONE >= 1 * FX_ONE) by (nonlinear_arith)
                requires
                    1 <= e,
            ;
            let num: i64 = e * FX_ONE;
            let p: i64 = num / sum;
            proof {
                lemma_div_mul_bounds(num as int, total);
                lemma_soft_sum_ge_each(ls, n as int, i as int);
                assert(e as int <= total);
                lemma_div_ordered_scaled(e as int, total, total);
                vstd::arithmetic::div_mod::lemma_div_by_self(total);
                assert(total * (FX_ONE as int) / total == FX_ONE as int) by {
                    vstd::arithmetic::div_mod::lemma_div_by_multiple(FX_ONE as int, total);
                    assert(total * (FX_ONE as int) == (FX_ONE as int) * total)
                        by (nonlinear_arith);
                }
                assert(p as int <= FX_ONE as int);
            }
            let ghost before = self@;
            let mut entry = self.logits[i];
            entry.prob = Fx { bits: p };
            self.logits[i] = entry;
            proof {
                assert(lbits(self@) =~= ls);
                assert(keys_of(self@) =~= keys_of(mid));
                let pre_new = self@.subrange(0, i + 1);
                let pre_old_same = self@.subrange(0, i as int);
                assert(pre_old_same =~= before.subrange(0, i as int));
                assert(pre_new.drop_last() =~= pre_old_same);
                assert(pre_new.last() == self@[i as int]);
                assert(sum_probs(pre_new) == sum_probs(pre_old_same) + p);
                assert((e as int) * (FX_ONE as int) == (FX_ONE as int) * (e as int))
                    by (nonlinear_arith);
                assert(soft_sum(ls, i + 1) == soft_sum(ls, i as int) + soft_e(ls, i as int));
                lemma_accumulate(
                    total,
                    sum_probs(pre_old_same),
                    p as int,
                    soft_sum(ls, i as int),
                    e as int,
                    i as int,
                );
                assert forall|j: int| 0 <= j <= i + 1 implies total * sum_probs(
                    #[trigger] self@.subrange(0, j),
                ) <= (FX_ONE as int) * soft_sum(ls, j) by {
                    if j <= i {
                        assert(self@.subrange(0, j) =~= before.subrange(0, j));
                    } else {
                        assert(self@.subrange(0, j) =~= pre_new);
                    }
                }
                assert forall|j: int| 0 <= j < i implies (#[trigger] self@[j].prob.bits) >= p by {
                    lemma_soft_e_mono(ls, j, i as int);
                    lemma_div_ordered_scaled(soft_e(ls, i as int), soft_e(ls, j), total);
                }
                if i == 0 {
                    assert(e == FX_ONE);
                    assert(total <= (FX_ONE as int) * (FX_ONE as int)) by (nonlinear_arith)
                        requires
                            total <= n * (FX_ONE as int),
                            n <= FX_ONE as int,
                    ;
                    vstd::arithmetic::div_mod::lemma_div_by_self(total);
                    vstd::arithmetic::div_mod::lemma_div_is_ordered(
                        total,
                        (FX_ONE as int) * (FX_ONE as int),
                        total,
                    );
                    assert(p >= 1);
                }
            }
            i = i + 1;
        }
        self.softmax = true;
        proof {
            let fin = self@;
            assert forall|j: int| 0 <= j < n implies sum_probs(#[trigger] fin.subrange(0, j)) < (
            FX_ONE as int) by {
                lemma_soft_sum_gap(ls, j, n as int);
                assert(soft_sum(ls, j) < total);
                assert((FX_ONE as int) * soft_sum(ls, j) < (FX_ONE as int) * total)
                    by (nonlinear_arith)
                    requires
                        soft_sum(ls, j) < total,
                ;
                let spj = sum_probs(fin.subrange(0, j));
                assert(total * spj < (FX_ONE as int) * total);
                assert(spj < FX_ONE as int) by (nonlinear_arith)
                    requires
                        total * spj < (FX_ONE as int) * total,
                        total >= 1,
                ;
            }
            assert(fin.subrange(0, n as int) =~= fin);
            let sp = sum_probs(fin);
            assert(total * sp <= (FX_ONE as int) * total);
            assert(total * sp >= (FX_ONE as int) * total - n * total);
            assert(sp <= FX_ONE as int) by (nonlinear_arith)
                requires
                    total * sp <= (FX_ONE as int) * total,
                    total >= 1,
            ;
            assert(sp >= FX_ONE as int - n) by (nonlinear_arith)
                requires
                    total * sp >= (FX_ONE as int) * total - n * total,
                    total >= 1,
            ;
        }
        Ok(())
    }


    /// Ensure the probabilities are current: recompute them unless the
    /// softmax flag already holds, in which case nothing changes.
    pub fn ensure_softmax(&mut self) -> (r: Result<(), LogitsError>)
        requires
            old(self).wf(),
        ensures
            r.is_ok(),
            final(self).wf(),
            final(self)@.len() == old(self)@.len(),
            old(self)@.len() == 0 ==> *final(self) == *old(self),
            old(self).spec_softmax() ==> *final(self) == *old(self),
            old(self)@.len() > 0 ==> {
                &&& final(self).spec_sorted()
                &&& final(self).spec_softmax()
                &&& softmaxed_shape(old(self)@, final(self)@)
            },
    {
        if self.softmax {
            proof {
                if self@.len() > 0 {
                    assert(self@.to_multiset() == self@.to_multiset() && keys_of(self@) == keys_of(
                        self@,
                    ));
                }
            }
            return Ok(());
        }
        let r = self.softmax();
        proof {
            if old(self)@.len() == 0 {
                assert(*final(self) == *old(self));
            }
        }
        r
    }
}


} // verus!
