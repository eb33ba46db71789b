use vstd::prelude::*;

use crate::types::SamplerError;

verus! {

/// Declares the RNG crate's standard generator for use in signatures.
#[verifier::external_type_specification]
#[verifier::external_body]
pub struct ExStdRng(::rand::rngs::StdRng);

/// Declares the RNG crate's weighted-distribution error for use in the
/// library's error type.
#[verifier::external_type_specification]
#[verifier::external_body]
pub struct ExWeightedError(::rand::distributions::WeightedError);

/// Declares the RNG crate's general error for use in the library's error
/// type.
#[verifier::external_type_specification]
#[verifier::external_body]
pub struct ExRandError(::rand::Error);

/// Holds a weighted-index distribution of the RNG crate; the declaration of
/// that type's generics is beyond what the verifier takes, so the whole
/// struct is opaque and its contents are named by `weighted_index_weights`.
#[verifier::external_body]
pub struct WeightedIndexBox {
    w: ::rand::distributions::WeightedIndex<i64>,
}

/// Sum of a sequence of weights.
pub open spec fn sum_i64(s: Seq<i64>) -> int
    decreases s.len(),
{
    if s.len() == 0 {
        0
    } else {
        sum_i64(s.drop_last()) + s.last()
    }
}

/// The weights that a weighted-index distribution was built over.
pub uninterp spec fn weighted_index_weights(w: &WeightedIndexBox) -> Seq<i64>;

/// Relies on `StdRng` as `SeedableRng::seed_from_u64`: builds a
/// deterministic RNG from the seed.
#[verifier::external_body]
pub(crate) fn std_rng_seed_from_u64(seed: u64) -> ::rand::rngs::StdRng {
    <::rand::rngs::StdRng as ::rand::SeedableRng>::seed_from_u64(seed)
}

/// Relies on `StdRng` as `SeedableRng::from_rng` over the operating
/// system's entropy source: builds an RNG, or reports the entropy
/// failure instead of panicking; nothing is known of the state a fresh
/// generator starts in.
#[verifier::external_body]
pub(crate) fn std_rng_from_os_entropy() -> Result<::rand::rngs::StdRng, ::rand::Error> {
    <::rand::rngs::StdRng as ::rand::SeedableRng>::from_rng(::rand::rngs::OsRng)
}

/// Relies on `RngCore::next_u32`: one draw; nothing is known of the value.
#[verifier::external_body]
pub(crate) fn rng_next_u32(rng: &mut ::rand::rngs::StdRng) -> u32 {
    ::rand::RngCore::next_u32(rng)
}

/// Relies on `WeightedIndex::new`, whose documentation promises an error
/// exactly when the list is empty, a weight is negative, or the total is
/// zero. Nonnegative weights with a bounded total stay clear of overflow,
/// so with them success holds exactly when some weight is positive.
#[verifier::external_body]
pub(crate) fn weighted_index_new(weights: &Vec<i64>) -> (r: Result<
    WeightedIndexBox,
    ::rand::distributions::WeightedError,
>)
    requires
        forall|i: int| 0 <= i < weights@.len() ==> (#[trigger] weights@[i]) >= 0,
        sum_i64(weights@) <= i64::MAX,
    ensures
        r.is_ok() <==> (weights@.len() > 0 && sum_i64(weights@) > 0),
        r matches Ok(w) ==> weighted_index_weights(&w) == weights@,
{
    match ::rand::distributions::WeightedIndex::new(weights.iter()) {
        Ok(w) => Ok(WeightedIndexBox { w }),
        Err(e) => Err(e),
    }
}

/// Relies on `WeightedIndex` sampling (`Distribution::sample`): each index
/// is drawn with probability proportional to its weight, so whatever the
/// draw, the index is in range and its weight is positive.
#[verifier::external_body]
pub(crate) fn weighted_index_sample(w: &WeightedIndexBox, rng: &mut ::rand::rngs::StdRng) -> (r:
    usize)
    ensures
        r < weighted_index_weights(w).len(),
        weighted_index_weights(w)[r as int] > 0,
{
    ::rand::distributions::Distribution::sample(&w.w, rng)
}

/// A box holding the random-number source used by sampler resources.
pub struct RngBox {
    rng: ::rand::rngs::StdRng,
}

impl RngBox {
    /// Wrap an existing RNG.
    pub fn new(rng: ::rand::rngs::StdRng) -> RngBox {
        RngBox { rng }
    }

    /// Build from an optional seed; without one, seed from the operating
    /// system's entropy, whose failure is reported rather than escalated.
    pub fn new_seedable(seed: Option<u64>) -> (r: Result<RngBox, SamplerError>)
        ensures
            seed is Some ==> r is Ok,
            r matches Err(e) ==> (e matches SamplerError::RandError(_)),
    {
        match seed {
            Some(s) => Ok(RngBox { rng: std_rng_seed_from_u64(s) }),
            None => match std_rng_from_os_entropy() {
                Ok(g) => Ok(RngBox { rng: g }),
                Err(e) => Err(SamplerError::RandError(e)),
            },
        }
    }

    /// One raw draw.
    pub fn next_u32(&mut self) -> u32 {
        rng_next_u32(&mut self.rng)
    }

    /// Draw an index with probability proportional to its weight. Succeeds
    /// exactly when the weights form a valid distribution: nonempty, and
    /// some weight positive.
    pub fn weighted_index(&mut self, weights: &Vec<i64>) -> (r: Result<usize, SamplerError>)
        requires
            forall|i: int| 0 <= i < weights@.len() ==> (#[trigger] weights@[i]) >= 0,
            sum_i64(weights@) <= i64::MAX,
        ensures
            r matches Ok(i) ==> i < weights@.len() && weights@[i as int] > 0,
            r.is_ok() <==> (weights@.len() > 0 && sum_i64(weights@) > 0),
            r matches Err(e) ==> (e matches SamplerError::RandWeightedError(_)),
    {
        match weighted_index_new(weights) {
            Ok(w) => Ok(weighted_index_sample(&w, &mut self.rng)),
            Err(e) => Err(SamplerError::RandWeightedError(e)),
        }
    }
}

} // verus!
