use vstd::prelude::*;

use crate::rand::{sum_i64, RngBox};
use crate::types::{SamplerError, TID};

verus! {

/// Trait for providing resources (a random-number source and the trailing
/// token history) to samplers. Implementations without a resource report
/// `MissingResource`.
pub trait HasSamplerResources: Sized {
    /// The trailing token history, if this provider carries one.
    spec fn spec_last_tokens(&self) -> Option<Seq<TID>>;

    /// Whether this provider carries a random-number source.
    spec fn spec_has_rng(&self) -> bool;

    /// A copy of the trailing token history.
    fn with_last_tokens(&self) -> (r: Result<Vec<TID>, SamplerError>)
        ensures
            r.is_ok() <==> self.spec_last_tokens() is Some,
            r matches Ok(v) ==> self.spec_last_tokens() == Some(v@),
            r matches Err(e) ==> (e matches SamplerError::MissingResource(_)),
    ;

    /// Append one token to the history.
    fn push_last_token(&mut self, tid: TID) -> (r: Result<(), SamplerError>)
        ensures
            r.is_ok() <==> old(self).spec_last_tokens() is Some,
            final(self).spec_has_rng() == old(self).spec_has_rng(),
            r.is_ok() ==> final(self).spec_last_tokens() == Some(
                old(self).spec_last_tokens().unwrap().push(tid),
            ),
            r.is_err() ==> final(self).spec_last_tokens() == old(self).spec_last_tokens(),
    ;

    /// One raw draw from the random-number source.
    fn rand_u32(&mut self) -> (r: Result<u32, SamplerError>)
        ensures
            r.is_ok() <==> old(self).spec_has_rng(),
            final(self).spec_has_rng() == old(self).spec_has_rng(),
            final(self).spec_last_tokens() == old(self).spec_last_tokens(),
            r matches Err(e) ==> (e matches SamplerError::MissingResource(_)),
    ;

    /// Draw an index with probability proportional to its weight. Succeeds
    /// exactly when a random-number source is present and the weights form
    /// a valid distribution: nonempty, with some weight positive.
    fn rand_index(&mut self, weights: &Vec<i64>) -> (r: Result<usize, SamplerError>)
        requires
            forall|i: int| 0 <= i < weights@.len() ==> (#[trigger] weights@[i]) >= 0,
            sum_i64(weights@) <= i64::MAX,
        ensures
            r matches Ok(i) ==> i < weights@.len() && weights@[i as int] > 0,
            r.is_ok() <==> (old(self).spec_has_rng() && weights@.len() > 0 && sum_i64(weights@)
                > 0),
            final(self).spec_has_rng() == old(self).spec_has_rng(),
            final(self).spec_last_tokens() == old(self).spec_last_tokens(),
            r matches Err(e) ==> (e matches SamplerError::MissingResource(_) || e matches
                SamplerError::RandWeightedError(_)),
            !old(self).spec_has_rng() && r.is_err() ==> (r matches Err(
                SamplerError::MissingResource(_),
            )),
    ;
}

/// Empty resource structure for samplers that require no resources.
#[derive(Debug, Clone, Copy, PartialEq, Eq, Structural)]
pub struct NilSamplerResources;

impl NilSamplerResources {
    pub fn new() -> NilSamplerResources {
        NilSamplerResources
    }
}

impl HasSamplerResources for NilSamplerResources {
    open spec fn spec_last_tokens(&self) -> Option<Seq<TID>> {
        None
    }

    open spec fn spec_has_rng(&self) -> bool {
        false
    }

    fn with_last_tokens(&self) -> (r: Result<Vec<TID>, SamplerError>) {
        Err(SamplerError::MissingResource("last_tokens".to_string()))
    }

    fn push_last_token(&mut self, _tid: TID) -> (r: Result<(), SamplerError>) {
        Err(SamplerError::MissingResource("last_tokens".to_string()))
    }

    fn rand_u32(&mut self) -> (r: Result<u32, SamplerError>) {
        Err(SamplerError::MissingResource("rng".to_string()))
    }

    fn rand_index(&mut self, _weights: &Vec<i64>) -> (r: Result<usize, SamplerError>) {
        Err(SamplerError::MissingResource("rng".to_string()))
    }
}

/// Simple resources that can provide a random-number source and/or the
/// trailing token history to samplers.
pub struct SimpleSamplerResources {
    rng: Option<RngBox>,
    last_tokens: Option<Vec<TID>>,
}

impl SimpleSamplerResources {
    /// Build from an optional RNG and an optional starting history.
    pub fn new(rng: Option<::rand::rngs::StdRng>, last_tokens: Option<Vec<TID>>) -> (r:
        SimpleSamplerResources)
        ensures
            r.spec_last_tokens() == match last_tokens {
                Some(v) => Some(v@),
                None => None::<Seq<TID>>,
            },
            r.spec_has_rng() == rng.is_some(),
    {
        SimpleSamplerResources {
            rng: match rng {
                Some(g) => Some(RngBox::new(g)),
                None => None,
            },
            last_tokens,
        }
    }
}

impl HasSamplerResources for SimpleSamplerResources {
    closed spec fn spec_last_tokens(&self) -> Option<Seq<TID>> {
        match self.last_tokens {
            Some(v) => Some(v@),
            None => None,
        }
    }

    closed spec fn spec_has_rng(&self) -> bool {
        self.rng is Some
    }

    fn with_last_tokens(&self) -> (r: Result<Vec<TID>, SamplerError>) {
        match &self.last_tokens {
            Some(v) => Ok(v.clone()),
            None => Err(SamplerError::MissingResource("last_tokens".to_string())),
        }
    }

    fn push_last_token(&mut self, tid: TID) -> (r: Result<(), SamplerError>) {
        match &mut self.last_tokens {
            Some(v) => {
                v.push(tid);
                Ok(())
            },
            None => Err(SamplerError::MissingResource("last_tokens".to_string())),
        }
    }

    fn rand_u32(&mut self) -> (r: Result<u32, SamplerError>) {
        match &mut self.rng {
            Some(g) => Ok(g.next_u32()),
            None => Err(SamplerError::MissingResource("rng".to_string())),
        }
    }

    fn rand_index(&mut self, weights: &Vec<i64>) -> (r: Result<usize, SamplerError>) {
        match &mut self.rng {
            Some(g) => g.weighted_index(weights),
            None => Err(SamplerError::MissingResource("rng".to_string())),
        }
    }
}

} // verus!
