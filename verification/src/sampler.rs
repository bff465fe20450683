//! Drawing random road points: a region chosen in proportion to how many
//! points it has, then a point of that region.

use vstd::prelude::*;

use crate::random::random_below;

verus! {

/// A `rand::distr::weighted::WeightedIndex<usize>`, held opaquely.
#[verifier::external_body]
pub struct RegionWeights {
    inner: rand::distr::weighted::WeightedIndex<usize>,
}

/// The weights a [`RegionWeights`] was built from.
pub uninterp spec fn weighted_index_weights(w: RegionWeights) -> Seq<usize>;

/// The sum of some counts.
pub open spec fn total(s: Seq<usize>) -> int
    decreases s.len(),
{
    if s.len() == 0 {
        0
    } else {
        total(s.drop_last()) + s.last()
    }
}

/// Why a sampler cannot be built from some counts.
#[derive(Debug, Clone, Copy, PartialEq, Eq, Structural)]
pub enum SamplerError {
    /// There are no regions.
    InvalidInput,
    /// A weight is not valid.
    InvalidWeight,
    /// Every region is empty.
    InsufficientNonZero,
    /// The counts add up to more than a `usize` holds.
    Overflow,
}

/// What building a sampler from `counts` gives when it fails.
pub open spec fn sampler_error(counts: Seq<usize>) -> Option<SamplerError> {
    if counts.len() == 0 {
        Some(SamplerError::InvalidInput)
    } else if total(counts) > usize::MAX {
        Some(SamplerError::Overflow)
    } else if total(counts) == 0 {
        Some(SamplerError::InsufficientNonZero)
    } else {
        None
    }
}

/// `rand::distr::weighted::WeightedIndex::new` over the given weights: it
/// fails with `InvalidInput` on no weights, with `Overflow` when the weights
/// add up past `usize::MAX`, with `InsufficientNonZero` when they add up to
/// zero, and otherwise holds the weights. (Its error type is marked
/// non-exhaustive; the version used has no variant beyond these four, and
/// `InvalidWeight` cannot arise for `usize` weights.)
#[verifier::external_body]
fn weighted_index_new(weights: &Vec<usize>) -> (r: Result<RegionWeights, SamplerError>)
    ensures
        match r {
            Ok(w) => sampler_error(weights@) is None && weighted_index_weights(w) == weights@,
            Err(e) => sampler_error(weights@) == Some(e),
        },
{
    match rand::distr::weighted::WeightedIndex::new(weights) {
        Ok(inner) => Ok(RegionWeights { inner }),
        Err(rand::distr::weighted::Error::InvalidInput) => Err(SamplerError::InvalidInput),
        Err(rand::distr::weighted::Error::InvalidWeight) => Err(SamplerError::InvalidWeight),
        Err(rand::distr::weighted::Error::InsufficientNonZero) => Err(
            SamplerError::InsufficientNonZero,
        ),
        Err(rand::distr::weighted::Error::Overflow) => Err(SamplerError::Overflow),
        Err(_) => Err(SamplerError::InvalidWeight),
    }
}

/// A draw from a `WeightedIndex` (its `Distribution::sample` with the thread's
/// generator): an index of one of its weights that is not zero.
#[verifier::external_body]
fn weighted_index_sample(w: &RegionWeights) -> (r: usize)
    ensures
        r < weighted_index_weights(*w).len(),
        weighted_index_weights(*w)[r as int] > 0,
{
    rand::distr::Distribution::sample(&w.inner, &mut rand::rng())
}

/// Draws road points from regions, each region weighted by its number of
/// points.
pub struct RandomLocationSampler {
    counts: Vec<usize>,
    region_dist: RegionWeights,
}

impl View for RandomLocationSampler {
    type V = Seq<usize>;

    closed spec fn view(&self) -> Seq<usize> {
        self.counts@
    }
}

impl RandomLocationSampler {
    /// The distribution is built from the counts.
    #[verifier::type_invariant]
    spec fn inv(&self) -> bool {
        weighted_index_weights(self.region_dist) == self.counts@
    }

    /// A sampler over regions holding `counts` points; refused when there are
    /// no regions, no points at all, or more points than a `usize` counts.
    pub fn new(counts: Vec<usize>) -> (r: Result<Self, SamplerError>)
        ensures
            match r {
                Ok(s) => sampler_error(counts@) is None && s@ == counts@,
                Err(e) => sampler_error(counts@) == Some(e),
            },
    {
        let region_dist = weighted_index_new(&counts)?;
        Ok(RandomLocationSampler { counts, region_dist })
    }

    /// A random point: the index of a region and of a point within it.
    pub fn sample(&self) -> (r: (usize, usize))
        ensures
            r.0 < self@.len(),
            r.1 < self@[r.0 as int],
    {
        proof {
            use_type_invariant(self);
        }
        let region = weighted_index_sample(&self.region_dist);
        let idx = random_below(self.counts[region]);
        (region, idx)
    }
}

} // verus!
