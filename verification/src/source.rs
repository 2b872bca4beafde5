//! A bandit arm: a Gaussian reward source with a fixed mean offset.

use vstd::prelude::*;

verus! {

use crate::{MAX_BIAS, MAX_NOISE, MAX_REWARD};
use crate::rng::random_in_range;

/// One bandit arm. Its mean offset (`bias`, in micros) is fixed for the
/// arm's whole lifetime; every sample is that offset plus a unit-variance
/// Gaussian noise value supplied by the caller.
pub struct RewardSource {
    bias: i64,
}

impl RewardSource {
    /// The arm's mean offset in micros.
    pub closed spec fn bias(&self) -> int {
        self.bias as int
    }

    pub open spec fn wf(&self) -> bool {
        -MAX_BIAS <= self.bias() <= MAX_BIAS
    }

    /// An arm with a chosen mean offset.
    pub fn new(bias: i64) -> (s: RewardSource)
        requires
            -MAX_BIAS <= bias <= MAX_BIAS,
        ensures
            s.bias() == bias,
            s.wf(),
    {
        RewardSource { bias }
    }

    /// A fresh arm whose mean offset is drawn uniformly from
    /// `[-range, range)` micros.
    pub fn random(range: i64) -> (s: RewardSource)
        requires
            0 < range <= MAX_BIAS,
        ensures
            -range <= s.bias() < range,
            s.wf(),
    {
        let bias = random_in_range(-range, range);
        RewardSource { bias }
    }

    /// The arm's mean offset in micros, as a plain value.
    pub fn bias_micros(&self) -> (b: i64)
        ensures
            b == self.bias(),
    {
        self.bias
    }

    /// One sample of the arm, given the unit-Gaussian noise draw for this
    /// step: the arm's offset shifts the noise.
    pub fn sample_with(&self, noise: i64) -> (r: i64)
        requires
            self.wf(),
            -MAX_NOISE <= noise <= MAX_NOISE,
        ensures
            r == self.bias() + noise,
            -MAX_REWARD <= r <= MAX_REWARD,
    {
        self.bias + noise
    }
}

} // verus!
