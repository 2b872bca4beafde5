//! Monte-Carlo evaluation of epsilon-greedy bandit policies.
//!
//! All quantities are fixed-point integers: rewards, biases and cumulative
//! scores are in millionths of a reward unit ("micros"), and exploration
//! rates are in parts per million of probability. The stochastic inputs
//! (Gaussian reward noise) are supplied by the caller as plain values, so
//! every decision the simulation makes is verified for every possible draw.

use vstd::prelude::*;

mod agent;
mod experiment;
mod laws;
mod rng;
mod source;
mod sums;
mod trial;

pub use agent::Agent;
pub use experiment::Experiment;
pub use source::RewardSource;
pub use trial::Trial;

verus! {

/// What can go wrong: invalid configuration, reported when a trial or an
/// experiment is set up, and the one defensively checked internal
/// condition, asking for a mean estimate of an arm that was never pulled.
#[derive(Debug, Clone, Copy, PartialEq, Eq)]
pub enum BanditError {
    /// The candidate exploration-rate list is empty.
    EmptyRateList,
    /// An exploration rate lies outside `[0, RATE_ONE]`.
    RateOutOfRange,
    /// The arm count is zero.
    NoArms,
    /// A positive exploration rate needs at least two arms to perturb
    /// between.
    TooFewArmsToExplore,
    /// The bias range is not in `(0, MAX_BIAS]`.
    BadBiasRange,
    /// The horizon is zero.
    ZeroHorizon,
    /// The horizon exceeds `MAX_STEPS`.
    HorizonTooLong,
    /// The trial repetition count is zero.
    ZeroSampleCount,
    /// A mean estimate was requested for an arm with no pulls.
    ArmNeverPulled,
}

/// Fixed-point scale: micros per reward unit.
pub const MICROS: i64 = 1_000_000;

/// An exploration rate is given in parts per million; this is the value
/// standing for probability 1.
pub const RATE_ONE: u32 = 1_000_000;

/// Largest magnitude allowed for an arm's mean offset, in micros.
pub const MAX_BIAS: i64 = 1_000_000_000;

/// Largest magnitude allowed for one Gaussian noise draw, in micros.
pub const MAX_NOISE: i64 = 1_000_000_000;

/// Largest magnitude of a single reward: a reward is a bias plus a noise
/// draw, so the two bounds add.
pub const MAX_REWARD: i64 = 2_000_000_000;

/// Cap on the number of steps a single agent may take, chosen so that a
/// running total of rewards can never overflow an `i64`.
pub const MAX_STEPS: usize = 1_000_000;

} // verus!
