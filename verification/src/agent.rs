//! The epsilon-greedy learner: forced first trial of every arm, exact
//! rational comparison of running means, and a perturbation rule driven by
//! two uniform draws.

use vstd::prelude::*;

verus! {

use crate::{BanditError, MAX_NOISE, MAX_REWARD, MAX_STEPS, RATE_ONE};
use crate::source::RewardSource;
use crate::rng::random_in_range;
use crate::sums::{
    int_sum, lemma_int_sum_at_least_len, lemma_int_sum_bounds_element, lemma_int_sum_update,
    lemma_int_sum_zero,
};

/// The mathematical state of an agent: its exploration rate (in parts per
/// million), per-arm reward sums (micros) and pull counts, and the running
/// cumulative-score trajectory (micros).
pub ghost struct AgentView {
    pub rate: int,
    pub sums: Seq<int>,
    pub counts: Seq<int>,
    pub scores: Seq<int>,
}

impl AgentView {
    pub open spec fn arm_count(self) -> int {
        self.sums.len() as int
    }

    /// Number of steps taken so far.
    pub open spec fn steps(self) -> int {
        self.scores.len() as int
    }

    /// The running total: the last cumulative score, or zero before any
    /// step.
    pub open spec fn last_score(self) -> int {
        if self.scores.len() == 0 {
            0
        } else {
            self.scores.last()
        }
    }

    /// The state of a newly created agent: every arm at `(0, 0)`, no
    /// scores.
    pub open spec fn fresh(rate: int, arm_count: int) -> AgentView {
        AgentView {
            rate,
            sums: Seq::new(arm_count as nat, |i: int| 0),
            counts: Seq::new(arm_count as nat, |i: int| 0),
            scores: Seq::empty(),
        }
    }

    /// Every arm has been pulled at least once: the forced-trial phase is
    /// over.
    pub open spec fn all_pulled(self) -> bool {
        forall|i: int| 0 <= i < self.counts.len() ==> #[trigger] self.counts[i] > 0
    }

    pub open spec fn wf(self) -> bool {
        &&& 1 <= self.arm_count()
        &&& self.counts.len() == self.sums.len()
        &&& 0 <= self.rate <= RATE_ONE
        &&& self.steps() <= MAX_STEPS
        &&& int_sum(self.counts) == self.steps()
        &&& forall|i: int| 0 <= i < self.counts.len() ==> 0 <= #[trigger] self.counts[i]
        &&& forall|i: int|
            0 <= i < self.sums.len() ==> -(#[trigger] self.counts[i] * MAX_REWARD) <= self.sums[i]
                <= self.counts[i] * MAX_REWARD
        &&& forall|k: int|
            0 <= k < self.scores.len() ==> -((k + 1) * MAX_REWARD) <= #[trigger] self.scores[k]
                <= (k + 1) * MAX_REWARD
    }
}

/// `s1 / c1 < s2 / c2`, stated without division; meaningful when the
/// counts are positive.
pub open spec fn mean_lt(s1: int, c1: int, s2: int, c2: int) -> bool {
    s1 * c2 < s2 * c1
}

/// The first index at or after `i` whose count is zero, or the length if
/// there is none.
pub open spec fn first_unpulled_from(counts: Seq<int>, i: int) -> int
    decreases counts.len() - i,
{
    if i < 0 || i >= counts.len() {
        counts.len() as int
    } else if counts[i] == 0 {
        i
    } else {
        first_unpulled_from(counts, i + 1)
    }
}

/// The first arm that has never been pulled, or the arm count if every arm
/// has been.
pub open spec fn first_unpulled(counts: Seq<int>) -> int {
    first_unpulled_from(counts, 0)
}

/// The running "first strict maximum of the means" scan: `b` is the best
/// index among those before `i`; arms from `i` on are still to be
/// examined.
pub open spec fn best_from(sums: Seq<int>, counts: Seq<int>, i: int, b: int) -> int
    decreases sums.len() - i,
{
    if i < 0 || i >= sums.len() {
        b
    } else if mean_lt(sums[b], counts[b], sums[i], counts[i]) {
        best_from(sums, counts, i + 1, i)
    } else {
        best_from(sums, counts, i + 1, b)
    }
}

/// The arm with the greatest mean estimate, ties broken by the lowest
/// index.
pub open spec fn best_index(v: AgentView) -> int {
    best_from(v.sums, v.counts, 1, 0)
}

/// The two uniform draws that one selection may consume: a probability
/// draw in `[0, 1)` (parts per million) and, when the agent explores, an
/// offset draw in `[0, arm_count - 1)`.
pub open spec fn valid_draws(v: AgentView, edraw: int, odraw: int) -> bool {
    &&& 0 <= edraw < RATE_ONE
    &&& 0 <= odraw
    &&& v.rate > 0 ==> v.arm_count() >= 2 && odraw < v.arm_count() - 1
}

/// Which arm the agent selects, given the two uniform draws:
/// - any arm never pulled so far is tried first, lowest index first;
/// - otherwise, with exploration rate zero, the best arm is exploited
///   unconditionally;
/// - otherwise the probability draw decides: below the rate, the best
///   index is perturbed by the offset draw modulo the arm count; at or
///   above it, the best arm is kept.
///
/// The offset draw never reaches `arm_count - 1`, so that one relative
/// offset is structurally unreachable: a deliberate asymmetry of this
/// policy, preserved here rather than silently widened.
pub open spec fn spec_select(v: AgentView, edraw: int, odraw: int) -> int {
    if !v.all_pulled() {
        first_unpulled(v.counts)
    } else if v.rate == 0 {
        best_index(v)
    } else if edraw < v.rate {
        (best_index(v) + odraw) % v.arm_count()
    } else {
        best_index(v)
    }
}

/// The state after one reward is credited to `arm`: the reward is added
/// to that arm's sum, its pull count rises by one, and the running total
/// plus the reward is appended to the scores.
pub open spec fn spec_update(v: AgentView, arm: int, reward: int) -> AgentView {
    AgentView {
        rate: v.rate,
        sums: v.sums.update(arm, v.sums[arm] + reward),
        counts: v.counts.update(arm, v.counts[arm] + 1),
        scores: v.scores.push(v.last_score() + reward),
    }
}

/// One full step: select with the two draws, sample the chosen arm
/// (its bias plus this step's noise), and credit the reward.
pub open spec fn spec_step(
    v: AgentView,
    biases: Seq<int>,
    edraw: int,
    odraw: int,
    noise: int,
) -> AgentView {
    let arm = spec_select(v, edraw, odraw);
    spec_update(v, arm, biases[arm] + noise)
}

/// The arms' mean offsets, as a sequence of micros.
pub open spec fn biases_of(sources: Seq<RewardSource>) -> Seq<int> {
    sources.map(|i: int, s: RewardSource| s.bias())
}

/// The state after a run of steps, one per noise value, with `draws[k]`
/// the pair of uniform draws consumed by step `k`.
pub open spec fn spec_run(
    v: AgentView,
    biases: Seq<int>,
    noise: Seq<int>,
    draws: Seq<(int, int)>,
) -> AgentView
    decreases noise.len(),
{
    if noise.len() == 0 {
        v
    } else {
        spec_step(
            spec_run(v, biases, noise.drop_last(), draws.drop_last()),
            biases,
            draws.last().0,
            draws.last().1,
            noise.last(),
        )
    }
}

/// `v` is a state reachable from a fresh agent with the given rate over
/// `n` arms, by one step per noise value, for some sequence of valid
/// uniform draws.
pub open spec fn ran_from_fresh(
    v: AgentView,
    rate: int,
    n: int,
    biases: Seq<int>,
    noise: Seq<int>,
) -> bool {
    exists|draws: Seq<(int, int)>|
        {
            &&& draws.len() == noise.len()
            &&& forall|j: int|
                0 <= j < draws.len() ==> valid_draws(
                    AgentView::fresh(rate, n),
                    (#[trigger] draws[j]).0,
                    draws[j].1,
                )
            &&& v == #[trigger] spec_run(AgentView::fresh(rate, n), biases, noise, draws)
        }
}

/// One epsilon-greedy learner. All stochastic inputs reach it as plain
/// values, so its whole behaviour is a function of its arguments.
pub struct Agent {
    rate: u32,
    estimates: Vec<(i64, u32)>,
    scores: Vec<i64>,
    total: i64,
}

impl View for Agent {
    type V = AgentView;

    closed spec fn view(&self) -> AgentView {
        AgentView {
            rate: self.rate as int,
            sums: self.estimates@.map(|i: int, e: (i64, u32)| e.0 as int),
            counts: self.estimates@.map(|i: int, e: (i64, u32)| e.1 as int),
            scores: self.scores@.map(|i: int, x: i64| x as int),
        }
    }
}

impl Agent {
    /// The agent's internal consistency: its view is well formed and the
    /// cached running total is the last cumulative score.
    pub closed spec fn inv(&self) -> bool {
        &&& self@.wf()
        &&& self.total as int == self@.last_score()
    }

    /// A fresh agent: every arm's estimate at `(0, 0)`, an empty score
    /// trajectory.
    pub fn new(rate: u32, arm_count: usize) -> (a: Agent)
        requires
            rate <= RATE_ONE,
            1 <= arm_count,
        ensures
            a.inv(),
            a@ == AgentView::fresh(rate as int, arm_count as int),
    {
        let mut estimates: Vec<(i64, u32)> = Vec::new();
        let mut i: usize = 0;
        while i < arm_count
            invariant
                i <= arm_count,
                estimates@.len() == i,
                forall|j: int| 0 <= j < i ==> #[trigger] estimates@[j] == (0i64, 0u32),
            decreases arm_count - i,
        {
            estimates.push((0i64, 0u32));
            i += 1;
        }
        let a = Agent { rate, estimates, scores: Vec::new(), total: 0 };
        proof {
            let f = AgentView::fresh(rate as int, arm_count as int);
            assert(a@.sums =~= f.sums);
            assert(a@.counts =~= f.counts);
            assert(a@.scores =~= f.scores);
            lemma_int_sum_zero(a@.counts);
        }
        a
    }

    /// Credits one reward to one arm, as `spec_update` says.
    pub fn update(&mut self, arm: usize, reward: i64)
        requires
            old(self).inv(),
            arm < old(self)@.arm_count(),
            -MAX_REWARD <= reward <= MAX_REWARD,
            old(self)@.steps() < MAX_STEPS,
        ensures
            final(self).inv(),
            final(self)@ == spec_update(old(self)@, arm as int, reward as int),
    {
        proof {
            lemma_int_sum_bounds_element(self@.counts, arm as int);
            assert(forall|j: int|
                0 <= j < self@.counts.len() ==> 0 <= #[trigger] self@.counts[j]);
        }
        let (s, c) = self.estimates[arm];
        let new_total = self.total + reward;
        self.estimates[arm] = (s + reward, c + 1);
        self.scores.push(new_total);
        self.total = new_total;
        proof {
            let v0 = old(self)@;
            let v1 = spec_update(v0, arm as int, reward as int);
            assert(self@.sums =~= v1.sums);
            assert(self@.counts =~= v1.counts);
            assert(self@.scores =~= v1.scores);
            lemma_int_sum_update(v0.counts, arm as int, v0.counts[arm as int] + 1);
        }
    }

    /// Which arm to pull, given the two uniform draws. This is the whole
    /// selection policy as a checked function of its arguments; `spec_select`
    /// pins the result exactly.
    pub fn select_arm_with(&self, edraw: u32, odraw: usize) -> (arm: usize)
        requires
            self.inv(),
            edraw < RATE_ONE,
            self@.rate > 0 ==> self@.arm_count() >= 2 && odraw < self@.arm_count() - 1,
        ensures
            arm < self@.arm_count(),
            arm as int == spec_select(self@, edraw as int, odraw as int),
    {
        let ghost v = self@;
        let n = self.estimates.len();

        // Forced-trial phase: any arm never pulled is tried first, lowest
        // index first.
        let mut i: usize = 0;
        while i < n
            invariant
                i <= n,
                self.inv(),
                v == self@,
                n == v.counts.len(),
                first_unpulled(v.counts) == first_unpulled_from(v.counts, i as int),
                forall|j: int| 0 <= j < i ==> #[trigger] v.counts[j] != 0,
            decreases n - i,
        {
            let (_, c) = self.estimates[i];
            if c == 0 {
                proof {
                    assert(v.counts[i as int] == 0);
                    assert(!v.all_pulled());
                }
                return i;
            }
            i += 1;
        }
        proof {
            assert(forall|j: int| 0 <= j < n ==> #[trigger] v.counts[j] > 0);
            assert(v.all_pulled());
            lemma_int_sum_at_least_len(v.counts);
        }

        // Every arm has been tried: find the first arm with the strictly
        // greatest mean. Means are compared exactly as fractions:
        // sums[i]/counts[i] < sums[j]/counts[j] iff
        // sums[i]*counts[j] < sums[j]*counts[i], all counts being positive.
        let mut best: usize = 0;
        let mut i: usize = 1;
        while i < n
            invariant
                1 <= i <= n,
                best < i,
                self.inv(),
                v == self@,
                n == v.counts.len(),
                n == v.sums.len(),
                n <= MAX_STEPS,
                v.all_pulled(),
                best_index(v) == best_from(v.sums, v.counts, i as int, best as int),
            decreases n - i,
        {
            let (si, ci) = self.estimates[i];
            let (sb, cb) = self.estimates[best];
            proof {
                lemma_int_sum_bounds_element(v.counts, i as int);
                lemma_int_sum_bounds_element(v.counts, best as int);
                assert(-2_000_000_000_000_000_000_000_000 <= (si as int) * (cb as int)
                    <= 2_000_000_000_000_000_000_000_000) by (nonlinear_arith)
                    requires
                        -((ci as int) * 2_000_000_000) <= si as int <= (ci as int)
                            * 2_000_000_000,
                        0 <= ci as int <= 1_000_000,
                        0 <= cb as int <= 1_000_000,
                ;
                assert(-2_000_000_000_000_000_000_000_000 <= (sb as int) * (ci as int)
                    <= 2_000_000_000_000_000_000_000_000) by (nonlinear_arith)
                    requires
                        -((cb as int) * 2_000_000_000) <= sb as int <= (cb as int)
                            * 2_000_000_000,
                        0 <= cb as int <= 1_000_000,
                        0 <= ci as int <= 1_000_000,
                ;
            }
            let left: i128 = (si as i128) * (cb as i128);
            let right: i128 = (sb as i128) * (ci as i128);
            if left > right {
                best = i;
            }
            i += 1;
        }
        proof {
            assert(best as int == best_index(v));
        }

        if self.rate == 0 {
            return best;
        }
        if edraw < self.rate {
            // Explore: perturb the greedy choice by the offset draw.
            return (best + odraw) % n;
        }
        best
    }

    /// Which arm to pull, drawing the two uniform values itself. Which
    /// draws come back is not pinned down, so the contract states what
    /// holds of every outcome.
    pub fn select_arm(&self) -> (arm: usize)
        requires
            self.inv(),
            self@.rate > 0 ==> self@.arm_count() >= 2,
        ensures
            arm < self@.arm_count(),
            exists|e: int, o: int|
                valid_draws(self@, e, o) && arm as int == spec_select(self@, e, o),
            !self@.all_pulled() ==> arm as int == first_unpulled(self@.counts),
            self@.all_pulled() && self@.rate == 0 ==> arm as int == best_index(self@),
    {
        let edraw = random_in_range(0, RATE_ONE as i64) as u32;
        // The offset draw only matters once every arm has been pulled, and
        // then the arm count is at most the step cap; past that cap a zero
        // offset is as valid as any.
        let m = self.estimates.len().saturating_sub(1);
        let odraw: usize = if 1 <= m && m <= MAX_STEPS {
            random_in_range(0, m as i64) as usize
        } else {
            0
        };
        let arm = self.select_arm_with(edraw, odraw);
        proof {
            assert(valid_draws(self@, edraw as int, odraw as int));
        }
        arm
    }

    /// One step against the given arms, with both uniform draws supplied:
    /// select, sample the chosen arm with this step's noise, credit the
    /// reward.
    pub fn step_with(
        &mut self,
        sources: &Vec<RewardSource>,
        edraw: u32,
        odraw: usize,
        noise: i64,
    )
        requires
            old(self).inv(),
            sources@.len() == old(self)@.arm_count(),
            forall|i: int| 0 <= i < sources@.len() ==> (#[trigger] sources@[i]).wf(),
            -MAX_NOISE <= noise <= MAX_NOISE,
            old(self)@.steps() < MAX_STEPS,
            edraw < RATE_ONE,
            old(self)@.rate > 0 ==> old(self)@.arm_count() >= 2 && odraw < old(
                self,
            )@.arm_count() - 1,
        ensures
            final(self).inv(),
            final(self)@ == spec_step(
                old(self)@,
                biases_of(sources@),
                edraw as int,
                odraw as int,
                noise as int,
            ),
            final(self)@.rate == old(self)@.rate,
            final(self)@.arm_count() == old(self)@.arm_count(),
            final(self)@.steps() == old(self)@.steps() + 1,
    {
        let arm = self.select_arm_with(edraw, odraw);
        let reward = sources[arm].sample_with(noise);
        self.update(arm, reward);
    }

    /// One step against the given arms, drawing the two uniform values
    /// itself; the noise for this step is supplied. Whatever the draws,
    /// the new state is one `spec_step` of the old.
    pub fn step(&mut self, sources: &Vec<RewardSource>, noise: i64)
        requires
            old(self).inv(),
            sources@.len() == old(self)@.arm_count(),
            forall|i: int| 0 <= i < sources@.len() ==> (#[trigger] sources@[i]).wf(),
            -MAX_NOISE <= noise <= MAX_NOISE,
            old(self)@.steps() < MAX_STEPS,
            old(self)@.rate > 0 ==> old(self)@.arm_count() >= 2,
        ensures
            final(self).inv(),
            exists|e: int, o: int|
                valid_draws(old(self)@, e, o) && final(self)@ == spec_step(
                    old(self)@,
                    biases_of(sources@),
                    e,
                    o,
                    noise as int,
                ),
            final(self)@.rate == old(self)@.rate,
            final(self)@.arm_count() == old(self)@.arm_count(),
            final(self)@.steps() == old(self)@.steps() + 1,
    {
        let edraw = random_in_range(0, RATE_ONE as i64) as u32;
        // The offset draw only matters once every arm has been pulled, and
        // then the arm count is at most the step cap; past that cap a zero
        // offset is as valid as any.
        let m = self.estimates.len().saturating_sub(1);
        let odraw: usize = if 1 <= m && m <= MAX_STEPS {
            random_in_range(0, m as i64) as usize
        } else {
            0
        };
        proof {
            assert(valid_draws(old(self)@, edraw as int, odraw as int));
        }
        self.step_with(sources, edraw, odraw, noise);
    }

    /// Runs one step per noise value. The state that comes out is a
    /// `spec_run` of the state that went in, for some sequence of valid
    /// uniform draws.
    pub fn run_steps(&mut self, sources: &Vec<RewardSource>, noise: &Vec<i64>)
        requires
            old(self).inv(),
            sources@.len() == old(self)@.arm_count(),
            forall|i: int| 0 <= i < sources@.len() ==> (#[trigger] sources@[i]).wf(),
            forall|k: int| 0 <= k < noise@.len() ==> -MAX_NOISE <= #[trigger] noise@[k] <= MAX_NOISE,
            old(self)@.steps() + noise@.len() <= MAX_STEPS,
            old(self)@.rate > 0 ==> old(self)@.arm_count() >= 2,
        ensures
            final(self).inv(),
            exists|draws: Seq<(int, int)>|
                {
                    &&& draws.len() == noise@.len()
                    &&& forall|j: int|
                        0 <= j < draws.len() ==> valid_draws(
                            old(self)@,
                            (#[trigger] draws[j]).0,
                            draws[j].1,
                        )
                    &&& final(self)@ == spec_run(
                        old(self)@,
                        biases_of(sources@),
                        int_seq(noise@),
                        draws,
                    )
                },
            final(self)@.rate == old(self)@.rate,
            final(self)@.arm_count() == old(self)@.arm_count(),
            final(self)@.steps() == old(self)@.steps() + noise@.len(),
    {
        let ghost v0 = old(self)@;
        let ghost all_noise = int_seq(noise@);
        let ghost mut draws: Seq<(int, int)> = Seq::empty();
        let mut k: usize = 0;
        while k < noise.len()
            invariant
                k <= noise@.len(),
                self.inv(),
                sources@.len() == v0.arm_count(),
                forall|i: int| 0 <= i < sources@.len() ==> (#[trigger] sources@[i]).wf(),
                forall|j: int|
                    0 <= j < noise@.len() ==> -MAX_NOISE <= #[trigger] noise@[j] <= MAX_NOISE,
                v0.steps() + noise@.len() <= MAX_STEPS,
                v0.rate > 0 ==> v0.arm_count() >= 2,
                all_noise == int_seq(noise@),
                draws.len() == k,
                forall|j: int|
                    0 <= j < draws.len() ==> valid_draws(v0, (#[trigger] draws[j]).0, draws[j].1),
                self@ == spec_run(v0, biases_of(sources@), all_noise.take(k as int), draws),
                self@.rate == v0.rate,
                self@.arm_count() == v0.arm_count(),
                self@.steps() == v0.steps() + k,
            decreases noise@.len() - k,
        {
            let ghost v_before = self@;
            let ghost old_draws = draws;
            let nz = noise[k];
            self.step(sources, nz);
            proof {
                let (e, o): (int, int) = choose|e: int, o: int|
                    valid_draws(v_before, e, o) && self@ == spec_step(
                        v_before,
                        biases_of(sources@),
                        e,
                        o,
                        nz as int,
                    );
                draws = draws.push((e, o));
                assert(valid_draws(v0, e, o));
                assert(all_noise.take(k + 1).drop_last() =~= all_noise.take(k as int));
                assert(draws.drop_last() =~= old_draws);
                assert(all_noise.take(k + 1).last() == nz as int);
                assert(self@ == spec_run(v0, biases_of(sources@), all_noise.take(k + 1), draws));
            }
            k += 1;
        }
        proof {
            assert(all_noise.take(noise@.len() as int) =~= all_noise);
        }
    }
}

/// Signed division rounding toward zero, as the executable `/` does;
/// meaningful for a positive divisor.
pub open spec fn div_toward_zero(x: int, d: int) -> int {
    if x >= 0 {
        x / d
    } else {
        -((-x) / d)
    }
}

impl Agent {
    /// How many arms the agent plays over.
    pub fn arm_count(&self) -> (n: usize)
        ensures
            n as int == self@.arm_count(),
    {
        self.estimates.len()
    }

    /// How many steps have been taken.
    pub fn steps_taken(&self) -> (n: usize)
        ensures
            n as int == self@.steps(),
    {
        self.scores.len()
    }

    /// How often one arm has been pulled.
    pub fn pull_count(&self, arm: usize) -> (c: u32)
        requires
            arm < self@.arm_count(),
        ensures
            c as int == self@.counts[arm as int],
    {
        self.estimates[arm].1
    }

    /// The total reward one arm has returned, in micros.
    pub fn reward_sum(&self, arm: usize) -> (s: i64)
        requires
            arm < self@.arm_count(),
        ensures
            s as int == self@.sums[arm as int],
    {
        self.estimates[arm].0
    }

    /// The cumulative-score trajectory, one entry per step, in micros.
    pub fn cumulative_scores(&self) -> (s: &Vec<i64>)
        ensures
            int_seq(s@) == self@.scores,
    {
        &self.scores
    }

    /// Every arm's mean reward estimate in micros, rounded toward zero,
    /// or the divide-by-zero condition if some arm has never been
    /// pulled. That cannot happen once `arm_count` steps have been
    /// taken, but is checked defensively.
    pub fn mean_estimates(&self) -> (r: Result<Vec<i64>, BanditError>)
        requires
            self.inv(),
        ensures
            r is Ok <==> self@.all_pulled(),
            r matches Ok(means) ==> {
                &&& means@.len() == self@.arm_count()
                &&& forall|i: int|
                    0 <= i < means@.len() ==> #[trigger] means@[i] as int == div_toward_zero(
                        self@.sums[i],
                        self@.counts[i],
                    )
            },
            r is Err ==> r->Err_0 == BanditError::ArmNeverPulled,
    {
        let n = self.estimates.len();
        let mut means: Vec<i64> = Vec::new();
        let mut i: usize = 0;
        while i < n
            invariant
                i <= n,
                self.inv(),
                n == self@.arm_count(),
                means@.len() == i,
                forall|j: int| 0 <= j < i ==> #[trigger] self@.counts[j] > 0,
                forall|j: int|
                    0 <= j < i ==> #[trigger] means@[j] as int == div_toward_zero(
                        self@.sums[j],
                        self@.counts[j],
                    ),
            decreases n - i,
        {
            let (s, c) = self.estimates[i];
            if c == 0 {
                proof {
                    assert(self@.counts[i as int] == 0);
                    assert(!self@.all_pulled());
                }
                return Err(BanditError::ArmNeverPulled);
            }
            let d = c as i64;
            proof {
                if s >= 0 {
                    vstd::arithmetic::div_mod::lemma_div_nonincreasing(s as int, d as int);
                } else {
                    vstd::arithmetic::div_mod::lemma_div_nonincreasing(-(s as int), d as int);
                }
            }
            let q = match s.checked_div(d) {
                Some(q) => q,
                None => vstd::pervasive::unreached(),
            };
            proof {
                assert(q as int == div_toward_zero(self@.sums[i as int], self@.counts[i as int]));
            }
            means.push(q);
            i += 1;
        }
        Ok(means)
    }

    /// The exploration rate, in parts per million.
    pub fn exploration_rate(&self) -> (r: u32)
        ensures
            r as int == self@.rate,
    {
        self.rate
    }

    /// The running total: the last cumulative score, or zero before any
    /// step.
    pub fn total_score(&self) -> (t: i64)
        requires
            self.inv(),
        ensures
            t as int == self@.last_score(),
    {
        self.total
    }
}

/// A sequence of fixed-point values, as mathematical integers.
pub open spec fn int_seq(s: Seq<i64>) -> Seq<int> {
    s.map(|i: int, x: i64| x as int)
}

} // verus!
