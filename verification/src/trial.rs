//! One randomized bandit instance: a fresh set of arms shared read-only by
//! one agent per candidate exploration rate, each run for the same number
//! of steps; the winning rate is the one whose agent ends with the
//! strictly greatest cumulative score, ties broken by the first occurrence
//! in the candidate order.

use vstd::prelude::*;

verus! {

use crate::{BanditError, MAX_BIAS, MAX_NOISE, MAX_STEPS, RATE_ONE};
use crate::agent::{biases_of, int_seq, ran_from_fresh, spec_run, valid_draws, Agent, AgentView};
use crate::source::RewardSource;

/// A sequence of exploration rates, as mathematical integers.
pub open spec fn rate_ints(s: Seq<u32>) -> Seq<int> {
    s.map(|i: int, x: u32| x as int)
}

/// The configuration rule for a candidate-rate list and an arm count: the
/// list may not be empty, no rate may exceed probability one, at least one
/// arm must exist, and a positive rate needs a second arm to perturb to.
pub open spec fn spec_validate_config(arm_count: int, rates: Seq<int>) -> Result<
    (),
    BanditError,
> {
    if rates.len() == 0 {
        Err(BanditError::EmptyRateList)
    } else if exists|i: int| 0 <= i < rates.len() && !(0 <= #[trigger] rates[i] <= RATE_ONE) {
        Err(BanditError::RateOutOfRange)
    } else if arm_count < 1 {
        Err(BanditError::NoArms)
    } else if arm_count < 2 && exists|i: int| 0 <= i < rates.len() && #[trigger] rates[i] > 0 {
        Err(BanditError::TooFewArmsToExplore)
    } else {
        Ok(())
    }
}

/// The rule for the bias range arms are drawn from.
pub open spec fn spec_validate_bias_range(bias_range: int) -> Result<(), BanditError> {
    if !(0 < bias_range <= MAX_BIAS) {
        Err(BanditError::BadBiasRange)
    } else {
        Ok(())
    }
}

/// The rule for a horizon: at least one step, and within the step cap.
pub open spec fn spec_validate_horizon(horizon: int) -> Result<(), BanditError> {
    if horizon < 1 {
        Err(BanditError::ZeroHorizon)
    } else if horizon > MAX_STEPS {
        Err(BanditError::HorizonTooLong)
    } else {
        Ok(())
    }
}

/// All checks a trial makes, in the order it makes them.
pub open spec fn spec_trial_check(arm_count: int, horizon: int, rates: Seq<int>) -> Result<
    (),
    BanditError,
> {
    match spec_validate_config(arm_count, rates) {
        Err(e) => Err(e),
        Ok(_) => spec_validate_horizon(horizon),
    }
}

/// Checks an arm count against a candidate-rate list, returning exactly
/// what `spec_validate_config` says.
pub(crate) fn validate_config(arm_count: usize, rates: &Vec<u32>) -> (r: Result<(), BanditError>)
    ensures
        r == spec_validate_config(arm_count as int, rate_ints(rates@)),
{
    let ghost rs = rate_ints(rates@);
    if rates.len() == 0 {
        return Err(BanditError::EmptyRateList);
    }
    let mut i: usize = 0;
    while i < rates.len()
        invariant
            i <= rates@.len(),
            rs == rate_ints(rates@),
            forall|j: int| 0 <= j < i ==> 0 <= #[trigger] rs[j] <= RATE_ONE,
        decreases rates@.len() - i,
    {
        if rates[i] > RATE_ONE {
            proof {
                assert(!(0 <= rs[i as int] <= RATE_ONE));
            }
            return Err(BanditError::RateOutOfRange);
        }
        i += 1;
    }
    if arm_count < 1 {
        return Err(BanditError::NoArms);
    }
    if arm_count < 2 {
        let mut i: usize = 0;
        while i < rates.len()
            invariant
                i <= rates@.len(),
                1 <= arm_count < 2,
                rs == rate_ints(rates@),
                forall|j: int| 0 <= j < rates@.len() ==> 0 <= #[trigger] rs[j] <= RATE_ONE,
                forall|j: int| 0 <= j < i ==> !(#[trigger] rs[j] > 0),
            decreases rates@.len() - i,
        {
            if rates[i] > 0 {
                proof {
                    assert(rs[i as int] > 0);
                }
                return Err(BanditError::TooFewArmsToExplore);
            }
            i += 1;
        }
    }
    Ok(())
}

/// The running "first strict maximum" scan over final scores: `b` is the
/// best index among those before `i`.
pub open spec fn first_max_from(scores: Seq<int>, i: int, b: int) -> int
    decreases scores.len() - i,
{
    if i < 0 || i >= scores.len() {
        b
    } else if scores[i] > scores[b] {
        first_max_from(scores, i + 1, i)
    } else {
        first_max_from(scores, i + 1, b)
    }
}

/// The index of the greatest score, ties broken by the lowest index.
pub open spec fn first_max_index(scores: Seq<int>) -> int {
    first_max_from(scores, 1, 0)
}

/// `first_max_from` lands on an index whose score no other reaches, and
/// that strictly beats every earlier index.
proof fn lemma_first_max_from_props(scores: Seq<int>, i: int, b: int)
    requires
        0 <= b < i <= scores.len(),
        forall|j: int| 0 <= j < i ==> #[trigger] scores[j] <= scores[b],
        forall|j: int| 0 <= j < b ==> #[trigger] scores[j] < scores[b],
    ensures
        ({
            let w = first_max_from(scores, i, b);
            &&& 0 <= w < scores.len()
            &&& forall|j: int| 0 <= j < scores.len() ==> #[trigger] scores[j] <= scores[w]
            &&& forall|j: int| 0 <= j < w ==> #[trigger] scores[j] < scores[w]
        }),
    decreases scores.len() - i,
{
    if i < scores.len() {
        if scores[i] > scores[b] {
            lemma_first_max_from_props(scores, i + 1, i);
        } else {
            lemma_first_max_from_props(scores, i + 1, b);
        }
    }
}

/// The first maximum of a non-empty score list, characterized.
pub proof fn lemma_first_max_index_props(scores: Seq<int>)
    requires
        scores.len() >= 1,
    ensures
        ({
            let w = first_max_index(scores);
            &&& 0 <= w < scores.len()
            &&& forall|j: int| 0 <= j < scores.len() ==> #[trigger] scores[j] <= scores[w]
            &&& forall|j: int| 0 <= j < w ==> #[trigger] scores[j] < scores[w]
        }),
{
    lemma_first_max_from_props(scores, 1, 0);
}

/// The rate that wins a trial: the rate of the agent whose final
/// cumulative score is the first strict maximum.
pub open spec fn winning_rate(t: Trial) -> int {
    t.rates()[first_max_index(t.finals())]
}

/// `t` is a trial that the given configuration and noise table can
/// produce: its invariant holds, it plays the given rates over
/// `arm_count` arms whose mean offsets lie in `[-bias_range, bias_range)`,
/// and each agent ran from fresh for `horizon` steps over its own noise
/// row, for some sequence of valid uniform draws.
pub open spec fn possible_trial(
    t: Trial,
    rates: Seq<int>,
    arm_count: int,
    bias_range: int,
    horizon: int,
    noise: Seq<Vec<i64>>,
) -> bool {
    &&& t.inv()
    &&& t.arm_count() == arm_count
    &&& t.rates() == rates
    &&& forall|i: int|
        0 <= i < t.biases().len() ==> -bias_range <= #[trigger] t.biases()[i] < bias_range
    &&& forall|k: int|
        0 <= k < t.agent_views().len() ==> (#[trigger] t.agent_views()[k]).steps() == horizon
    &&& forall|k: int|
        0 <= k < t.agent_views().len() ==> ran_from_fresh(
            #[trigger] t.agent_views()[k],
            rates[k],
            arm_count,
            t.biases(),
            int_seq(noise[k]@),
        )
}

/// One randomized bandit instance after its run: the shared arms and the
/// agents, one per candidate rate, in the candidate order.
pub struct Trial {
    sources: Vec<RewardSource>,
    agents: Vec<Agent>,
}

impl Trial {
    /// The arms' mean offsets.
    pub closed spec fn biases(&self) -> Seq<int> {
        biases_of(self.sources@)
    }

    /// The mathematical states of the agents, in candidate order.
    pub closed spec fn agent_views(&self) -> Seq<AgentView> {
        self.agents@.map(|i: int, a: Agent| a@)
    }

    pub open spec fn arm_count(&self) -> int {
        self.biases().len() as int
    }

    /// The candidate exploration rates, in order.
    pub open spec fn rates(&self) -> Seq<int> {
        self.agent_views().map(|i: int, v: AgentView| v.rate)
    }

    /// Each agent's final cumulative score.
    pub open spec fn finals(&self) -> Seq<int> {
        self.agent_views().map(|i: int, v: AgentView| v.last_score())
    }

    pub closed spec fn inv(&self) -> bool {
        &&& self.agents@.len() >= 1
        &&& forall|i: int| 0 <= i < self.agents@.len() ==> (#[trigger] self.agents@[i]).inv()
        &&& forall|i: int|
            0 <= i < self.agents@.len() ==> (#[trigger] self.agents@[i])@.arm_count()
                == self.sources@.len()
        &&& forall|i: int|
            0 <= i < self.agents@.len() ==> (#[trigger] self.agents@[i])@.steps() >= 1
        &&& forall|i: int| 0 <= i < self.sources@.len() ==> (#[trigger] self.sources@[i]).wf()
    }

    /// How many agents (candidate rates) the trial holds.
    pub fn agent_count(&self) -> (n: usize)
        ensures
            n == self.agent_views().len(),
    {
        self.agents.len()
    }

    /// The agent that played the `k`-th candidate rate.
    pub fn agent(&self, k: usize) -> (a: &Agent)
        requires
            self.inv(),
            k < self.agent_views().len(),
        ensures
            a@ == self.agent_views()[k as int],
            a.inv(),
    {
        &self.agents[k]
    }

    /// The shared arms.
    pub fn source_list(&self) -> (s: &Vec<RewardSource>)
        ensures
            biases_of(s@) == self.biases(),
    {
        &self.sources
    }

    /// Builds the agents over the given arms and runs each for
    /// `horizon` steps, the `k`-th agent consuming the noise row
    /// `noise[k]`. The configuration is checked first, exactly as
    /// `spec_trial_check` says.
    pub fn with_sources(
        sources: Vec<RewardSource>,
        horizon: usize,
        rates: &Vec<u32>,
        noise: &Vec<Vec<i64>>,
    ) -> (r: Result<Trial, BanditError>)
        requires
            noise@.len() == rates@.len(),
            forall|k: int| 0 <= k < noise@.len() ==> (#[trigger] noise@[k])@.len() == horizon,
            forall|k: int, j: int|
                0 <= k < noise@.len() && 0 <= j < noise@[k]@.len() ==> -MAX_NOISE
                    <= #[trigger] noise@[k]@[j] <= MAX_NOISE,
            forall|i: int| 0 <= i < sources@.len() ==> (#[trigger] sources@[i]).wf(),
        ensures
            r is Ok <==> spec_trial_check(
                sources@.len() as int,
                horizon as int,
                rate_ints(rates@),
            ) is Ok,
            r is Err ==> r->Err_0 == spec_trial_check(
                sources@.len() as int,
                horizon as int,
                rate_ints(rates@),
            )->Err_0,
            r matches Ok(t) ==> {
                &&& t.inv()
                &&& t.biases() == biases_of(sources@)
                &&& t.rates() =~= rate_ints(rates@)
                &&& forall|k: int|
                    0 <= k < t.agent_views().len() ==> (#[trigger] t.agent_views()[k]).steps()
                        == horizon
                &&& forall|k: int|
                    0 <= k < t.agent_views().len() ==> ran_from_fresh(
                        #[trigger] t.agent_views()[k],
                        rate_ints(rates@)[k],
                        sources@.len() as int,
                        biases_of(sources@),
                        int_seq(noise@[k]@),
                    )
            },
    {
        match validate_config(sources.len(), rates) {
            Err(e) => {
                return Err(e);
            },
            Ok(_) => {},
        }
        if horizon < 1 {
            return Err(BanditError::ZeroHorizon);
        }
        if horizon > MAX_STEPS {
            return Err(BanditError::HorizonTooLong);
        }
        let ghost rs = rate_ints(rates@);
        let ghost n = sources@.len() as int;
        let arm_count = sources.len();
        let mut agents: Vec<Agent> = Vec::new();
        let mut k: usize = 0;
        while k < rates.len()
            invariant
                k <= rates@.len(),
                noise@.len() == rates@.len(),
                rs == rate_ints(rates@),
                n == sources@.len() as int,
                spec_validate_config(n, rs) is Ok,
                1 <= horizon <= MAX_STEPS,
                arm_count == sources@.len(),
                forall|i: int| 0 <= i < sources@.len() ==> (#[trigger] sources@[i]).wf(),
                forall|kk: int| 0 <= kk < noise@.len() ==> (#[trigger] noise@[kk])@.len() == horizon,
                forall|kk: int, j: int|
                    0 <= kk < noise@.len() && 0 <= j < noise@[kk]@.len() ==> -MAX_NOISE
                        <= #[trigger] noise@[kk]@[j] <= MAX_NOISE,
                agents@.len() == k,
                forall|i: int| 0 <= i < k ==> (#[trigger] agents@[i]).inv(),
                forall|i: int| 0 <= i < k ==> (#[trigger] agents@[i])@.arm_count() == n,
                forall|i: int| 0 <= i < k ==> (#[trigger] agents@[i])@.rate == rs[i],
                forall|i: int| 0 <= i < k ==> (#[trigger] agents@[i])@.steps() == horizon,
                forall|i: int|
                    0 <= i < k ==> ran_from_fresh(
                        (#[trigger] agents@[i])@,
                        rs[i],
                        n,
                        biases_of(sources@),
                        int_seq(noise@[i]@),
                    ),
            decreases rates@.len() - k,
        {
            proof {
                assert(0 <= rs[k as int] <= RATE_ONE);
                if rs[k as int] > 0 {
                    assert(!(n < 2));
                }
            }
            let mut a = Agent::new(rates[k], arm_count);
            a.run_steps(&sources, &noise[k]);
            agents.push(a);
            k += 1;
        }
        let t = Trial { sources, agents };
        proof {
            assert(t.rates() =~= rate_ints(rates@));
        }
        Ok(t)
    }

    /// A fresh randomized instance: `arm_count` arms with mean offsets
    /// drawn uniformly from `[-bias_range, bias_range)` micros, then the
    /// run over the given noise table.
    pub fn run(
        arm_count: usize,
        horizon: usize,
        bias_range: i64,
        rates: &Vec<u32>,
        noise: &Vec<Vec<i64>>,
    ) -> (r: Result<Trial, BanditError>)
        requires
            noise@.len() == rates@.len(),
            forall|k: int| 0 <= k < noise@.len() ==> (#[trigger] noise@[k])@.len() == horizon,
            forall|k: int, j: int|
                0 <= k < noise@.len() && 0 <= j < noise@[k]@.len() ==> -MAX_NOISE
                    <= #[trigger] noise@[k]@[j] <= MAX_NOISE,
        ensures
            r is Ok <==> spec_validate_bias_range(bias_range as int) is Ok && spec_trial_check(
                arm_count as int,
                horizon as int,
                rate_ints(rates@),
            ) is Ok,
            r is Err ==> r->Err_0 == (match spec_validate_bias_range(bias_range as int) {
                Err(e) => e,
                Ok(_) => spec_trial_check(arm_count as int, horizon as int, rate_ints(rates@))->Err_0,
            }),
            r matches Ok(t) ==> possible_trial(
                t,
                rate_ints(rates@),
                arm_count as int,
                bias_range as int,
                horizon as int,
                noise@,
            ),
    {
        if bias_range < 1 || bias_range > MAX_BIAS {
            return Err(BanditError::BadBiasRange);
        }
        let mut sources: Vec<RewardSource> = Vec::new();
        let mut i: usize = 0;
        while i < arm_count
            invariant
                i <= arm_count,
                0 < bias_range <= MAX_BIAS,
                sources@.len() == i,
                forall|j: int| 0 <= j < i ==> (#[trigger] sources@[j]).wf(),
                forall|j: int|
                    0 <= j < i ==> -bias_range <= (#[trigger] sources@[j]).bias() < bias_range,
            decreases arm_count - i,
        {
            sources.push(RewardSource::random(bias_range));
            i += 1;
        }
        let ghost svs = sources@;
        let r = Trial::with_sources(sources, horizon, rates, noise);
        proof {
            if r is Ok {
                let t = r->Ok_0;
                assert(forall|j: int|
                    0 <= j < t.biases().len() ==> t.biases()[j] == (#[trigger] svs[j]).bias());
                assert(t.rates() == rate_ints(rates@));
            }
        }
        r
    }

    /// The winning exploration rate: the rate of the agent whose final
    /// cumulative score no other agent reaches, the lowest index winning
    /// ties.
    pub fn winner(&self) -> (r: u32)
        requires
            self.inv(),
        ensures
            r as int == winning_rate(*self),
            ({
                let w = first_max_index(self.finals());
                &&& 0 <= w < self.rates().len()
                &&& r as int == self.rates()[w]
                &&& forall|j: int|
                    0 <= j < self.finals().len() ==> #[trigger] self.finals()[j]
                        <= self.finals()[w]
                &&& forall|j: int| 0 <= j < w ==> #[trigger] self.finals()[j] < self.finals()[w]
            }),
    {
        let ghost fs = self.finals();
        let mut best: usize = 0;
        let mut best_score: i64 = self.agents[0].total_score();
        let mut i: usize = 1;
        while i < self.agents.len()
            invariant
                1 <= i <= self.agents@.len(),
                best < i,
                self.inv(),
                fs == self.finals(),
                best_score as int == fs[best as int],
                first_max_index(fs) == first_max_from(fs, i as int, best as int),
            decreases self.agents@.len() - i,
        {
            let s = self.agents[i].total_score();
            if s > best_score {
                best = i;
                best_score = s;
            }
            i += 1;
        }
        proof {
            lemma_first_max_index_props(fs);
        }
        self.agents[best].exploration_rate()
    }
}

} // verus!
