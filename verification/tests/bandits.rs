use bandits::{Agent, BanditError, Experiment, RewardSource, Trial, MAX_STEPS, RATE_ONE};

fn flat_sources(count: usize) -> Vec<RewardSource> {
    let mut v = Vec::new();
    for _ in 0..count {
        v.push(RewardSource::new(0));
    }
    v
}

#[test]
fn forced_trials_cover_every_arm() {
    let sources = flat_sources(4);
    let mut agent = Agent::new(0, 4);
    for k in 0..4 {
        agent.step_with(&sources, 0, 0, 100 * k as i64);
    }
    for arm in 0..4 {
        assert_eq!(agent.pull_count(arm), 1);
    }
    assert_eq!(agent.steps_taken(), 4);
}

#[test]
fn forced_trials_single_arm() {
    let sources = flat_sources(1);
    let mut agent = Agent::new(0, 1);
    agent.step_with(&sources, 0, 0, 42);
    assert_eq!(agent.pull_count(0), 1);
}

#[test]
fn exploitation_ignores_draws() {
    let sources = flat_sources(2);
    let mut agent = Agent::new(0, 2);
    agent.step_with(&sources, 0, 0, 500_000);
    agent.step_with(&sources, 0, 0, -300_000);
    // Rate zero: whatever the draws, the same arm comes out.
    let first = agent.select_arm_with(0, 0);
    assert_eq!(first, 0);
    assert_eq!(agent.select_arm_with(999_999, 0), first);
    assert_eq!(agent.select_arm_with(123_456, 0), first);
    // The self-drawing variant is deterministic too at rate zero.
    assert_eq!(agent.select_arm(), first);
    assert_eq!(agent.select_arm(), first);
}

#[test]
fn cumulative_scores_are_prefix_sums() {
    let mut agent = Agent::new(0, 3);
    let rewards: [i64; 6] = [250_000, -100_000, 0, 999_999, -999_999, 123];
    let arms: [usize; 6] = [0, 1, 2, 0, 1, 0];
    for k in 0..6 {
        agent.update(arms[k], rewards[k]);
    }
    let scores = agent.cumulative_scores().clone();
    assert_eq!(scores.len(), 6);
    let mut running: i64 = 0;
    for k in 0..6 {
        running += rewards[k];
        assert_eq!(scores[k], running);
    }
}

#[test]
fn winner_is_first_rate_with_greatest_final_score() {
    // Two statistically identical arms; with horizon two, both agents
    // spend the whole run in the forced-trial phase, so the noise rows
    // decide the final scores exactly.
    let rates = vec![0u32, RATE_ONE];
    let noise = vec![vec![100_000i64, 200_000], vec![0i64, 0]];
    let trial = Trial::with_sources(flat_sources(2), 2, &rates, &noise).unwrap();
    assert_eq!(trial.winner(), 0);

    let noise = vec![vec![0i64, 0], vec![100_000i64, 200_000]];
    let trial = Trial::with_sources(flat_sources(2), 2, &rates, &noise).unwrap();
    assert_eq!(trial.winner(), RATE_ONE);
}

#[test]
fn winner_breaks_ties_by_first_occurrence() {
    let rates = vec![300_000u32, 500_000];
    let noise = vec![vec![70_000i64, 70_000], vec![70_000i64, 70_000]];
    let trial = Trial::with_sources(flat_sources(2), 2, &rates, &noise).unwrap();
    assert_eq!(trial.winner(), 300_000);
}

#[test]
fn experiment_wins_sum_to_sample_count() {
    let mut experiment = Experiment::new(2, 1_000_000, vec![0, 500_000]).unwrap();
    let trials = 5;
    let mut noise = Vec::new();
    for t in 0..trials {
        noise.push(vec![vec![0i64, 1_000 * t as i64, 0], vec![500i64, 0, -500]]);
    }
    experiment.run(3, &noise).unwrap();
    assert_eq!(experiment.trials_recorded(), trials as u64);
    let total: u64 = experiment.win_counts().iter().sum();
    assert_eq!(total, trials as u64);
    assert_eq!(experiment.rate_list().len(), experiment.win_counts().len());
}

#[test]
fn scenario_two_flat_arms_horizon_two() {
    // Two arms with zero bias, horizon two, pure exploitation: the agent
    // pulls arm 0 then arm 1, and afterwards the arm with the larger
    // single sample stays best.
    let rates = vec![0u32];
    let noise = vec![vec![500_000i64, -300_000]];
    let trial = Trial::with_sources(flat_sources(2), 2, &rates, &noise).unwrap();
    let agent = trial.agent(0);
    assert_eq!(agent.pull_count(0), 1);
    assert_eq!(agent.pull_count(1), 1);
    assert_eq!(agent.cumulative_scores(), &vec![500_000i64, 200_000]);
    assert_eq!(agent.mean_estimates().unwrap(), vec![500_000i64, -300_000]);
    assert_eq!(agent.select_arm(), 0);
    assert_eq!(trial.winner(), 0);
}

#[test]
fn full_exploration_always_perturbs() {
    let sources = flat_sources(10);
    let mut agent = Agent::new(RATE_ONE, 10);
    // Forced-trial phase: give arm 0 the clearly greatest sample.
    agent.step_with(&sources, 0, 0, 900_000);
    for _ in 1..10 {
        agent.step_with(&sources, 0, 0, 0);
    }
    for arm in 0..10 {
        assert_eq!(agent.pull_count(arm), 1);
    }
    // Every probability draw is below the rate, so the choice is always
    // the best index (arm 0) plus the offset, modulo the arm count.
    for edraw in [0u32, 1, 500_000, 999_999] {
        for odraw in 0..9 {
            assert_eq!(agent.select_arm_with(edraw, odraw), odraw % 10);
        }
    }
    let chosen = agent.select_arm();
    assert!(chosen < 10);
}

#[test]
fn mean_estimates_guard_unpulled_arm() {
    let agent = Agent::new(0, 3);
    assert_eq!(agent.mean_estimates(), Err(BanditError::ArmNeverPulled));
    let mut agent = Agent::new(0, 2);
    agent.update(0, 700_001);
    assert_eq!(agent.mean_estimates(), Err(BanditError::ArmNeverPulled));
    agent.update(1, -700_001);
    agent.update(1, 0);
    // Rounding toward zero, as the running estimates divide.
    assert_eq!(agent.mean_estimates(), Ok(vec![700_001i64, -350_000]));
}

#[test]
fn configuration_errors_are_reported() {
    assert_eq!(
        Experiment::new(2, 1_000_000, vec![]).err().unwrap(),
        BanditError::EmptyRateList
    );
    assert_eq!(
        Experiment::new(2, 1_000_000, vec![0, RATE_ONE + 1]).err().unwrap(),
        BanditError::RateOutOfRange
    );
    assert_eq!(
        Experiment::new(0, 1_000_000, vec![0]).err().unwrap(),
        BanditError::NoArms
    );
    assert_eq!(
        Experiment::new(1, 1_000_000, vec![500_000]).err().unwrap(),
        BanditError::TooFewArmsToExplore
    );
    assert_eq!(
        Experiment::new(2, 0, vec![0]).err().unwrap(),
        BanditError::BadBiasRange
    );
    // A single arm is fine as long as no rate ever explores.
    assert!(Experiment::new(1, 1_000_000, vec![0]).is_ok());
}

#[test]
fn horizon_errors_are_reported() {
    let mut experiment = Experiment::new(2, 1_000_000, vec![0]).unwrap();
    let empty_rows: Vec<Vec<i64>> = vec![vec![]];
    assert_eq!(
        experiment.record_trial(0, &empty_rows).err().unwrap(),
        BanditError::ZeroHorizon
    );
    assert_eq!(experiment.trials_recorded(), 0);
    let long = MAX_STEPS + 1;
    let long_rows: Vec<Vec<i64>> = vec![vec![0; long]];
    assert_eq!(
        experiment.record_trial(long, &long_rows).err().unwrap(),
        BanditError::HorizonTooLong
    );
    let no_trials: Vec<Vec<Vec<i64>>> = Vec::new();
    assert_eq!(
        experiment.run(5, &no_trials).err().unwrap(),
        BanditError::ZeroSampleCount
    );
    assert_eq!(experiment.trials_recorded(), 0);
}

#[test]
fn trial_validates_like_experiment() {
    let rates = vec![0u32];
    let noise = vec![vec![0i64]];
    assert_eq!(
        Trial::with_sources(Vec::new(), 1, &rates, &noise).err().unwrap(),
        BanditError::NoArms
    );
    let empty_rates: Vec<u32> = Vec::new();
    let no_noise: Vec<Vec<i64>> = Vec::new();
    assert_eq!(
        Trial::with_sources(flat_sources(2), 1, &empty_rates, &no_noise).err().unwrap(),
        BanditError::EmptyRateList
    );
    assert_eq!(
        Trial::run(2, 1, 0, &rates, &noise).err().unwrap(),
        BanditError::BadBiasRange
    );
}

#[test]
fn random_sources_stay_inside_the_bias_range() {
    // The drawn offset must land in [-range, range); with range 1 that
    // pins it to -1 or 0, so a draw outside the range shows at once.
    for _ in 0..32 {
        let source = RewardSource::random(1);
        let bias = source.bias_micros();
        assert!(-1 <= bias && bias < 1);
    }
    for _ in 0..8 {
        let source = RewardSource::random(250_000);
        let bias = source.bias_micros();
        assert!(-250_000 <= bias && bias < 250_000);
    }
}

#[test]
fn sampling_shifts_noise_by_the_bias() {
    let source = RewardSource::new(123_456);
    assert_eq!(source.sample_with(1_000), 124_456);
    assert_eq!(source.sample_with(-200_000), -76_544);
}

#[test]
fn record_trial_adds_exactly_one_win() {
    let mut experiment = Experiment::new(3, 500_000, vec![0, 200_000]).unwrap();
    let noise = vec![vec![1_000i64, -2_000, 3_000, 0], vec![0i64, 0, 0, 0]];
    experiment.record_trial(4, &noise).unwrap();
    assert_eq!(experiment.trials_recorded(), 1);
    let total: u64 = experiment.win_counts().iter().sum();
    assert_eq!(total, 1);
}

#[test]
fn estimate_getters_report_the_recorded_state() {
    let mut agent = Agent::new(0, 2);
    assert_eq!(agent.arm_count(), 2);
    agent.update(1, 40);
    agent.update(1, 2);
    assert_eq!(agent.reward_sum(0), 0);
    assert_eq!(agent.reward_sum(1), 42);
    assert_eq!(agent.pull_count(1), 2);
    assert_eq!(agent.steps_taken(), 2);
}

#[test]
fn trial_shares_one_source_set_across_agents() {
    let rates = vec![0u32, 0];
    let noise = vec![vec![0i64], vec![0i64]];
    let sources = vec![RewardSource::new(-7), RewardSource::new(9)];
    let trial = Trial::with_sources(sources, 1, &rates, &noise).unwrap();
    let listed = trial.source_list();
    assert_eq!(listed.len(), 2);
    assert_eq!(listed[0].bias_micros(), -7);
    assert_eq!(listed[1].bias_micros(), 9);
    // Both agents pulled arm 0 (forced trial), whose bias is the reward
    // with zero noise.
    assert_eq!(trial.agent(0).cumulative_scores(), &vec![-7i64]);
    assert_eq!(trial.agent(1).cumulative_scores(), &vec![-7i64]);
}

#[test]
fn randomized_trial_runs_and_reports_a_known_rate() {
    let rates = vec![0u32, 10_000, 50_000, 100_000, 200_000, 300_000, 500_000];
    let mut noise = Vec::new();
    for k in 0..rates.len() {
        let mut row = Vec::new();
        for j in 0..30 {
            row.push((((k * 37 + j * 13) % 21) as i64 - 10) * 90_000);
        }
        noise.push(row);
    }
    let trial = Trial::run(10, 30, 1_000_000, &rates, &noise).unwrap();
    assert_eq!(trial.agent_count(), rates.len());
    let winner = trial.winner();
    assert!(rates.contains(&winner));
    for k in 0..rates.len() {
        let agent = trial.agent(k);
        assert_eq!(agent.exploration_rate(), rates[k]);
        assert_eq!(agent.steps_taken(), 30);
        assert_eq!(agent.cumulative_scores().len(), 30);
    }
}
