//! The outer Monte-Carlo loop: many independent trials, each with fresh
//! arms and fresh randomness, tallying how often each candidate
//! exploration rate wins.

use vstd::prelude::*;

verus! {

use crate::{BanditError, MAX_NOISE, MAX_STEPS};
use crate::sums::{
    int_sum, lemma_int_sum_bounds_element, lemma_int_sum_update, lemma_int_sum_zero,
};
use crate::trial::{
    possible_trial, rate_ints, spec_validate_bias_range, spec_validate_config,
    spec_validate_horizon, validate_config, winning_rate, Trial,
};
use vstd::pervasive::unreached;

/// A sequence of win counts, as mathematical integers.
pub open spec fn win_ints(s: Seq<u64>) -> Seq<int> {
    s.map(|i: int, x: u64| x as int)
}

/// One tally step: `t` is a trial that the configuration and the noise
/// rows `row` can produce, `w` is the first index whose rate is `t`'s
/// winning rate, and `wins1` is `mid` with that count one higher.
pub open spec fn tally_step(
    rates: Seq<int>,
    arm_count: int,
    bias_range: int,
    horizon: int,
    row: Vec<Vec<i64>>,
    mid: Seq<int>,
    wins1: Seq<int>,
    t: Trial,
    w: int,
) -> bool {
    &&& possible_trial(t, rates, arm_count, bias_range, horizon, row@)
    &&& 0 <= w < mid.len()
    &&& rates[w] == winning_rate(t)
    &&& forall|j: int| 0 <= j < w ==> #[trigger] rates[j] != winning_rate(t)
    &&& wins1 == mid.update(w, mid[w] + 1)
}

/// The win counts went from `wins0` to `wins1` by one trial per entry of
/// the noise table: each step ran some trial that the configuration and
/// that entry's noise can produce, and incremented the count at the
/// first index whose rate is that trial's winning rate.
pub open spec fn tally_evolution(
    rates: Seq<int>,
    arm_count: int,
    bias_range: int,
    horizon: int,
    noise: Seq<Vec<Vec<i64>>>,
    wins0: Seq<int>,
    wins1: Seq<int>,
) -> bool
    decreases noise.len(),
{
    if noise.len() == 0 {
        wins1 == wins0
    } else {
        exists|mid: Seq<int>, t: Trial, w: int|
            {
                &&& #[trigger] tally_step(
                    rates,
                    arm_count,
                    bias_range,
                    horizon,
                    noise.last(),
                    mid,
                    wins1,
                    t,
                    w,
                )
                &&& tally_evolution(
                    rates,
                    arm_count,
                    bias_range,
                    horizon,
                    noise.drop_last(),
                    wins0,
                    mid,
                )
            }
    }
}

/// The accumulator of the whole evaluation: the candidate rates, one win
/// count per rate, and the configuration each trial is run with. The sum
/// of the win counts always equals the number of trials recorded.
pub struct Experiment {
    rates: Vec<u32>,
    wins: Vec<u64>,
    arm_count: usize,
    bias_range: i64,
    trials: u64,
}

impl Experiment {
    /// The candidate exploration rates, in order (parts per million).
    pub closed spec fn rates_view(&self) -> Seq<int> {
        rate_ints(self.rates@)
    }

    /// One win count per candidate rate, in the same order.
    pub closed spec fn wins_view(&self) -> Seq<int> {
        win_ints(self.wins@)
    }

    /// How many trials have been recorded.
    pub closed spec fn trials_done(&self) -> int {
        self.trials as int
    }

    pub closed spec fn spec_arm_count(&self) -> int {
        self.arm_count as int
    }

    pub closed spec fn spec_bias_range(&self) -> int {
        self.bias_range as int
    }

    pub closed spec fn inv(&self) -> bool {
        &&& self.wins@.len() == self.rates@.len()
        &&& spec_validate_config(self.spec_arm_count(), self.rates_view()) is Ok
        &&& spec_validate_bias_range(self.spec_bias_range()) is Ok
        &&& int_sum(self.wins_view()) == self.trials_done()
    }

    /// The win counts always sum to the number of trials recorded.
    pub proof fn lemma_wins_sum_to_trials(&self)
        requires
            self.inv(),
        ensures
            int_sum(self.wins_view()) == self.trials_done(),
    {
    }

    /// A fresh experiment: configuration checked, every win count zero.
    pub fn new(arm_count: usize, bias_range: i64, rates: Vec<u32>) -> (r: Result<
        Experiment,
        BanditError,
    >)
        ensures
            r is Ok <==> spec_validate_config(arm_count as int, rate_ints(rates@)) is Ok
                && spec_validate_bias_range(bias_range as int) is Ok,
            r is Err ==> r->Err_0 == (match spec_validate_config(
                arm_count as int,
                rate_ints(rates@),
            ) {
                Err(e) => e,
                Ok(_) => spec_validate_bias_range(bias_range as int)->Err_0,
            }),
            r matches Ok(ex) ==> {
                &&& ex.inv()
                &&& ex.rates_view() == rate_ints(rates@)
                &&& ex.wins_view().len() == rates@.len()
                &&& forall|i: int| 0 <= i < ex.wins_view().len() ==> #[trigger] ex.wins_view()[i] == 0
                &&& ex.trials_done() == 0
                &&& ex.spec_arm_count() == arm_count
                &&& ex.spec_bias_range() == bias_range
            },
    {
        match validate_config(arm_count, &rates) {
            Err(e) => {
                return Err(e);
            },
            Ok(_) => {},
        }
        if bias_range < 1 || bias_range > crate::MAX_BIAS {
            return Err(BanditError::BadBiasRange);
        }
        let mut wins: Vec<u64> = Vec::new();
        let mut i: usize = 0;
        while i < rates.len()
            invariant
                wins@.len() == i,
                i <= rates@.len(),
                forall|j: int| 0 <= j < i ==> #[trigger] wins@[j] == 0,
            decreases rates@.len() - i,
        {
            wins.push(0);
            i += 1;
        }
        let ex = Experiment { rates, wins, arm_count, bias_range, trials: 0 };
        proof {
            lemma_int_sum_zero(ex.wins_view());
        }
        Ok(ex)
    }

    /// Runs one fresh trial over the given noise table (one row per
    /// candidate rate, one entry per step) and credits the winning rate
    /// with one more win.
    pub fn record_trial(&mut self, horizon: usize, noise: &Vec<Vec<i64>>) -> (r: Result<
        (),
        BanditError,
    >)
        requires
            old(self).inv(),
            noise@.len() == old(self).rates_view().len(),
            forall|k: int| 0 <= k < noise@.len() ==> (#[trigger] noise@[k])@.len() == horizon,
            forall|k: int, j: int|
                0 <= k < noise@.len() && 0 <= j < noise@[k]@.len() ==> -MAX_NOISE
                    <= #[trigger] noise@[k]@[j] <= MAX_NOISE,
            old(self).trials_done() < u64::MAX,
        ensures
            final(self).inv(),
            r is Ok <==> spec_validate_horizon(horizon as int) is Ok,
            r is Err ==> r->Err_0 == spec_validate_horizon(horizon as int)->Err_0 && *final(self)
                == *old(self),
            r is Ok ==> {
                &&& final(self).rates_view() == old(self).rates_view()
                &&& final(self).spec_arm_count() == old(self).spec_arm_count()
                &&& final(self).spec_bias_range() == old(self).spec_bias_range()
                &&& final(self).trials_done() == old(self).trials_done() + 1
                &&& exists|t: Trial, w: int|
                    {
                        &&& #[trigger] possible_trial(
                            t,
                            old(self).rates_view(),
                            old(self).spec_arm_count(),
                            old(self).spec_bias_range(),
                            horizon as int,
                            noise@,
                        )
                        &&& 0 <= w < old(self).wins_view().len()
                        &&& old(self).rates_view()[w] == winning_rate(t)
                        &&& forall|j: int|
                            0 <= j < w ==> #[trigger] old(self).rates_view()[j] != winning_rate(t)
                        &&& final(self).wins_view() == #[trigger] old(self).wins_view().update(
                            w,
                            old(self).wins_view()[w] + 1,
                        )
                    }
            },
    {
        if horizon < 1 {
            return Err(BanditError::ZeroHorizon);
        }
        if horizon > MAX_STEPS {
            return Err(BanditError::HorizonTooLong);
        }
        let t = match Trial::run(self.arm_count, horizon, self.bias_range, &self.rates, noise) {
            Ok(t) => t,
            Err(_) => unreached(),
        };
        let won = t.winner();
        proof {
            let wi = crate::trial::first_max_index(t.finals());
            assert(t.rates()[wi] == won as int);
            assert(self.rates_view()[wi] == won as int);
        }
        let ghost old_wins = self.wins_view();
        let n = self.rates.len();
        let mut k: usize = 0;
        while self.rates[k] != won
            invariant
                n == self.rates@.len(),
                0 <= k < n,
                *self == *old(self),
                exists|j: int|
                    k <= j < self.rates_view().len() && #[trigger] self.rates_view()[j]
                        == won as int,
                forall|j: int| 0 <= j < k ==> #[trigger] self.rates_view()[j] != won as int,
            decreases self.rates@.len() - k,
        {
            k += 1;
            proof {
                let j = choose|j: int|
                    k - 1 <= j < self.rates_view().len() && #[trigger] self.rates_view()[j]
                        == won as int;
                assert(j >= k);
                assert(k < self.rates_view().len());
            }
        }
        let cur = self.wins[k];
        proof {
            assert(forall|j: int|
                0 <= j < self.wins_view().len() ==> 0 <= #[trigger] self.wins_view()[j]);
            lemma_int_sum_bounds_element(self.wins_view(), k as int);
        }
        self.wins[k] = cur + 1;
        self.trials = self.trials + 1;
        proof {
            assert(self.wins_view() =~= old_wins.update(k as int, old_wins[k as int] + 1));
            lemma_int_sum_update(old_wins, k as int, old_wins[k as int] + 1);
            assert(possible_trial(
                t,
                old(self).rates_view(),
                old(self).spec_arm_count(),
                old(self).spec_bias_range(),
                horizon as int,
                noise@,
            ));
            assert(old(self).rates_view()[k as int] == winning_rate(t));
            assert(self.wins_view() == old(self).wins_view().update(
                k as int,
                old(self).wins_view()[k as int] + 1,
            ));
        }
        Ok(())
    }

    /// Repeats `record_trial` once per entry of the noise table: the
    /// whole Monte-Carlo evaluation. On success exactly `noise.len()`
    /// more trials are recorded, and the win counts again sum to the
    /// trials recorded.
    pub fn run(&mut self, horizon: usize, noise: &Vec<Vec<Vec<i64>>>) -> (r: Result<
        (),
        BanditError,
    >)
        requires
            old(self).inv(),
            forall|t: int|
                0 <= t < noise@.len() ==> (#[trigger] noise@[t])@.len() == old(
                    self,
                ).rates_view().len(),
            forall|t: int, k: int|
                0 <= t < noise@.len() && 0 <= k < noise@[t]@.len() ==> (#[trigger] noise@[t]@[k])@.len()
                    == horizon,
            forall|t: int, k: int, j: int|
                0 <= t < noise@.len() && 0 <= k < noise@[t]@.len() && 0 <= j < noise@[t]@[k]@.len()
                    ==> -MAX_NOISE <= #[trigger] noise@[t]@[k]@[j] <= MAX_NOISE,
            old(self).trials_done() + noise@.len() <= u64::MAX,
        ensures
            final(self).inv(),
            r is Ok <==> noise@.len() >= 1 && spec_validate_horizon(horizon as int) is Ok,
            r is Err ==> *final(self) == *old(self) && r->Err_0 == (if noise@.len() == 0 {
                BanditError::ZeroSampleCount
            } else {
                spec_validate_horizon(horizon as int)->Err_0
            }),
            r is Ok ==> {
                &&& final(self).rates_view() == old(self).rates_view()
                &&& final(self).spec_arm_count() == old(self).spec_arm_count()
                &&& final(self).spec_bias_range() == old(self).spec_bias_range()
                &&& final(self).trials_done() == old(self).trials_done() + noise@.len()
                &&& int_sum(final(self).wins_view()) == old(self).trials_done() + noise@.len()
                &&& final(self).wins_view().len() == old(self).wins_view().len()
                &&& forall|i: int|
                    0 <= i < old(self).wins_view().len() ==> #[trigger] old(self).wins_view()[i]
                        <= final(self).wins_view()[i]
                &&& tally_evolution(
                    old(self).rates_view(),
                    old(self).spec_arm_count(),
                    old(self).spec_bias_range(),
                    horizon as int,
                    noise@,
                    old(self).wins_view(),
                    final(self).wins_view(),
                )
            },
    {
        if noise.len() == 0 {
            return Err(BanditError::ZeroSampleCount);
        }
        if horizon < 1 {
            return Err(BanditError::ZeroHorizon);
        }
        if horizon > MAX_STEPS {
            return Err(BanditError::HorizonTooLong);
        }
        let mut t: usize = 0;
        while t < noise.len()
            invariant
                t <= noise@.len(),
                self.inv(),
                1 <= horizon <= MAX_STEPS,
                self.rates_view() == old(self).rates_view(),
                self.spec_arm_count() == old(self).spec_arm_count(),
                self.spec_bias_range() == old(self).spec_bias_range(),
                self.trials_done() == old(self).trials_done() + t,
                self.wins_view().len() == old(self).wins_view().len(),
                forall|i: int|
                    0 <= i < old(self).wins_view().len() ==> #[trigger] old(self).wins_view()[i]
                        <= self.wins_view()[i],
                tally_evolution(
                    old(self).rates_view(),
                    old(self).spec_arm_count(),
                    old(self).spec_bias_range(),
                    horizon as int,
                    noise@.take(t as int),
                    old(self).wins_view(),
                    self.wins_view(),
                ),
                old(self).trials_done() + noise@.len() <= u64::MAX,
                forall|tt: int|
                    0 <= tt < noise@.len() ==> (#[trigger] noise@[tt])@.len()
                        == self.rates_view().len(),
                forall|tt: int, k: int|
                    0 <= tt < noise@.len() && 0 <= k < noise@[tt]@.len() ==> (
                    #[trigger] noise@[tt]@[k])@.len() == horizon,
                forall|tt: int, k: int, j: int|
                    0 <= tt < noise@.len() && 0 <= k < noise@[tt]@.len() && 0 <= j
                        < noise@[tt]@[k]@.len() ==> -MAX_NOISE <= #[trigger] noise@[tt]@[k]@[j]
                        <= MAX_NOISE,
            decreases noise@.len() - t,
        {
            let ghost rv = old(self).rates_view();
            let ghost ac = old(self).spec_arm_count();
            let ghost br = old(self).spec_bias_range();
            let ghost wins0 = old(self).wins_view();
            let ghost mid = self.wins_view();
            let ghost before = *self;
            match self.record_trial(horizon, &noise[t]) {
                Ok(_) => {},
                Err(_) => {
                    return unreached();
                },
            }
            proof {
                let (tr, w): (Trial, int) = choose|tr: Trial, w: int|
                    {
                        &&& #[trigger] possible_trial(
                            tr,
                            before.rates_view(),
                            before.spec_arm_count(),
                            before.spec_bias_range(),
                            horizon as int,
                            noise@[t as int]@,
                        )
                        &&& 0 <= w < before.wins_view().len()
                        &&& before.rates_view()[w] == winning_rate(tr)
                        &&& forall|j: int|
                            0 <= j < w ==> #[trigger] before.rates_view()[j] != winning_rate(tr)
                        &&& self.wins_view() == #[trigger] before.wins_view().update(
                            w,
                            before.wins_view()[w] + 1,
                        )
                    };
                let taken = noise@.take(t + 1);
                assert(taken.len() == t + 1);
                assert(taken.drop_last() =~= noise@.take(t as int));
                assert(taken.last() == noise@[t as int]);
                assert(tally_evolution(rv, ac, br, horizon as int, taken.drop_last(), wins0, mid));
                assert(possible_trial(tr, rv, ac, br, horizon as int, taken.last()@));
                assert(self.wins_view() == mid.update(w, mid[w] + 1));
                assert(tally_step(
                    rv,
                    ac,
                    br,
                    horizon as int,
                    taken.last(),
                    mid,
                    self.wins_view(),
                    tr,
                    w,
                ));
                assert(tally_evolution(rv, ac, br, horizon as int, taken, wins0, self.wins_view()));
            }
            t += 1;
        }
        proof {
            assert(noise@.take(noise@.len() as int) =~= noise@);
        }
        Ok(())
    }

    /// The candidate rates, in order.
    pub fn rate_list(&self) -> (r: &Vec<u32>)
        ensures
            rate_ints(r@) == self.rates_view(),
    {
        &self.rates
    }

    /// The win counts, one per candidate rate, in the same order.
    pub fn win_counts(&self) -> (w: &Vec<u64>)
        ensures
            win_ints(w@) == self.wins_view(),
    {
        &self.wins
    }

    /// How many trials have been recorded so far.
    pub fn trials_recorded(&self) -> (t: u64)
        ensures
            t as int == self.trials_done(),
    {
        self.trials
    }
}

} // verus!
