//! General properties of the policy, stated and proved over the
//! mathematical model: the forced-trial phase covers every arm exactly
//! once, exploitation is deterministic, cumulative scores are prefix sums
//! of the rewards received, the greedy choice really is the first
//! greatest mean, and full exploration always takes the perturbation
//! branch.

use vstd::prelude::*;

verus! {

use crate::RATE_ONE;
use crate::agent::{
    best_index, first_unpulled, first_unpulled_from, mean_lt, spec_run, spec_select, spec_update,
    AgentView,
};
use crate::sums::int_sum;

/// A pull-count shape: the first `k` arms pulled once, the rest never.
pub open spec fn ones_then_zeros(n: int, k: int) -> Seq<int> {
    Seq::new(n as nat, |i: int| if i < k { 1 } else { 0 })
}

/// Advancing past a non-zero prefix does not move the first unpulled
/// index.
proof fn lemma_first_unpulled_prefix_nonzero(counts: Seq<int>, i: int)
    requires
        0 <= i <= counts.len(),
        forall|j: int| 0 <= j < i ==> #[trigger] counts[j] != 0,
    ensures
        first_unpulled(counts) == first_unpulled_from(counts, i),
    decreases i,
{
    if i > 0 {
        lemma_first_unpulled_prefix_nonzero(counts, i - 1);
        assert(first_unpulled_from(counts, i - 1) == first_unpulled_from(counts, i));
    }
}

/// After `k <= n` steps from a fresh agent, the pull counts are exactly
/// one for the first `k` arms and zero for the rest: the forced-trial
/// rule walks the arms in index order, whatever the draws and the noise.
proof fn lemma_forced_phase(
    rate: int,
    n: int,
    biases: Seq<int>,
    noise: Seq<int>,
    draws: Seq<(int, int)>,
)
    requires
        1 <= n,
        noise.len() <= n,
    ensures
        spec_run(AgentView::fresh(rate, n), biases, noise, draws).counts == ones_then_zeros(
            n,
            noise.len() as int,
        ),
    decreases noise.len(),
{
    let v0 = AgentView::fresh(rate, n);
    let k = noise.len() as int;
    if k == 0 {
        assert(v0.counts =~= ones_then_zeros(n, 0));
    } else {
        lemma_forced_phase(rate, n, biases, noise.drop_last(), draws.drop_last());
        let prev = spec_run(v0, biases, noise.drop_last(), draws.drop_last());
        assert(prev.counts == ones_then_zeros(n, k - 1));
        assert(prev.counts[k - 1] == 0);
        assert(!prev.all_pulled());
        lemma_first_unpulled_prefix_nonzero(prev.counts, k - 1);
        assert(first_unpulled(prev.counts) == k - 1);
        let stepped = spec_run(v0, biases, noise, draws);
        assert(stepped.counts == prev.counts.update(k - 1, prev.counts[k - 1] + 1));
        assert(stepped.counts =~= ones_then_zeros(n, k));
    }
}

/// After exactly `arm_count` steps of one fresh agent, every arm has a
/// pull count of one: the forced-trial rule is exhaustive and
/// non-repeating, for every rate, bias list, noise list and draw list.
pub proof fn lemma_forced_trials_cover_every_arm(
    rate: int,
    n: int,
    biases: Seq<int>,
    noise: Seq<int>,
    draws: Seq<(int, int)>,
)
    requires
        1 <= n,
        noise.len() == n,
    ensures
        forall|i: int|
            0 <= i < n ==> #[trigger] spec_run(
                AgentView::fresh(rate, n),
                biases,
                noise,
                draws,
            ).counts[i] == 1,
{
    lemma_forced_phase(rate, n, biases, noise, draws);
    assert(forall|i: int| 0 <= i < n ==> #[trigger] ones_then_zeros(n, n)[i] == 1);
}

/// With exploration rate zero the selection ignores the draws entirely:
/// it is a pure function of the current estimates.
pub proof fn lemma_exploitation_ignores_draws(v: AgentView, e1: int, o1: int, e2: int, o2: int)
    requires
        v.rate == 0,
    ensures
        spec_select(v, e1, o1) == spec_select(v, e2, o2),
{
}

/// With exploration rate one, every probability draw falls below the
/// rate, so past the forced-trial phase every selection takes the
/// perturbation branch.
pub proof fn lemma_full_exploration_always_perturbs(v: AgentView, e: int, o: int)
    requires
        v.rate == RATE_ONE,
        v.all_pulled(),
        0 <= e < RATE_ONE,
    ensures
        spec_select(v, e, o) == (best_index(v) + o) % v.arm_count(),
{
}

/// The state after a sequence of plain updates, each crediting one
/// reward to one arm.
pub open spec fn apply_updates(v: AgentView, arms: Seq<int>, rewards: Seq<int>) -> AgentView
    decreases rewards.len(),
{
    if rewards.len() == 0 {
        v
    } else {
        spec_update(
            apply_updates(v, arms.drop_last(), rewards.drop_last()),
            arms.last(),
            rewards.last(),
        )
    }
}

/// Starting from an empty trajectory, the `k`-th cumulative score equals
/// the sum of the first `k + 1` rewards received, whichever arms they
/// were credited to.
pub proof fn lemma_scores_are_prefix_sums(v: AgentView, arms: Seq<int>, rewards: Seq<int>)
    requires
        v.scores.len() == 0,
        arms.len() == rewards.len(),
    ensures
        apply_updates(v, arms, rewards).scores.len() == rewards.len(),
        forall|k: int|
            0 <= k < rewards.len() ==> apply_updates(v, arms, rewards).scores[k] == int_sum(
                #[trigger] rewards.take(k + 1),
            ),
    decreases rewards.len(),
{
    let len = rewards.len() as int;
    if len > 0 {
        lemma_scores_are_prefix_sums(v, arms.drop_last(), rewards.drop_last());
        let prev = apply_updates(v, arms.drop_last(), rewards.drop_last());
        let full = apply_updates(v, arms, rewards);
        assert forall|k: int| 0 <= k < len implies full.scores[k] == int_sum(
            #[trigger] rewards.take(k + 1),
        ) by {
            if k < len - 1 {
                assert(rewards.drop_last().take(k + 1) =~= rewards.take(k + 1));
                assert(full.scores[k] == prev.scores[k]);
            } else {
                // The appended entry: the previous running total plus the
                // last reward.
                if len == 1 {
                    assert(prev.last_score() == 0);
                    assert(rewards.take(1).drop_last() =~= Seq::<int>::empty());
                } else {
                    assert(rewards.drop_last().take(len - 1) =~= rewards.take(len - 1));
                    assert(prev.last_score() == int_sum(rewards.take(len - 1)));
                }
                assert(rewards.take(len).drop_last() =~= rewards.take(len - 1));
                assert(rewards.take(len).last() == rewards[len - 1]);
                assert(int_sum(rewards.take(len)) == int_sum(rewards.take(len - 1)) + rewards[len
                    - 1]);
            }
        }
    }
}

/// `b` is the index of the strictly greatest mean, ties broken by the
/// lowest index: no arm's mean exceeds `b`'s, and every earlier arm's
/// mean is strictly below it.
pub open spec fn is_best(v: AgentView, b: int) -> bool {
    &&& 0 <= b < v.sums.len()
    &&& forall|j: int|
        0 <= j < v.sums.len() ==> !mean_lt(v.sums[b], v.counts[b], #[trigger] v.sums[j], v.counts[j])
    &&& forall|j: int|
        0 <= j < b ==> mean_lt(#[trigger] v.sums[j], v.counts[j], v.sums[b], v.counts[b])
}

/// Ordering of exact mean fractions is transitive across a weak and a
/// strict step.
proof fn lemma_mean_le_lt_trans(s1: int, c1: int, s2: int, c2: int, s3: int, c3: int)
    by (nonlinear_arith)
    requires
        c1 > 0,
        c2 > 0,
        c3 > 0,
        !mean_lt(s2, c2, s1, c1),
        mean_lt(s2, c2, s3, c3),
    ensures
        mean_lt(s1, c1, s3, c3),
{
}

/// The scan that `best_index` makes lands on an index satisfying
/// `is_best`.
proof fn lemma_best_from_props(v: AgentView, i: int, b: int)
    requires
        v.counts.len() == v.sums.len(),
        forall|j: int| 0 <= j < v.counts.len() ==> #[trigger] v.counts[j] > 0,
        0 <= b < i <= v.sums.len(),
        forall|j: int|
            0 <= j < i ==> !mean_lt(v.sums[b], v.counts[b], #[trigger] v.sums[j], v.counts[j]),
        forall|j: int|
            0 <= j < b ==> mean_lt(#[trigger] v.sums[j], v.counts[j], v.sums[b], v.counts[b]),
    ensures
        is_best(v, crate::agent::best_from(v.sums, v.counts, i, b)),
    decreases v.sums.len() - i,
{
    if i < v.sums.len() {
        if mean_lt(v.sums[b], v.counts[b], v.sums[i], v.counts[i]) {
            assert forall|j: int| 0 <= j < i + 1 implies !mean_lt(
                v.sums[i],
                v.counts[i],
                #[trigger] v.sums[j],
                v.counts[j],
            ) && (j < i ==> mean_lt(v.sums[j], v.counts[j], v.sums[i], v.counts[i])) by {
                if j < i {
                    lemma_mean_le_lt_trans(
                        v.sums[j],
                        v.counts[j],
                        v.sums[b],
                        v.counts[b],
                        v.sums[i],
                        v.counts[i],
                    );
                }
            }
            lemma_best_from_props(v, i + 1, i);
        } else {
            lemma_best_from_props(v, i + 1, b);
        }
    }
}

/// Past the forced-trial phase, `best_index` points at the arm with the
/// strictly greatest mean, ties broken by the lowest index.
pub proof fn lemma_best_index_is_best(v: AgentView)
    requires
        v.counts.len() == v.sums.len(),
        v.sums.len() >= 1,
        v.all_pulled(),
    ensures
        is_best(v, best_index(v)),
{
    lemma_best_from_props(v, 1, 0);
}

/// Only one index can satisfy `is_best`: the greedy choice is fully
/// determined by the estimates.
pub proof fn lemma_best_is_unique(v: AgentView, b1: int, b2: int)
    requires
        is_best(v, b1),
        is_best(v, b2),
    ensures
        b1 == b2,
{
    if b1 < b2 {
        assert(mean_lt(v.sums[b1], v.counts[b1], v.sums[b2], v.counts[b2]));
        assert(!mean_lt(v.sums[b1], v.counts[b1], v.sums[b2], v.counts[b2]));
    } else if b2 < b1 {
        assert(mean_lt(v.sums[b2], v.counts[b2], v.sums[b1], v.counts[b1]));
        assert(!mean_lt(v.sums[b2], v.counts[b2], v.sums[b1], v.counts[b1]));
    }
}

} // verus!
