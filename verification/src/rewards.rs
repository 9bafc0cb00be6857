//! Reward distribution: the halving-adjusted pool, the proportional
//! split among the top-ranked traders, and the payout plan.

use vstd::arithmetic::power2::pow2;
use vstd::prelude::*;

use crate::errors::ErrorCode;
use crate::ranking::Leaderboard;
use crate::trader::TraderId;

verus! {

/// Length of one reward epoch: thirty days, in seconds.
pub const SECONDS_PER_EPOCH: u64 = 30 * 24 * 60 * 60;

/// The pool halves once every six epochs.
pub const EPOCHS_PER_HALVING: u64 = 6;

/// One planned payout: a ranked trader and the amount owed.
#[derive(Clone, Copy, Debug, PartialEq, Eq, Structural)]
pub struct RewardPayout {
    pub trader: TraderId,
    pub amount: u64,
}

/// How many halvings have happened by the given time.
pub open spec fn halving_periods_of(now: i64) -> int {
    (now as int / SECONDS_PER_EPOCH as int) / EPOCHS_PER_HALVING as int
}

/// The halving-adjusted pool: the reward pool floor-divided by the
/// current power-of-two halving factor, or one token once the factor
/// outgrows the integer range — never the undefined division, so some
/// payout activity continues indefinitely, however small.
pub open spec fn adjusted_pool_of(reward_amount: u64, now: i64) -> int {
    if halving_periods_of(now) >= 64 {
        1
    } else {
        reward_amount as int / pow2(halving_periods_of(now) as nat) as int
    }
}

/// How many leading entries of the ranking take part: the requested
/// count, capped by the ranking's length.
pub open spec fn top_count(leaderboard: Leaderboard, top_n: u64) -> int {
    if leaderboard.traders@.len() < top_n {
        leaderboard.traders@.len() as int
    } else {
        top_n as int
    }
}

/// The sum of a sequence of scores, as an unbounded integer.
pub open spec fn sum_scores(s: Seq<u64>) -> int
    decreases s.len(),
{
    if s.len() == 0 {
        0
    } else {
        sum_scores(s.drop_last()) + s.last()
    }
}

/// The total score among the participating top entries.
pub open spec fn top_total_score(leaderboard: Leaderboard, top_n: u64) -> int {
    sum_scores(leaderboard.ranking_scores@.take(top_count(leaderboard, top_n)))
}

/// Whether every participating trader has a payout destination among
/// the given accounts.
pub open spec fn all_recipients_known(
    leaderboard: Leaderboard,
    top_n: u64,
    accounts: Seq<TraderId>,
) -> bool {
    forall|i: int| 0 <= i < top_count(leaderboard, top_n) ==> accounts.contains(
        leaderboard.traders@[i],
    )
}

/// The sum of the planned payout amounts, as an unbounded integer.
pub open spec fn sum_amounts(p: Seq<RewardPayout>) -> int
    decreases p.len(),
{
    if p.len() == 0 {
        0
    } else {
        sum_amounts(p.drop_last()) + p.last().amount
    }
}

/// Extending a score prefix by one element grows its sum by exactly
/// that element.
proof fn lemma_sum_scores_take_succ(s: Seq<u64>, k: int)
    requires
        0 <= k < s.len(),
    ensures
        sum_scores(s.take(k + 1)) == sum_scores(s.take(k)) + s[k],
{
    assert(s.take(k + 1).drop_last() =~= s.take(k));
}

/// A sum of scores is never negative.
proof fn lemma_sum_scores_nonneg(s: Seq<u64>)
    ensures
        sum_scores(s) >= 0,
    decreases s.len(),
{
    if s.len() > 0 {
        lemma_sum_scores_nonneg(s.drop_last());
    }
}

/// Prefix sums of scores only grow with the prefix.
proof fn lemma_sum_scores_prefix_le(s: Seq<u64>, k: int, n: int)
    requires
        0 <= k <= n <= s.len(),
    ensures
        sum_scores(s.take(k)) <= sum_scores(s.take(n)),
    decreases n - k,
{
    if k < n {
        lemma_sum_scores_take_succ(s, k);
        lemma_sum_scores_prefix_le(s, k + 1, n);
    }
}

/// Each score of a prefix is bounded by the whole prefix sum.
proof fn lemma_score_le_sum(s: Seq<u64>, i: int, n: int)
    requires
        0 <= i < n <= s.len(),
    ensures
        s[i] <= sum_scores(s.take(n)),
{
    lemma_sum_scores_take_succ(s, i);
    lemma_sum_scores_nonneg(s.take(i));
    lemma_sum_scores_prefix_le(s, i + 1, n);
}

/// Computes the halving-adjusted reward pool at the given time.
fn compute_adjusted_pool(reward_amount: u64, now: i64) -> (pool: u64)
    requires
        now >= 0,
    ensures
        pool == adjusted_pool_of(reward_amount, now),
{
    let epoch: u64 = (now as u64) / SECONDS_PER_EPOCH;
    let periods: u64 = epoch / EPOCHS_PER_HALVING;
    assert(periods == halving_periods_of(now));
    if periods >= 64 {
        1
    } else {
        let mut factor: u64 = 1;
        let mut k: u64 = 0;
        proof {
            vstd::arithmetic::power2::lemma2_to64();
        }
        while k < periods
            invariant
                k <= periods < 64,
                factor == pow2(k as nat),
            decreases periods - k,
        {
            proof {
                let next: nat = (k + 1) as nat;
                vstd::arithmetic::power2::lemma_pow2_unfold(next);
                if next < 64 {
                    vstd::arithmetic::power2::lemma_pow2_strictly_increases(next, 64);
                }
                vstd::arithmetic::power2::lemma2_to64();
                vstd::arithmetic::power2::lemma2_to64_rest();
            }
            factor = factor * 2;
            k = k + 1;
        }
        proof {
            vstd::arithmetic::power2::lemma_pow2_pos(periods as nat);
        }
        reward_amount / factor
    }
}

/// Plans the distribution of a reward pool to the top-ranked traders.
///
/// The participating entries are the leading `top_n` of the ranking
/// (fewer when the ranking is shorter). Each participating trader is
/// owed `score * adjusted_pool / total_score`, floor-divided; the
/// indivisible remainder stays in the pool by design. The plan is
/// all-or-nothing: every destination is resolved against
/// `recipient_accounts` before any payout is reported, so a missing
/// destination fails the whole call and owes nobody anything. The
/// caller performs the planned transfers through the external token
/// service, in order, treating any transfer failure as fatal.
///
/// Fails with `EmergencyPaused` while the circuit breaker is engaged,
/// with `Overflow` when the total participating score wraps, with
/// `NoValidScores` when that total is zero, and with
/// `TraderTokenAccountNotFound` when a participating trader has no
/// destination — each condition reported exactly when it holds, in
/// that order of precedence.
pub fn distribute_rewards(
    leaderboard: &Leaderboard,
    top_n: u64,
    reward_amount: u64,
    now: i64,
    recipient_accounts: &Vec<TraderId>,
) -> (r: Result<Vec<RewardPayout>, ErrorCode>)
    requires
        leaderboard.wf(),
        now >= 0,
    ensures
        r == Err::<Vec<RewardPayout>, ErrorCode>(ErrorCode::EmergencyPaused)
            <==> leaderboard.emergency_pause,
        !leaderboard.emergency_pause ==> (r == Err::<Vec<RewardPayout>, ErrorCode>(
            ErrorCode::Overflow,
        ) <==> top_total_score(*leaderboard, top_n) > u64::MAX),
        !leaderboard.emergency_pause && top_total_score(*leaderboard, top_n) <= u64::MAX ==> (r
            == Err::<Vec<RewardPayout>, ErrorCode>(ErrorCode::NoValidScores) <==> top_total_score(
            *leaderboard,
            top_n,
        ) == 0),
        !leaderboard.emergency_pause && 0 < top_total_score(*leaderboard, top_n) <= u64::MAX ==> (
        r == Err::<Vec<RewardPayout>, ErrorCode>(ErrorCode::TraderTokenAccountNotFound)
            <==> !all_recipients_known(*leaderboard, top_n, recipient_accounts@)),
        r is Ok <==> (!leaderboard.emergency_pause && 0 < top_total_score(*leaderboard, top_n)
            <= u64::MAX && all_recipients_known(*leaderboard, top_n, recipient_accounts@)),
        r matches Ok(payouts) ==> payouts@.len() == top_count(*leaderboard, top_n),
        r matches Ok(payouts) ==> forall|i: int|
            0 <= i < payouts@.len() ==> payouts@[i].trader == leaderboard.traders@[i],
        r matches Ok(payouts) ==> forall|i: int|
            0 <= i < payouts@.len() ==> payouts@[i].amount == leaderboard.ranking_scores@[i]
                * adjusted_pool_of(reward_amount, now) / top_total_score(*leaderboard, top_n),
        r matches Ok(payouts) ==> sum_amounts(payouts@) <= adjusted_pool_of(reward_amount, now),
{
    if leaderboard.emergency_pause {
        return Err(ErrorCode::EmergencyPaused);
    }
    let adjusted: u64 = compute_adjusted_pool(reward_amount, now);
    let ranking_len: usize = leaderboard.traders.len();
    let num_traders: usize = if (ranking_len as u64) < top_n {
        ranking_len
    } else {
        top_n as usize
    };
    assert(num_traders == top_count(*leaderboard, top_n));

    let mut total_score: u64 = 0;
    let mut i: usize = 0;
    while i < num_traders
        invariant
            !leaderboard.emergency_pause,
            i <= num_traders <= leaderboard.ranking_scores@.len(),
            num_traders == top_count(*leaderboard, top_n),
            total_score == sum_scores(leaderboard.ranking_scores@.take(i as int)),
        decreases num_traders - i,
    {
        let score = leaderboard.ranking_scores[i];
        proof {
            lemma_sum_scores_take_succ(leaderboard.ranking_scores@, i as int);
        }
        if score > u64::MAX - total_score {
            proof {
                lemma_sum_scores_prefix_le(
                    leaderboard.ranking_scores@,
                    i as int + 1,
                    num_traders as int,
                );
            }
            return Err(ErrorCode::Overflow);
        }
        total_score = total_score + score;
        i = i + 1;
    }
    if total_score == 0 {
        return Err(ErrorCode::NoValidScores);
    }

    let ghost pool = adjusted_pool_of(reward_amount, now);
    let ghost total = top_total_score(*leaderboard, top_n);
    let mut payouts: Vec<RewardPayout> = Vec::new();
    let mut i: usize = 0;
    while i < num_traders
        invariant
            !leaderboard.emergency_pause,
            i <= num_traders <= leaderboard.traders@.len(),
            leaderboard.wf(),
            num_traders == top_count(*leaderboard, top_n),
            total == top_total_score(*leaderboard, top_n),
            pool == adjusted_pool_of(reward_amount, now),
            adjusted == pool,
            total_score == total,
            0 < total_score,
            payouts@.len() == i,
            forall|k: int| 0 <= k < i ==> payouts@[k].trader == leaderboard.traders@[k],
            forall|k: int|
                0 <= k < i ==> payouts@[k].amount == leaderboard.ranking_scores@[k] * pool / total,
            forall|k: int| 0 <= k < i ==> recipient_accounts@.contains(leaderboard.traders@[k]),
            sum_amounts(payouts@) * total <= sum_scores(leaderboard.ranking_scores@.take(i as int))
                * pool,
        decreases num_traders - i,
    {
        let trader = leaderboard.traders[i];
        let score = leaderboard.ranking_scores[i];

        let mut found: bool = false;
        let mut j: usize = 0;
        while j < recipient_accounts.len()
            invariant
                j <= recipient_accounts@.len(),
                found <==> exists|k: int| 0 <= k < j && recipient_accounts@[k] == trader,
            decreases recipient_accounts@.len() - j,
        {
            if recipient_accounts[j].key == trader.key {
                found = true;
            }
            j = j + 1;
        }
        if !found {
            assert(!recipient_accounts@.contains(leaderboard.traders@[i as int]));
            return Err(ErrorCode::TraderTokenAccountNotFound);
        }

        assert((score as int) * (adjusted as int) <= (u64::MAX as int) * (u64::MAX as int)) by {
            vstd::arithmetic::mul::lemma_mul_upper_bound(
                score as int,
                u64::MAX as int,
                adjusted as int,
                u64::MAX as int,
            );
        }
        let wide: u128 = (score as u128) * (adjusted as u128);
        let amount_wide: u128 = wide / (total_score as u128);
        proof {
            lemma_score_le_sum(leaderboard.ranking_scores@, i as int, num_traders as int);
            vstd::arithmetic::mul::lemma_mul_inequality(
                score as int,
                total_score as int,
                adjusted as int,
            );
            vstd::arithmetic::div_mod::lemma_div_is_ordered(
                (score as int) * (adjusted as int),
                (total_score as int) * (adjusted as int),
                total_score as int,
            );
            vstd::arithmetic::div_mod::lemma_div_multiples_vanish(
                adjusted as int,
                total_score as int,
            );
        }
        let amount: u64 = amount_wide as u64;

        proof {
            let t = total_score as int;
            let w = (score as int) * (adjusted as int);
            assert(wide as int == w);
            assert(amount as int == w / t);
            vstd::arithmetic::div_mod::lemma_fundamental_div_mod(w, t);
            vstd::arithmetic::div_mod::lemma_mod_bound(w, t);
            assert((w / t) * t <= w) by (nonlinear_arith)
                requires
                    w == t * (w / t) + (w % t),
                    w % t >= 0,
            ;
            assert((amount as int) * t <= w);
            let prior = payouts@;
            let grown = prior.push(RewardPayout { trader, amount });
            assert(grown.drop_last() =~= prior);
            assert(sum_amounts(grown) == sum_amounts(prior) + amount);
            lemma_sum_scores_take_succ(leaderboard.ranking_scores@, i as int);
            let before = sum_amounts(prior);
            let after = sum_amounts(grown);
            let s_here = sum_scores(leaderboard.ranking_scores@.take(i as int));
            let s_next = sum_scores(leaderboard.ranking_scores@.take(i as int + 1));
            assert((amount as int) * total <= (score as int) * pool);
            assert(after * total <= s_next * pool) by (nonlinear_arith)
                requires
                    after == before + amount,
                    before * total <= s_here * pool,
                    (amount as int) * total <= (score as int) * pool,
                    s_next == s_here + score,
            ;
        }
        payouts.push(RewardPayout { trader, amount });
        i = i + 1;
    }
    proof {
        let summed = sum_amounts(payouts@);
        assert(leaderboard.ranking_scores@.take(num_traders as int) =~= leaderboard.ranking_scores@
            .take(top_count(*leaderboard, top_n)));
        assert(summed <= pool) by (nonlinear_arith)
            requires
                summed * total <= total * pool,
                total > 0,
        ;
    }
    Ok(payouts)
}

} // verus!
