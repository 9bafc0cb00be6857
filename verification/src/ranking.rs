//! The leaderboard and its ranking: composite scores, a deterministic
//! descending sort, and the minimum-interval gate on updates.

use vstd::multiset::Multiset;
use vstd::prelude::*;

use crate::errors::ErrorCode;
use crate::trader::TraderId;

verus! {

/// Minimum gap, in seconds, between two successful ranking updates.
pub const MIN_UPDATE_GAP_SECONDS: i64 = 600;

/// One trader's aggregated statistics as handed to a ranking update.
#[derive(Clone, Copy, Debug, PartialEq, Eq, Structural)]
pub struct TraderStatsInput {
    pub trader: TraderId,
    pub total_volume: u64,
    pub average_execution_time: u64,
    pub pnl: i64,
    pub staked_amount: u64,
}

/// A trader paired with a freshly computed composite score; a
/// computation-only value whose projections fill the leaderboard.
#[derive(Clone, Copy, Debug, PartialEq, Eq, Structural)]
pub struct RankedTrader {
    pub trader: TraderId,
    pub score: u64,
}

/// The single global ranking: traders in descending score order, with
/// the parallel score sequence, the time of the last successful update,
/// and the emergency circuit breaker.
#[derive(Debug, PartialEq, Eq)]
pub struct Leaderboard {
    pub traders: Vec<TraderId>,
    pub ranking_scores: Vec<u64>,
    pub last_update: i64,
    pub emergency_pause: bool,
}

impl Leaderboard {
    /// The two parallel sequences always have the same length: index
    /// `i` of both refers to the same trader.
    pub open spec fn wf(self) -> bool {
        self.traders@.len() == self.ranking_scores@.len()
    }
}

/// The volume-efficiency part of the score. The denominator never is
/// zero; a denominator past the integer range simply floors the
/// quotient to zero, the documented silent clamp.
pub open spec fn base_score_of(ts: TraderStatsInput) -> int {
    ts.total_volume as int / (ts.average_execution_time as int + 1)
}

/// The profit bonus: positive profit counts, losses never penalize.
pub open spec fn pnl_score_of(ts: TraderStatsInput) -> int {
    if ts.pnl > 0 {
        ts.pnl as int
    } else {
        0
    }
}

/// The staking bonus: one point per full 1000 staked units.
pub open spec fn staking_bonus_of(ts: TraderStatsInput) -> int {
    ts.staked_amount as int / 1000
}

/// The composite score. Scoring is best-effort by design: where an
/// addition would wrap, the partial sum clamps silently to zero instead
/// of failing the whole batch — deliberately unlike the strict checked
/// arithmetic everywhere else in this crate.
pub open spec fn score_of(ts: TraderStatsInput) -> u64 {
    let with_pnl = if base_score_of(ts) + pnl_score_of(ts) > u64::MAX {
        0int
    } else {
        base_score_of(ts) + pnl_score_of(ts)
    };
    let with_stake = if with_pnl + staking_bonus_of(ts) > u64::MAX {
        0int
    } else {
        with_pnl + staking_bonus_of(ts)
    };
    with_stake as u64
}

/// Computes one trader's composite score.
pub fn compute_score(ts: &TraderStatsInput) -> (score: u64)
    ensures
        score == score_of(*ts),
{
    let denominator: u128 = (ts.average_execution_time as u128) + 1;
    let quotient: u128 = (ts.total_volume as u128) / denominator;
    assert(quotient <= ts.total_volume) by {
        vstd::arithmetic::div_mod::lemma_div_nonincreasing(
            ts.total_volume as int,
            denominator as int,
        );
    }
    let base: u64 = quotient as u64;
    let profit_bonus: u64 = if ts.pnl > 0 {
        ts.pnl as u64
    } else {
        0
    };
    let stake_bonus: u64 = ts.staked_amount / 1000;
    let with_pnl: u64 = if base > u64::MAX - profit_bonus {
        0
    } else {
        base + profit_bonus
    };
    if with_pnl > u64::MAX - stake_bonus {
        0
    } else {
        with_pnl + stake_bonus
    }
}

/// Whether the scores of a ranking run in descending order.
pub open spec fn sorted_desc(s: Seq<RankedTrader>) -> bool {
    forall|i: int, j: int| 0 <= i <= j < s.len() ==> s[i].score >= s[j].score
}

/// Stable descending insertion: the new entry goes behind every entry
/// whose score is at least as high. This is the tie-break rule: among
/// equal scores, earlier input keeps the better rank.
pub open spec fn insert_ranked(s: Seq<RankedTrader>, x: RankedTrader) -> Seq<RankedTrader>
    decreases s.len(),
{
    if s.len() == 0 {
        seq![x]
    } else if s[0].score >= x.score {
        seq![s[0]] + insert_ranked(s.drop_first(), x)
    } else {
        seq![x] + s
    }
}

/// The deterministic ranking order: insertion sort, descending by
/// score, stable by input index.
pub open spec fn sort_ranked(s: Seq<RankedTrader>) -> Seq<RankedTrader>
    decreases s.len(),
{
    if s.len() == 0 {
        Seq::empty()
    } else {
        insert_ranked(sort_ranked(s.drop_last()), s.last())
    }
}

/// Stable insertion lands exactly at the first index whose score is
/// below the new entry's.
pub proof fn lemma_insert_ranked_at(s: Seq<RankedTrader>, x: RankedTrader, i: int)
    requires
        0 <= i <= s.len(),
        forall|k: int| 0 <= k < i ==> s[k].score >= x.score,
        i < s.len() ==> s[i].score < x.score,
    ensures
        insert_ranked(s, x) == s.insert(i, x),
    decreases i,
{
    if i == 0 {
        assert(insert_ranked(s, x) =~= s.insert(0, x));
    } else {
        lemma_insert_ranked_at(s.drop_first(), x, i - 1);
        assert(seq![s[0]] + s.drop_first().insert(i - 1, x) =~= s.insert(i, x));
    }
}

/// Every entry of a stable insertion is the inserted entry or one of
/// the original entries.
proof fn lemma_insert_ranked_elements(s: Seq<RankedTrader>, x: RankedTrader, k: int)
    requires
        0 <= k < insert_ranked(s, x).len(),
    ensures
        insert_ranked(s, x)[k] == x || s.contains(insert_ranked(s, x)[k]),
    decreases s.len(),
{
    if s.len() == 0 {
    } else if s[0].score >= x.score {
        if k == 0 {
            assert(s.contains(s[0]));
        } else {
            lemma_insert_ranked_elements(s.drop_first(), x, k - 1);
            let e = insert_ranked(s.drop_first(), x)[k - 1];
            assert(insert_ranked(s, x)[k] == e);
            if e != x {
                let m = choose|m: int| 0 <= m < s.drop_first().len() && s.drop_first()[m] == e;
                assert(s[m + 1] == e);
            }
        }
    } else {
        if k > 0 {
            assert(insert_ranked(s, x)[k] == s[k - 1]);
        }
    }
}

/// Stable insertion keeps a descending ranking descending and adds
/// exactly the inserted entry to its contents.
proof fn lemma_insert_ranked_sorted(s: Seq<RankedTrader>, x: RankedTrader)
    requires
        sorted_desc(s),
    ensures
        sorted_desc(insert_ranked(s, x)),
        insert_ranked(s, x).to_multiset() == s.to_multiset().insert(x),
        insert_ranked(s, x).len() == s.len() + 1,
    decreases s.len(),
{
    broadcast use vstd::seq_lib::group_to_multiset_ensures;
    broadcast use vstd::multiset::group_multiset_axioms;

    if s.len() == 0 {
        assert(insert_ranked(s, x) =~= Seq::empty().push(x));
        assert(Seq::<RankedTrader>::empty().push(x).to_multiset() =~= s.to_multiset().insert(x));
    } else if s[0].score >= x.score {
        let rest = s.drop_first();
        assert(sorted_desc(rest));
        lemma_insert_ranked_sorted(rest, x);
        let t = insert_ranked(rest, x);
        let r = insert_ranked(s, x);
        assert(r == seq![s[0]] + t);
        assert forall|k: int| 0 <= k < t.len() implies s[0].score >= t[k].score by {
            lemma_insert_ranked_elements(rest, x, k);
            if t[k] != x {
                let m = choose|m: int| 0 <= m < rest.len() && rest[m] == t[k];
                assert(s[m + 1] == rest[m]);
            }
        }
        assert(sorted_desc(r)) by {
            assert(forall|k: int| 1 <= k < r.len() ==> r[k] == t[k - 1]);
        }
        assert(r.to_multiset() == s.to_multiset().insert(x)) by {
            vstd::seq_lib::lemma_multiset_commutative(seq![s[0]], t);
            assert(seq![s[0]].to_multiset() =~= Multiset::empty().insert(s[0]));
            assert(s =~= seq![s[0]] + rest);
            vstd::seq_lib::lemma_multiset_commutative(seq![s[0]], rest);
            assert(r.to_multiset() =~= s.to_multiset().insert(x));
        }
    } else {
        let r = insert_ranked(s, x);
        assert(r == seq![x] + s);
        assert(forall|k: int| 1 <= k < r.len() ==> r[k] == s[k - 1]);
        assert(r.to_multiset() == s.to_multiset().insert(x)) by {
            vstd::seq_lib::lemma_multiset_commutative(seq![x], s);
            assert(seq![x].to_multiset() =~= Multiset::empty().insert(x));
            assert(r.to_multiset() =~= s.to_multiset().insert(x));
        }
    }
}

/// The ranking order is a descending-sorted permutation of its input:
/// same entries, same multiplicities, scores never increasing along
/// the ranking. Together with the stable tie-break built into
/// [`insert_ranked`], this pins the ranking completely.
pub proof fn lemma_sort_ranked_sorted(s: Seq<RankedTrader>)
    ensures
        sorted_desc(sort_ranked(s)),
        sort_ranked(s).to_multiset() == s.to_multiset(),
        sort_ranked(s).len() == s.len(),
    decreases s.len(),
{
    broadcast use vstd::seq_lib::group_to_multiset_ensures;

    if s.len() > 0 {
        lemma_sort_ranked_sorted(s.drop_last());
        lemma_insert_ranked_sorted(sort_ranked(s.drop_last()), s.last());
        assert(s =~= s.drop_last().push(s.last()));
    }
}

/// The scores handed to a ranking update, paired with their traders.
pub open spec fn scored_of(list: Seq<TraderStatsInput>) -> Seq<RankedTrader> {
    list.map_values(|ts: TraderStatsInput| RankedTrader { trader: ts.trader, score: score_of(ts) })
}

/// The full ranking a batch of statistics produces.
pub open spec fn ranking_of(list: Seq<TraderStatsInput>) -> Seq<RankedTrader> {
    sort_ranked(scored_of(list))
}

/// The ranking a batch produces is a descending-sorted permutation of
/// the scored batch: same entries, same multiplicities, scores never
/// increasing along the ranking.
pub proof fn lemma_ranking_is_sorted_permutation(list: Seq<TraderStatsInput>)
    ensures
        sorted_desc(ranking_of(list)),
        ranking_of(list).to_multiset() == scored_of(list).to_multiset(),
        ranking_of(list).len() == list.len(),
{
    lemma_sort_ranked_sorted(scored_of(list));
}

/// Recomputes the whole ranking from a batch of trader statistics.
///
/// Fails with `UpdateTooSoon`, mutating nothing, unless the minimum
/// interval has passed since the last successful update. On success
/// both parallel sequences are replaced wholesale with the projections
/// of the sorted scores, and the update time moves to `now`.
pub fn update_leaderboard(
    leaderboard: &mut Leaderboard,
    trader_stats_list: Vec<TraderStatsInput>,
    now: i64,
) -> (r: Result<(), ErrorCode>)
    ensures
        r is Ok <==> now - old(leaderboard).last_update >= MIN_UPDATE_GAP_SECONDS,
        r is Err ==> *final(leaderboard) == *old(leaderboard) && r == Err::<(), ErrorCode>(
            ErrorCode::UpdateTooSoon,
        ),
        r is Ok ==> final(leaderboard).wf(),
        r is Ok ==> final(leaderboard).traders@ == ranking_of(trader_stats_list@).map_values(
            |rt: RankedTrader| rt.trader,
        ),
        r is Ok ==> final(leaderboard).ranking_scores@ == ranking_of(trader_stats_list@).map_values(
            |rt: RankedTrader| rt.score,
        ),
        r is Ok ==> final(leaderboard).last_update == now,
        final(leaderboard).emergency_pause == old(leaderboard).emergency_pause,
{
    if (now as i128) - (leaderboard.last_update as i128) < (MIN_UPDATE_GAP_SECONDS as i128) {
        return Err(ErrorCode::UpdateTooSoon);
    }
    let mut scored: Vec<RankedTrader> = Vec::new();
    let mut i: usize = 0;
    while i < trader_stats_list.len()
        invariant
            i <= trader_stats_list@.len(),
            scored@ == scored_of(trader_stats_list@.take(i as int)),
        decreases trader_stats_list@.len() - i,
    {
        let ts = trader_stats_list[i];
        let score = compute_score(&ts);
        scored.push(RankedTrader { trader: ts.trader, score });
        proof {
            assert(scored@ =~= scored_of(trader_stats_list@.take(i as int + 1)));
        }
        i = i + 1;
    }
    proof {
        assert(trader_stats_list@.take(trader_stats_list@.len() as int) =~= trader_stats_list@);
    }
    let mut ranked: Vec<RankedTrader> = Vec::new();
    let mut i: usize = 0;
    while i < scored.len()
        invariant
            i <= scored@.len(),
            scored@ == scored_of(trader_stats_list@),
            ranked@ == sort_ranked(scored@.take(i as int)),
        decreases scored@.len() - i,
    {
        let x = scored[i];
        let mut j: usize = 0;
        while j < ranked.len() && ranked[j].score >= x.score
            invariant
                j <= ranked@.len(),
                forall|k: int| 0 <= k < j ==> ranked@[k].score >= x.score,
            decreases ranked@.len() - j,
        {
            j = j + 1;
        }
        proof {
            lemma_insert_ranked_at(ranked@, x, j as int);
            assert(scored@.take(i as int + 1).drop_last() =~= scored@.take(i as int));
            assert(scored@.take(i as int + 1).last() == scored@[i as int]);
        }
        ranked.insert(j, x);
        i = i + 1;
    }
    proof {
        assert(scored@.take(scored@.len() as int) =~= scored@);
    }
    let mut traders: Vec<TraderId> = Vec::new();
    let mut scores: Vec<u64> = Vec::new();
    let mut i: usize = 0;
    while i < ranked.len()
        invariant
            i <= ranked@.len(),
            traders@ == ranked@.take(i as int).map_values(|rt: RankedTrader| rt.trader),
            scores@ == ranked@.take(i as int).map_values(|rt: RankedTrader| rt.score),
        decreases ranked@.len() - i,
    {
        let entry = ranked[i];
        traders.push(entry.trader);
        scores.push(entry.score);
        proof {
            assert(traders@ =~= ranked@.take(i as int + 1).map_values(
                |rt: RankedTrader| rt.trader,
            ));
            assert(scores@ =~= ranked@.take(i as int + 1).map_values(|rt: RankedTrader| rt.score));
        }
        i = i + 1;
    }
    proof {
        assert(ranked@.take(ranked@.len() as int) =~= ranked@);
    }
    leaderboard.traders = traders;
    leaderboard.ranking_scores = scores;
    leaderboard.last_update = now;
    Ok(())
}

/// Creates an empty leaderboard at the given time: no ranked traders,
/// no scores, the circuit breaker disengaged.
pub fn initialize(now: i64) -> (leaderboard: Leaderboard)
    ensures
        leaderboard.wf(),
        leaderboard.traders@.len() == 0,
        leaderboard.ranking_scores@.len() == 0,
        leaderboard.last_update == now,
        !leaderboard.emergency_pause,
{
    Leaderboard {
        traders: Vec::new(),
        ranking_scores: Vec::new(),
        last_update: now,
        emergency_pause: false,
    }
}

/// Engages or releases the emergency circuit breaker. Unconditional
/// and idempotent; nothing but the flag changes.
pub fn admin_pause_rewards(leaderboard: &mut Leaderboard, paused: bool)
    ensures
        *final(leaderboard) == (Leaderboard { emergency_pause: paused, ..*old(leaderboard) }),
{
    leaderboard.emergency_pause = paused;
}

} // verus!
