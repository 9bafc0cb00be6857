//! The append-only history of ranking snapshots.

use vstd::prelude::*;

use crate::ranking::Leaderboard;
use crate::trader::TraderId;

verus! {

/// The append-only log of past rankings: timestamped copies of the
/// trader order, appended on demand, never rewritten and never pruned
/// (capacity is an external concern).
#[derive(Debug, PartialEq, Eq)]
pub struct LeaderboardHistory {
    pub past_rankings: Vec<(i64, Vec<TraderId>)>,
}

impl LeaderboardHistory {
    /// Creates an empty history.
    pub fn new() -> (history: LeaderboardHistory)
        ensures
            history.past_rankings@.len() == 0,
    {
        LeaderboardHistory { past_rankings: Vec::new() }
    }
}

/// Appends a timestamped copy of the current ranking to the history.
///
/// Every earlier snapshot is left untouched; the new last entry pairs
/// `now` with the leaderboard's trader order as it stands.
pub fn snapshot_leaderboard(
    history: &mut LeaderboardHistory,
    leaderboard: &Leaderboard,
    now: i64,
)
    ensures
        final(history).past_rankings@.len() == old(history).past_rankings@.len() + 1,
        forall|i: int|
            0 <= i < old(history).past_rankings@.len() ==> final(history).past_rankings@[i] == old(
                history,
            ).past_rankings@[i],
        final(history).past_rankings@.last().0 == now,
        final(history).past_rankings@.last().1@ == leaderboard.traders@,
{
    let mut copied: Vec<TraderId> = Vec::new();
    let mut i: usize = 0;
    while i < leaderboard.traders.len()
        invariant
            i <= leaderboard.traders@.len(),
            copied@ == leaderboard.traders@.take(i as int),
        decreases leaderboard.traders@.len() - i,
    {
        copied.push(leaderboard.traders[i]);
        proof {
            assert(copied@ =~= leaderboard.traders@.take(i as int + 1));
        }
        i = i + 1;
    }
    proof {
        assert(leaderboard.traders@.take(leaderboard.traders@.len() as int)
            =~= leaderboard.traders@);
    }
    history.past_rankings.push((now, copied));
}

} // verus!
