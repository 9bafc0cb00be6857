//! Per-trader running statistics: trade recording with an anti-spam gate,
//! the staking ledger, and the fee-discount calculation.

use vstd::prelude::*;

use crate::errors::ErrorCode;

verus! {

/// Minimum gap, in seconds, between two accepted trades of one trader.
pub const MIN_TRADE_GAP_SECONDS: i64 = 10;

/// An opaque trader identity; a unique key.
#[derive(Clone, Copy, Debug, PartialEq, Eq, Structural)]
pub struct TraderId {
    pub key: u64,
}

/// The running statistics of one trader. Mutated only through
/// [`record_trade`], [`stake_tokens`] and [`calculate_fee_discount`].
#[derive(Clone, Copy, Debug, PartialEq, Eq, Structural)]
pub struct TraderStats {
    pub trader: TraderId,
    /// Cumulative traded volume; never decreases.
    pub total_volume: u64,
    /// Running weighted average of execution times, floor-divided at
    /// every step; recomputed on each accepted trade.
    pub average_execution_time: u64,
    /// Number of accepted trades; increments by exactly one per accept.
    pub trade_count: u64,
    /// Cumulative profit and loss; may go negative.
    pub pnl: i64,
    /// Staked balance; mutated only by staking, never by trading.
    pub staked_amount: u64,
    /// Derived fee discount in percent, within `[0, 50]`.
    pub fee_discount: u8,
    /// Timestamp of the most recently accepted trade; the spam gate
    /// measures from it.
    pub last_trade: i64,
}

/// The spam gate: a trade is rejected when the trader has traded before
/// and less than [`MIN_TRADE_GAP_SECONDS`] have passed since.
pub open spec fn spam_gated(s: TraderStats, now: i64) -> bool {
    s.trade_count > 0 && now - s.last_trade < MIN_TRADE_GAP_SECONDS
}

/// A trade is accepted exactly when the spam gate passes and none of the
/// checked updates would wrap.
pub open spec fn trade_accepted(
    s: TraderStats,
    volume: u64,
    execution_time: u64,
    pnl_delta: i64,
    now: i64,
) -> bool {
    &&& !spam_gated(s, now)
    &&& s.total_volume + volume <= u64::MAX
    &&& s.trade_count + 1 <= u64::MAX
    &&& s.average_execution_time * s.trade_count + execution_time <= u64::MAX
    &&& i64::MIN <= s.pnl + pnl_delta <= i64::MAX
}

/// The statistics after an accepted trade: volume accumulates, the
/// average execution time becomes the floor-divided running mean, the
/// count increments, profit and loss accumulates, and `last_trade`
/// moves to `now`. Staking fields are untouched by trading.
pub open spec fn trade_applied(
    s: TraderStats,
    volume: u64,
    execution_time: u64,
    pnl_delta: i64,
    now: i64,
) -> TraderStats {
    TraderStats {
        trader: s.trader,
        total_volume: (s.total_volume + volume) as u64,
        average_execution_time: ((s.average_execution_time * s.trade_count + execution_time)
            / (s.trade_count + 1)) as u64,
        trade_count: (s.trade_count + 1) as u64,
        pnl: (s.pnl + pnl_delta) as i64,
        staked_amount: s.staked_amount,
        fee_discount: s.fee_discount,
        last_trade: now,
    }
}

/// Records one trade against the trader's statistics.
///
/// The trade is rejected with `TradeSpamDetected` when it arrives less
/// than the minimum gap after the previous accepted trade, and with
/// `Overflow` when any checked update would wrap. A rejected trade
/// mutates nothing; an accepted one commits every field update at once.
pub fn record_trade(
    stats: &mut TraderStats,
    volume: u64,
    execution_time: u64,
    pnl_delta: i64,
    now: i64,
) -> (r: Result<(), ErrorCode>)
    ensures
        r is Ok <==> trade_accepted(*old(stats), volume, execution_time, pnl_delta, now),
        r is Ok ==> *final(stats) == trade_applied(
            *old(stats),
            volume,
            execution_time,
            pnl_delta,
            now,
        ),
        r is Err ==> *final(stats) == *old(stats),
        r == Err::<(), ErrorCode>(ErrorCode::TradeSpamDetected) <==> spam_gated(*old(stats), now),
        !spam_gated(*old(stats), now) && !trade_accepted(
            *old(stats),
            volume,
            execution_time,
            pnl_delta,
            now,
        ) ==> r == Err::<(), ErrorCode>(ErrorCode::Overflow),
{
    if stats.trade_count > 0 && (now as i128) - (stats.last_trade as i128) < (
    MIN_TRADE_GAP_SECONDS as i128) {
        return Err(ErrorCode::TradeSpamDetected);
    }
    if volume > u64::MAX - stats.total_volume {
        return Err(ErrorCode::Overflow);
    }
    if stats.trade_count == u64::MAX {
        return Err(ErrorCode::Overflow);
    }
    let new_count: u64 = stats.trade_count + 1;
    assert((stats.average_execution_time as int) * (stats.trade_count as int) <= (u64::MAX as int)
        * (u64::MAX as int)) by {
        vstd::arithmetic::mul::lemma_mul_upper_bound(
            stats.average_execution_time as int,
            u64::MAX as int,
            stats.trade_count as int,
            u64::MAX as int,
        );
    }
    let weighted: u128 = (stats.average_execution_time as u128) * (stats.trade_count as u128);
    if weighted > (u64::MAX as u128) - (execution_time as u128) {
        return Err(ErrorCode::Overflow);
    }
    let summed: u128 = weighted + (execution_time as u128);
    let averaged: u128 = summed / (new_count as u128);
    assert(averaged <= summed <= u64::MAX) by {
        vstd::arithmetic::div_mod::lemma_div_nonincreasing(summed as int, new_count as int);
    }
    let new_pnl: i128 = (stats.pnl as i128) + (pnl_delta as i128);
    if new_pnl > (i64::MAX as i128) || new_pnl < (i64::MIN as i128) {
        return Err(ErrorCode::Overflow);
    }
    stats.total_volume = stats.total_volume + volume;
    stats.average_execution_time = averaged as u64;
    stats.trade_count = new_count;
    stats.pnl = new_pnl as i64;
    stats.last_trade = now;
    Ok(())
}

/// Credits a completed stake transfer to the trader's staked balance.
///
/// The token transfer itself is an external collaborator: the caller
/// must have moved `amount` into the staking vault before recording it
/// here, and must treat an `Overflow` result as an abort of the whole
/// staking operation (no ledger mutation survives it).
pub fn stake_tokens(stats: &mut TraderStats, amount: u64) -> (r: Result<(), ErrorCode>)
    ensures
        r is Ok <==> old(stats).staked_amount + amount <= u64::MAX,
        r is Ok ==> *final(stats) == (TraderStats {
            staked_amount: (old(stats).staked_amount + amount) as u64,
            ..*old(stats)
        }),
        r is Err ==> *final(stats) == *old(stats) && r == Err::<(), ErrorCode>(ErrorCode::Overflow),
{
    if amount > u64::MAX - stats.staked_amount {
        return Err(ErrorCode::Overflow);
    }
    stats.staked_amount = stats.staked_amount + amount;
    Ok(())
}

/// The fee discount derived from a staked balance: one percent per 200
/// staked units, clamped at 50 percent.
pub open spec fn fee_discount_of(staked_amount: u64) -> u8 {
    if staked_amount / 200 >= 50 {
        50u8
    } else {
        (staked_amount / 200) as u8
    }
}

/// The statistics after a fee-discount recomputation: only the stored
/// discount changes.
pub open spec fn with_fee_discount(s: TraderStats) -> TraderStats {
    TraderStats { fee_discount: fee_discount_of(s.staked_amount), ..s }
}

/// Recomputes the stored fee discount from the staked balance.
///
/// Pure recomputation: no field other than `fee_discount` changes, so
/// repeating the call with an unchanged `staked_amount` always stores
/// the same value.
pub fn calculate_fee_discount(stats: &mut TraderStats)
    ensures
        *final(stats) == with_fee_discount(*old(stats)),
        final(stats).fee_discount <= 50,
{
    let scaled: u64 = stats.staked_amount / 200;
    if scaled >= 50 {
        stats.fee_discount = 50;
    } else {
        stats.fee_discount = scaled as u8;
    }
}

/// Recomputing the fee discount is idempotent: a second recomputation
/// on the resulting statistics changes nothing, and the stored discount
/// never exceeds 50 percent.
pub proof fn lemma_fee_discount_idempotent(s: TraderStats)
    ensures
        with_fee_discount(with_fee_discount(s)) == with_fee_discount(s),
        fee_discount_of(s.staked_amount) <= 50,
{
}

/// One submitted trade, as the statistics see it: its measurements and
/// the clock reading at submission.
#[derive(Clone, Copy, Debug, PartialEq, Eq, Structural)]
pub struct TradeEvent {
    pub volume: u64,
    pub execution_time: u64,
    pub pnl_delta: i64,
    pub at: i64,
}

/// Whether one event would be accepted against the given statistics.
pub open spec fn event_accepted(s: TraderStats, e: TradeEvent) -> bool {
    trade_accepted(s, e.volume, e.execution_time, e.pnl_delta, e.at)
}

/// The statistics after one submitted event: mutated when accepted,
/// untouched when rejected.
pub open spec fn apply_event(s: TraderStats, e: TradeEvent) -> TraderStats {
    if event_accepted(s, e) {
        trade_applied(s, e.volume, e.execution_time, e.pnl_delta, e.at)
    } else {
        s
    }
}

/// The statistics after a whole sequence of submitted events, applied
/// in order.
pub open spec fn apply_events(s: TraderStats, events: Seq<TradeEvent>) -> TraderStats
    decreases events.len(),
{
    if events.len() == 0 {
        s
    } else {
        apply_events(apply_event(s, events[0]), events.drop_first())
    }
}

/// How many of the submitted events are accepted, in order.
pub open spec fn accepted_count(s: TraderStats, events: Seq<TradeEvent>) -> int
    decreases events.len(),
{
    if events.len() == 0 {
        0
    } else {
        (if event_accepted(s, events[0]) {
            1int
        } else {
            0int
        }) + accepted_count(apply_event(s, events[0]), events.drop_first())
    }
}

/// The execution times of the accepted events, in submission order.
pub open spec fn accepted_times(s: TraderStats, events: Seq<TradeEvent>) -> Seq<u64>
    decreases events.len(),
{
    if events.len() == 0 {
        Seq::empty()
    } else {
        let rest = accepted_times(apply_event(s, events[0]), events.drop_first());
        if event_accepted(s, events[0]) {
            seq![events[0].execution_time] + rest
        } else {
            rest
        }
    }
}

/// The floor-divided running mean: starting from a stored mean over
/// `count` samples, folds each new sample in with an exact integer
/// floor division at every step.
pub open spec fn running_mean(mean: int, count: int, times: Seq<u64>) -> int
    decreases times.len(),
{
    if times.len() == 0 {
        mean
    } else {
        running_mean((mean * count + times[0]) / (count + 1), count + 1, times.drop_first())
    }
}

/// For every sequence of submitted trades, the stored trade count grows
/// by exactly the number of accepted trades: rejected submissions never
/// touch it.
pub proof fn lemma_trade_count_counts_accepted(s: TraderStats, events: Seq<TradeEvent>)
    ensures
        apply_events(s, events).trade_count == s.trade_count + accepted_count(s, events),
    decreases events.len(),
{
    if events.len() > 0 {
        lemma_trade_count_counts_accepted(apply_event(s, events[0]), events.drop_first());
    }
}

/// For every sequence of submitted trades, the stored average execution
/// time is the exact floor-divided running mean of the accepted
/// execution times, folded over the starting mean and count.
pub proof fn lemma_average_is_running_mean(s: TraderStats, events: Seq<TradeEvent>)
    ensures
        apply_events(s, events).average_execution_time == running_mean(
            s.average_execution_time as int,
            s.trade_count as int,
            accepted_times(s, events),
        ),
    decreases events.len(),
{
    if events.len() > 0 {
        let e = events[0];
        let s1 = apply_event(s, e);
        lemma_average_is_running_mean(s1, events.drop_first());
        if event_accepted(s, e) {
            let rest = accepted_times(s1, events.drop_first());
            let times = accepted_times(s, events);
            assert(times == seq![e.execution_time] + rest);
            assert(times[0] == e.execution_time);
            assert(times.drop_first() =~= rest);
        }
    }
}

} // verus!
