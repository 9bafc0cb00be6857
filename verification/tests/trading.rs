use t2e_leaderboard::errors::ErrorCode;
use t2e_leaderboard::trader::calculate_fee_discount;
use t2e_leaderboard::trader::record_trade;
use t2e_leaderboard::trader::stake_tokens;
use t2e_leaderboard::trader::TraderId;
use t2e_leaderboard::trader::TraderStats;

fn fresh_stats(key: u64) -> TraderStats {
    TraderStats {
        trader: TraderId { key },
        total_volume: 0,
        average_execution_time: 0,
        trade_count: 0,
        pnl: 0,
        staked_amount: 0,
        fee_discount: 0,
        last_trade: 0,
    }
}

#[test]
fn test_record_trade_updates_stats() {
    let mut stats = fresh_stats(1);
    let r = record_trade(&mut stats, 100, 50, 10, 1000);
    assert_eq!(r, Ok(()));
    assert_eq!(stats.total_volume, 100);
    assert_eq!(stats.average_execution_time, 50);
    assert_eq!(stats.trade_count, 1);
    assert_eq!(stats.pnl, 10);
    assert_eq!(stats.last_trade, 1000);
    assert_eq!(stats.staked_amount, 0);
    assert_eq!(stats.fee_discount, 0);
}

#[test]
fn test_record_trade_running_mean_is_exact() {
    let mut stats = fresh_stats(1);
    assert_eq!(record_trade(&mut stats, 10, 50, 0, 1000), Ok(()));
    assert_eq!(record_trade(&mut stats, 10, 30, 0, 1010), Ok(()));
    // (50 * 1 + 30) / 2 = 40
    assert_eq!(stats.average_execution_time, 40);
    assert_eq!(record_trade(&mut stats, 10, 25, 0, 1020), Ok(()));
    // (40 * 2 + 25) / 3 = 35 by floor division
    assert_eq!(stats.average_execution_time, 35);
    assert_eq!(stats.trade_count, 3);
    assert_eq!(stats.total_volume, 30);
}

#[test]
fn test_trade_count_counts_only_accepted() {
    let mut stats = fresh_stats(1);
    assert_eq!(record_trade(&mut stats, 1, 1, 0, 1000), Ok(()));
    assert!(record_trade(&mut stats, 1, 1, 0, 1001).is_err());
    assert!(record_trade(&mut stats, 1, 1, 0, 1005).is_err());
    assert_eq!(record_trade(&mut stats, 1, 1, 0, 1010), Ok(()));
    assert_eq!(stats.trade_count, 2);
}

#[test]
fn test_spam_gate_rejects_under_minimum_gap() {
    let mut stats = fresh_stats(1);
    assert_eq!(record_trade(&mut stats, 100, 50, 10, 1000), Ok(()));
    let before = stats;
    let r = record_trade(&mut stats, 200, 60, 20, 1009);
    assert_eq!(r, Err(ErrorCode::TradeSpamDetected));
    assert_eq!(stats, before);
}

#[test]
fn test_spam_gate_boundary_accepts() {
    let mut stats = fresh_stats(1);
    assert_eq!(record_trade(&mut stats, 100, 50, 10, 1000), Ok(()));
    assert_eq!(record_trade(&mut stats, 200, 60, 20, 1010), Ok(()));
    assert_eq!(stats.trade_count, 2);
}

#[test]
fn test_first_trade_is_never_gated() {
    let mut stats = fresh_stats(1);
    stats.last_trade = 5000;
    // The minimum gap is only enforced once a trade has been accepted.
    assert_eq!(record_trade(&mut stats, 1, 1, 0, 5001), Ok(()));
}

#[test]
fn test_record_trade_volume_overflow_mutates_nothing() {
    let mut stats = fresh_stats(1);
    stats.total_volume = u64::MAX;
    let before = stats;
    let r = record_trade(&mut stats, 1, 1, 0, 1000);
    assert_eq!(r, Err(ErrorCode::Overflow));
    assert_eq!(stats, before);
}

#[test]
fn test_record_trade_pnl_overflow_mutates_nothing() {
    let mut stats = fresh_stats(1);
    stats.pnl = i64::MIN;
    let before = stats;
    let r = record_trade(&mut stats, 1, 1, -1, 1000);
    assert_eq!(r, Err(ErrorCode::Overflow));
    assert_eq!(stats, before);
}

#[test]
fn test_pnl_accumulates_and_goes_negative() {
    let mut stats = fresh_stats(1);
    assert_eq!(record_trade(&mut stats, 1, 1, 5, 1000), Ok(()));
    assert_eq!(record_trade(&mut stats, 1, 1, -12, 1010), Ok(()));
    assert_eq!(stats.pnl, -7);
}

#[test]
fn test_stake_tokens_accumulates() {
    let mut stats = fresh_stats(1);
    assert_eq!(stake_tokens(&mut stats, 700), Ok(()));
    assert_eq!(stake_tokens(&mut stats, 300), Ok(()));
    assert_eq!(stats.staked_amount, 1000);
}

#[test]
fn test_stake_tokens_overflow_mutates_nothing() {
    let mut stats = fresh_stats(1);
    stats.staked_amount = u64::MAX - 1;
    let before = stats;
    assert_eq!(stake_tokens(&mut stats, 2), Err(ErrorCode::Overflow));
    assert_eq!(stats, before);
}

#[test]
fn test_fee_discount_zero_without_stake() {
    let mut stats = fresh_stats(1);
    calculate_fee_discount(&mut stats);
    assert_eq!(stats.fee_discount, 0);
}

#[test]
fn test_fee_discount_scales_with_stake() {
    let mut stats = fresh_stats(1);
    stats.staked_amount = 1900;
    calculate_fee_discount(&mut stats);
    assert_eq!(stats.fee_discount, 9);
}

#[test]
fn test_fee_discount_clamps_at_fifty() {
    let mut stats = fresh_stats(1);
    stats.staked_amount = 10000;
    calculate_fee_discount(&mut stats);
    assert_eq!(stats.fee_discount, 50);
    stats.staked_amount = u64::MAX;
    calculate_fee_discount(&mut stats);
    assert_eq!(stats.fee_discount, 50);
}

#[test]
fn test_fee_discount_is_idempotent() {
    let mut stats = fresh_stats(1);
    stats.staked_amount = 4242;
    calculate_fee_discount(&mut stats);
    let first = stats;
    calculate_fee_discount(&mut stats);
    assert_eq!(stats, first);
}
