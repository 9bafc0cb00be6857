use t2e_leaderboard::errors::ErrorCode;
use t2e_leaderboard::history::snapshot_leaderboard;
use t2e_leaderboard::history::LeaderboardHistory;
use t2e_leaderboard::ranking::admin_pause_rewards;
use t2e_leaderboard::ranking::initialize;
use t2e_leaderboard::ranking::update_leaderboard;
use t2e_leaderboard::ranking::Leaderboard;
use t2e_leaderboard::ranking::TraderStatsInput;
use t2e_leaderboard::trader::TraderId;

fn input(key: u64, volume: u64, avg_time: u64, pnl: i64, staked: u64) -> TraderStatsInput {
    TraderStatsInput {
        trader: TraderId { key },
        total_volume: volume,
        average_execution_time: avg_time,
        pnl,
        staked_amount: staked,
    }
}

fn keys(leaderboard: &Leaderboard) -> Vec<u64> {
    leaderboard.traders.iter().map(|t| t.key).collect()
}

#[test]
fn test_initialize_is_empty_and_unpaused() {
    let leaderboard = initialize(42);
    assert!(leaderboard.traders.is_empty());
    assert!(leaderboard.ranking_scores.is_empty());
    assert_eq!(leaderboard.last_update, 42);
    assert!(!leaderboard.emergency_pause);
}

#[test]
fn test_update_too_soon_rejected_and_unchanged() {
    let mut leaderboard = initialize(0);
    let batch = vec![input(1, 100, 0, 0, 0)];
    let r = update_leaderboard(&mut leaderboard, batch.clone(), 599);
    assert_eq!(r, Err(ErrorCode::UpdateTooSoon));
    assert!(leaderboard.traders.is_empty());
    assert_eq!(leaderboard.last_update, 0);
    // At exactly the minimum interval the update goes through.
    let r = update_leaderboard(&mut leaderboard, batch, 600);
    assert_eq!(r, Ok(()));
    assert_eq!(leaderboard.last_update, 600);
    assert_eq!(keys(&leaderboard), vec![1]);
}

#[test]
fn test_second_update_within_interval_rejected() {
    let mut leaderboard = initialize(0);
    assert_eq!(update_leaderboard(&mut leaderboard, vec![input(1, 100, 0, 0, 0)], 600), Ok(()));
    let before_traders = keys(&leaderboard);
    let r = update_leaderboard(&mut leaderboard, vec![input(2, 900, 0, 0, 0)], 1100);
    assert_eq!(r, Err(ErrorCode::UpdateTooSoon));
    assert_eq!(keys(&leaderboard), before_traders);
    assert_eq!(leaderboard.last_update, 600);
}

#[test]
fn test_ranking_sorts_descending_with_stable_ties() {
    let mut leaderboard = initialize(0);
    // Scores: A = 100, B = 50, C = 50, D = 0.
    let batch = vec![
        input(1, 100, 0, 0, 0),
        input(2, 50, 0, 0, 0),
        input(3, 50, 0, 0, 0),
        input(4, 0, 0, 0, 0),
    ];
    assert_eq!(update_leaderboard(&mut leaderboard, batch, 600), Ok(()));
    // Stable tie-break: B stays ahead of C because it came first.
    assert_eq!(keys(&leaderboard), vec![1, 2, 3, 4]);
    assert_eq!(leaderboard.ranking_scores, vec![100, 50, 50, 0]);
}

#[test]
fn test_ranking_tie_break_follows_input_order() {
    let mut leaderboard = initialize(0);
    // Same scores, reversed input order: the tied pair swaps too.
    let batch = vec![
        input(4, 0, 0, 0, 0),
        input(3, 50, 0, 0, 0),
        input(2, 50, 0, 0, 0),
        input(1, 100, 0, 0, 0),
    ];
    assert_eq!(update_leaderboard(&mut leaderboard, batch, 600), Ok(()));
    assert_eq!(keys(&leaderboard), vec![1, 3, 2, 4]);
    assert_eq!(leaderboard.ranking_scores, vec![100, 50, 50, 0]);
}

#[test]
fn test_score_combines_volume_pnl_and_stake() {
    let mut leaderboard = initialize(0);
    // base = 1000 / (9 + 1) = 100, profit bonus = 20, stake bonus = 5.
    let batch = vec![input(7, 1000, 9, 20, 5999)];
    assert_eq!(update_leaderboard(&mut leaderboard, batch, 600), Ok(()));
    assert_eq!(leaderboard.ranking_scores, vec![125]);
}

#[test]
fn test_score_ignores_negative_pnl() {
    let mut leaderboard = initialize(0);
    let batch = vec![input(7, 1000, 9, -500, 0)];
    assert_eq!(update_leaderboard(&mut leaderboard, batch, 600), Ok(()));
    assert_eq!(leaderboard.ranking_scores, vec![100]);
}

#[test]
fn test_score_floor_division() {
    let mut leaderboard = initialize(0);
    // base = 999 / (3 + 1) = 249 by floor division; stake 999 adds nothing.
    let batch = vec![input(7, 999, 3, 0, 999)];
    assert_eq!(update_leaderboard(&mut leaderboard, batch, 600), Ok(()));
    assert_eq!(leaderboard.ranking_scores, vec![249]);
}

#[test]
fn test_update_replaces_ranking_wholesale() {
    let mut leaderboard = initialize(0);
    assert_eq!(
        update_leaderboard(&mut leaderboard, vec![input(1, 10, 0, 0, 0), input(2, 5, 0, 0, 0)], 600),
        Ok(())
    );
    assert_eq!(update_leaderboard(&mut leaderboard, vec![input(3, 77, 0, 0, 0)], 1200), Ok(()));
    assert_eq!(keys(&leaderboard), vec![3]);
    assert_eq!(leaderboard.ranking_scores, vec![77]);
    assert_eq!(leaderboard.traders.len(), leaderboard.ranking_scores.len());
}

#[test]
fn test_update_with_empty_batch_clears_ranking() {
    let mut leaderboard = initialize(0);
    assert_eq!(update_leaderboard(&mut leaderboard, vec![input(1, 10, 0, 0, 0)], 600), Ok(()));
    assert_eq!(update_leaderboard(&mut leaderboard, vec![], 1200), Ok(()));
    assert!(leaderboard.traders.is_empty());
    assert!(leaderboard.ranking_scores.is_empty());
    assert_eq!(leaderboard.last_update, 1200);
}

#[test]
fn test_admin_pause_toggles_only_the_flag() {
    let mut leaderboard = initialize(5);
    admin_pause_rewards(&mut leaderboard, true);
    assert!(leaderboard.emergency_pause);
    assert_eq!(leaderboard.last_update, 5);
    admin_pause_rewards(&mut leaderboard, true);
    assert!(leaderboard.emergency_pause);
    admin_pause_rewards(&mut leaderboard, false);
    assert!(!leaderboard.emergency_pause);
}

#[test]
fn test_snapshot_appends_timestamped_copy() {
    let mut leaderboard = initialize(0);
    assert_eq!(
        update_leaderboard(&mut leaderboard, vec![input(1, 10, 0, 0, 0), input(2, 5, 0, 0, 0)], 600),
        Ok(())
    );
    let mut history = LeaderboardHistory::new();
    snapshot_leaderboard(&mut history, &leaderboard, 700);
    assert_eq!(update_leaderboard(&mut leaderboard, vec![input(3, 9, 0, 0, 0)], 1300), Ok(()));
    snapshot_leaderboard(&mut history, &leaderboard, 1400);
    assert_eq!(history.past_rankings.len(), 2);
    assert_eq!(history.past_rankings[0].0, 700);
    assert_eq!(
        history.past_rankings[0].1,
        vec![TraderId { key: 1 }, TraderId { key: 2 }]
    );
    assert_eq!(history.past_rankings[1].0, 1400);
    assert_eq!(history.past_rankings[1].1, vec![TraderId { key: 3 }]);
}
