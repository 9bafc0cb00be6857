//! A competitive trading leaderboard: per-trader statistics with anti-spam
//! gating, a composite-score ranking, halving-based proportional reward
//! distribution, a staking ledger with a fee discount, and an append-only
//! ranking history.

pub mod errors;
pub mod history;
pub mod ranking;
pub mod rewards;
pub mod trader;
