//! The error conditions surfaced by the leaderboard operations.

use vstd::prelude::*;

verus! {

/// Every failure of an operation is reported as one of these conditions.
/// No operation recovers internally: a failing operation commits none of
/// its mutations and hands the condition to the caller.
#[derive(Clone, Copy, Debug, PartialEq, Eq, Structural)]
pub enum ErrorCode {
    /// A checked arithmetic operation would wrap.
    Overflow,
    /// A ranking refresh was attempted before the minimum interval elapsed.
    UpdateTooSoon,
    /// A ranked trader has no resolvable payout destination.
    TraderTokenAccountNotFound,
    /// A trade arrived before the per-trader minimum gap elapsed.
    TradeSpamDetected,
    /// The emergency circuit breaker is engaged.
    EmergencyPaused,
    /// Reward distribution was attempted with a zero total score.
    NoValidScores,
}

} // verus!
