//! A peer-to-peer betting pool.
//!
//! Any account may open a match by escrowing a deposit and naming two teams
//! and a time window; other accounts place wagers predicting an outcome
//! before the match starts; after the window closes the settlement authority
//! records the outcome; the match creator then triggers a payout that
//! redistributes the pooled wager amounts proportionally to winners and
//! returns the original deposit.
//!
//! The engine is purely reactive: each operation receives the calling
//! account, the current block number and the transferred value from the
//! host, validates its preconditions, updates the keyed store of matches,
//! and hands back the event record or the list of transfers for the host
//! to carry out.

pub mod engine;
pub mod laws;
pub mod payout;
pub mod types;
