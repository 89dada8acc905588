//! A single-player blackjack round engine.
//!
//! The crate tracks a shuffled deck, the player's hand, and the round's
//! outcome as the player issues actions. Hand valuation resolves the
//! two-valued ace by folding every card's possible values into the set of
//! totals that stay at or under 21; the round state machine consumes parsed
//! actions and deck draws to decide whether the round continues, is won, or
//! is lost. Presentation and input belong to the surrounding program, not to
//! this crate.

pub mod card;
pub mod deck;
pub mod hand;
pub mod round;
