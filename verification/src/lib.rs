//! Authoritative state machine for a multi-party mental-poker game.
//!
//! The library models the whole game lifecycle — lobby recruitment, verified
//! shuffling, reveal-token collection, blinds, betting and pot settlement —
//! as a deterministic state-transition function over plain data.  The
//! cryptographic collaborator (proof verification, unmasking) and the hand
//! evaluator are external: their verdicts enter each transition as plain
//! values, and every decision taken on those verdicts is verified.

pub mod betting;
pub mod cards;
pub mod chips;
pub mod cycle;
pub mod lobby;
pub mod registry;
pub mod rng;
pub mod showdown;
pub mod tokens;
pub mod state;
pub mod types;
