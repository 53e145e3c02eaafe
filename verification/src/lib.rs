//! Poker-training library for no-limit Texas Hold'em.
//!
//! The kernel is the "nuts" evaluator: given five community cards, find the
//! strongest five-card hand that any two hole cards can make together with
//! them, and return both the hand category and a concrete winning selection.
//! Around it sit small training helpers: pot arithmetic, a pre-flop quiz
//! context, a player stub and rank/suit presentation utilities.

pub mod card;
pub mod eval;
pub mod nuts;
pub mod player;
pub mod pot;
pub mod preflop;
pub mod strutil;
pub mod utils;
