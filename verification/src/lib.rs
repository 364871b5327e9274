//! Scoring engine for a single round of a card-combination game.
//!
//! A round consists of the cards played, the cards still held in hand, and a
//! sequence of passive joker cards.  The library classifies the strongest
//! combination formable from the played cards, then folds per-card and
//! per-joker effects onto an accumulating (chips, mult) pair.  All arithmetic
//! is exact: chips are integers and the multiplier is a dyadic rational
//! `num / 2^shift`, so every effect (integer additions and factors of 2, 3 and
//! 3/2) is represented without rounding.

pub mod cards;
pub mod cli;
pub mod hands;
pub mod helpers;
pub mod jokers;
pub mod laws;
pub mod modifiers;
pub mod scoring;
pub mod state;
