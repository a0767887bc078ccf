//! A console-blackjack core: a weighted card pool that is sampled without
//! replacement, hand scoring with the soft-ace rule, a dealer that stands at
//! seventeen, and the payout resolution of a round.

pub mod dealer;
pub mod deck;
pub mod engine;
pub mod hand;
pub mod source;
