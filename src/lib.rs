//! A counter for the cards of one 54-card deck, packed into a single `u64`.
//!
//! Each rank (Ace to King, identities 1 to 13) owns a four-bit slot that holds
//! its count in thermometer form; each of the two jokers (identities 14 and 15)
//! owns one bit above the rank slots.
pub mod bits;
pub mod counts;
pub mod laws;
pub mod parse;
pub mod poker;
pub mod render;

pub use poker::Poker;
