//! A standard 52-card playing deck: building it in canonical order, shuffling
//! it by random pairwise swaps, rendering it as text and comparing decks.

pub mod card;
pub mod deck;
mod random;

pub use card::{Card, Suit};
pub use deck::Deck;
