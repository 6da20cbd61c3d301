//! A single round of blackjack against a dealer that draws to 17.
pub mod card;
pub mod deck;
pub mod game;
