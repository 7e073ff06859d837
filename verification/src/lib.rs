//! Game rules of the Paws terminal games, with their contracts.
pub mod breakout;
pub mod climber;
pub mod deck;
pub mod jump_high;
pub mod keys;
pub mod lang;
pub mod layout;
pub mod learn;
pub mod pinball;
pub mod poetry;
pub mod rng;
pub mod snake;
pub mod space_invaders;
pub mod tetris;
pub mod two_zero_four_eight;
pub mod tint;
pub mod vibe;
