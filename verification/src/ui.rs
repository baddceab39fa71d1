//! The game controller behind an interactive front end: the game state
//! and the decisions its screens and loops act on.

pub mod integration;

pub use integration::{GameController, GameResult, HumanAction};
