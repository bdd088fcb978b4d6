//! A minesweeper engine: board generation under first-click constraints and
//! the reveal / flag state machine, with every rule stated as a contract.

pub mod tile;
pub mod grid;
pub mod cascade;
pub mod game;
pub mod rng;
pub mod generate;
pub mod construct;
pub mod binding;
pub mod laws;
