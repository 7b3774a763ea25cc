//! A Minesweeper game engine: board model, mine layout, adjacency counts,
//! flood-fill reveal, flag toggling and the event-driven game driver.

pub mod board;
pub mod cell;
pub mod game;
pub mod grid;
pub mod laws;
pub mod render;
pub mod terminal;
