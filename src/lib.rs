//! Small terminal games as a verified library: a minesweeper field with flood-fill reveal,
//! chording and first-click safety, the cursor and key bindings of its interface, the play
//! loop's decisions, Conway's Game of Life and Langton's ant.

pub mod board;
mod counting;
pub mod game;
pub mod gameoflife;
pub mod grid;
pub mod langton;
pub mod minefield;
pub mod mineui;
pub mod point;
mod random;
