//! A verified Minesweeper core: the board with its mines and adjacency
//! counts, the flood-fill reveal, the state machine that turns input
//! events into moves on the board, and the text that draws it all on a
//! terminal.

pub mod args;
pub mod cell;
pub mod count;
pub mod error;
pub mod field;
pub mod flood;
pub mod game;
pub mod mines;
pub mod output;
