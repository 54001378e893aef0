//! One-dimensional binary elementary cellular automata.
//!
//! A row of cells is advanced one generation at a time under an 8-bit rule
//! and a boundary policy, and the whole deterministic transition relation
//! over the rows of a fixed length can be assembled as a sparse matrix.
//!
//! Rows are plain sequences of `u8` cells; a cell of a well-formed row is
//! `0` or `1`. Every contract is stated over `Seq<u8>` views of rows.

pub mod automaton;
pub mod boundary;
pub mod error;
pub mod rotation;
pub mod row;
pub mod rule;
pub mod state_index;
pub mod transition;

pub use automaton::CellularAutomaton;
pub use boundary::Boundary;
pub use error::AutomatonError;
pub use transition::{TransitionMatrix, MAX_SIZE};
