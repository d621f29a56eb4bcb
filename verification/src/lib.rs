//! Arithmetic circuits for two small relations, a bounded linear recurrence
//! and a grid-sum check, together with the table model they are laid out on
//! and a local check that replays a finished layout without any cryptography.

pub mod field;
pub mod plonk;
pub mod circuit;
pub mod dev;
pub mod addition;
pub mod fibonacci;
pub mod sudoku;
