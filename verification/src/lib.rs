//! Solver for a three-digit deduction puzzle: enumerates the codes that a
//! selection of constraint cards pins down and builds a decision tree that
//! tells which constraint to test next.

pub mod adaptors;
pub mod guess_sequence;
pub mod guess_sequence_solver;
pub mod scenario;
pub mod selection;
pub mod solver;
pub mod text;
