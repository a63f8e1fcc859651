//! The adaptive decision tree: which constraint to test next, for every run
//! of answers so far.

pub mod decision;
pub mod decision_tree;
pub mod guess;
pub mod laws;
pub mod solver;

pub use decision::{Branch, Decision};
pub use decision_tree::DecisionTree;
pub use guess::Guess;
