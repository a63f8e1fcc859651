//! The puzzle's vocabulary: codes, constraints and the cards that offer them.

pub mod card;
pub mod code;
pub mod constraint;
