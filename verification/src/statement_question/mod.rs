//! Vectors of the questions that a statement answers.

pub mod ops;
