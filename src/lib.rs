//! Ordered copying of audio album trees: the walk that numbers the tracks,
//! the count that must agree with it, and the naming of what is copied.

pub mod text;
pub mod human;
pub mod tree;
pub mod classify;
pub mod naming;
pub mod initials;
pub mod spinner;
pub mod tagging;
pub mod numbers;
pub mod run;
