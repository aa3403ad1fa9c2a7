//! Identity of a phase: its letter and its colour.

pub mod colors;
pub mod letter;
