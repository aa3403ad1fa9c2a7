//! The MMF arrows.

pub mod mmf;
