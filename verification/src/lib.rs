//! Integer core of a stator winding simulator: which phase sits in which
//! slot, how the conductors of a slot are packed and coiled, how a machine
//! configuration is kept valid, and the index topology of the meshes that
//! draw it.

pub mod config;
pub mod winding;
pub mod ui;
pub mod font;
pub mod i18n;
pub mod phase;
pub mod vectors;
pub mod winding_scheme;
pub mod cli;
pub mod mesh;
