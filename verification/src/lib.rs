//! Verified core of the planet debug viewer: input-field validation,
//! panel readout formatting, command-line scanning and the small view
//! state that the windowed shell routes input through.

pub mod text;
pub mod params;
pub mod stats;
pub mod timestamp;
pub mod view;
pub mod cli;
