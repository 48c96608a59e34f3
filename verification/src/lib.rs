//! Trip-consistency constraint system for GPS traces over a 128-bit STARK field.

pub mod air;
pub mod field;
pub mod fixed;
pub mod gps;
pub mod laws;
pub mod normalize;
pub mod options;
pub mod prover;
pub mod segment;
pub mod trace;
pub mod trip;
pub mod utils;
pub mod verdict;
pub mod xml;
