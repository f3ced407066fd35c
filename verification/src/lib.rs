//! The counting core of a spirograph renderer.
//!
//! A roulette curve is drawn by sampling a parametric formula. Everything the
//! renderer has to decide before it evaluates a sine or a cosine is decided
//! here, in exact integer arithmetic: whether a set of parameters is valid,
//! how many revolutions a curve is given before it is taken to have closed,
//! how many samples a trace has, and how the traces of stacked layers are
//! lined up index by index.
//!
//! Real numbers enter and leave as IEEE 754 double-precision bit patterns
//! ([`binary64::Binary64`]); the library reads them exactly and never rounds.

pub mod binary64;
pub mod compose;
pub mod error;
pub mod params;
pub mod path;
pub mod resolver;
pub mod rosette;
