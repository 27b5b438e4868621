//! An elementary cellular automaton engine: a one-dimensional, two-state,
//! nearest-neighbor automaton under Wolfram's 8-bit rule numbering, with a
//! configurable ring (wrap) or dead-edge boundary policy, plus the pure
//! decision logic of the command-line driver (line parsing and initial-state
//! decoding).

pub mod modular;
pub mod game;
pub mod driver;
