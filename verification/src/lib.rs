//! Core of an interactive masking-noise generator.
//!
//! A small declarative language describes a composition of tone and noise
//! sources; this crate lexes and parses that language into a `Pipeline`,
//! compiles the pipeline into a fixed `SignalGraph`, and provides the
//! decision logic of the realtime engine: phase selection by elapsed time,
//! interactive loudness control, and interleaved buffer fan-out.
//! Device I/O and the floating-point sample math live outside this crate.

pub mod control;
pub mod lexer;
pub mod parser;
pub mod graph;
pub mod engine;
pub mod output;
