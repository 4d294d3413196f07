//! Core of a practice-oriented audio player: a command-driven playback
//! engine that feeds a pull-based time stretcher, and a multi-resolution
//! waveform peak cache for cheap rendering at any zoom level.
//!
//! Sample values are fixed-point: `types::SAMPLE_UNIT` stands for full
//! scale, so a sample is an `i32` in `[-SAMPLE_UNIT, SAMPLE_UNIT]`.
//! Times handed to the engine are milliseconds; positions it reports are
//! frame indices.

pub mod engine;
pub mod types;
pub mod waveform_cache;
