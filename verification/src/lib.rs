//! The streaming core of a wakeword detector.
//!
//! Audio arrives in chunks of any size. The engine buffers it, cuts it into
//! overlapping analysis windows, keeps the spectral frames of the most recent windows
//! as the context of a classifier, and reports for each call whether the classifier's
//! score exceeded one half for one of the windows that the call consumed.
//!
//! Samples, spectral values and scores are single-precision numbers, held as their
//! bit patterns (`u32`). The engine computes no spectrum and runs no classifier: its
//! caller brings both. `WakeWordEngine::detect` takes them as two functions and makes
//! a whole call. `WakeWordEngine::begin` and `WakeWordEngine::resume` make the same
//! call one step at a time, for a caller who cannot hand its work over as a function.
//!
//! - `params`: the fixed sizes.
//! - `accumulator`: the buffer of audio that waits to be analysed.
//! - `context`: spectral frames, the rolling context, and the classifier input.
//! - `policy`: when a score counts as a detection.
//! - `engine`: the engine and its steps.
//! - `protocol`: whole calls made of steps.
//! - `stream`: what a call does as a whole, and what holds of every call.

pub mod accumulator;
pub mod context;
pub mod engine;
pub mod params;
pub mod policy;
pub mod protocol;
pub mod stream;

pub use accumulator::SampleBuffer;
pub use context::{FeatureContext, SpectralFrame};
pub use engine::{Action, EngineError, Event, Phase, WakeWordEngine};
