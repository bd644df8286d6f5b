//! The fixed sizes of the detector.

use vstd::prelude::*;

verus! {

/// Samples per second of the audio stream (mono).
pub const SAMPLE_RATE: u32 = 16000;

/// Samples in one analysis window (25 ms).
pub const WINDOW_SIZE: usize = 400;

/// Samples by which the analysis window moves from one frame to the next (10 ms).
pub const HOP_SIZE: usize = 160;

/// Points of the Fourier transform: a power of two that a window fits in.
pub const FFT_SIZE: usize = 512;

/// Bins of the power spectrum of a real signal: the lower half and the Nyquist bin.
pub const SPECTRUM_SIZE: usize = FFT_SIZE / 2 + 1;

/// Mel bands of one spectral frame.
pub const N_MELS: usize = 32;

/// Frames that the classifier sees at once.
pub const EMBEDDING_SIZE: usize = 76;

/// Values of one classifier input: every band of every frame of the context.
pub const TENSOR_LEN: usize = EMBEDDING_SIZE * N_MELS;

} // verus!
