//! Render a short piece of decoded audio as a longer, looped waveform.
//!
//! The pipeline accumulates decoded PCM frames into a single interleaved
//! buffer, tapers both ends of the buffer with linear fade envelopes so the
//! loop seam does not click, and then fills a target sample count by
//! repeating the faded buffer, truncating the final repetition.

pub mod decode;
pub mod fade;
pub mod looper;
pub mod pipeline;
pub mod sample_math;
