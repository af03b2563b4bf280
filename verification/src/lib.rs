//! Single-pass quality analysis of multichannel PCM audio.
//!
//! A stream is a finite sequence of frames, one integer sample per channel.
//! Independent detectors consume every frame exactly once, in order, and at
//! the end of the stream report what they found: silent passages, runs of
//! stuck-at-zero samples, a spectrogram, a level map.

pub mod analysers;
pub mod cli;
pub mod json;
pub mod level;
pub mod paths;
pub mod pipeline;
pub mod segment;
pub mod status;
