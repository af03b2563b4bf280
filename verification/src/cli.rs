//! The options of one analysis run.

use vstd::prelude::*;
use crate::level::Level;

verus! {

/// What to analyse and how. Durations are given in samples and levels as
/// [`Level`]s, so that every option is an exact value.
#[derive(Debug)]
pub struct Cli {
    /// The file to analyse.
    pub input: String,
    /// Detect underruns.
    pub underrun: bool,
    /// Shortest zero run, in samples, that counts as an underrun.
    pub samples: usize,
    /// Detect silence.
    pub silence: bool,
    /// Silence threshold (LUFS-S): a window below it is silent.
    pub lufs: Level,
    /// Share of silence, in percent of the stream, from which the run fails.
    pub silence_percentage: u16,
    /// No progress bar.
    pub no_progress: bool,
    /// Debug output.
    pub debug: bool,
    /// No output at all.
    pub silent: bool,
    /// Where to write the report.
    pub json: Option<String>,
    /// Window of the loudness measurement, in interleaved samples: sample
    /// rate times channel count times seconds, rounded down.
    pub window_size: usize,
    /// Track the loudness of every window in the report.
    pub loudness: bool,
    /// Write the raw spectrogram.
    pub fft: bool,
    /// Where to write the raw spectrogram.
    pub fft_file: Option<String>,
    /// Where to write the false-colour picture of the spectrogram.
    pub fft_vis: Option<String>,
    /// Size of the spectral transform, in samples.
    pub fft_bins: usize,
    /// Transform window by window as the samples arrive, without overlap,
    /// in place of one overlapped transform of the whole signal.
    pub fft_framewise: bool,
    /// Write the level map.
    pub peaks: bool,
    /// Where to write the level map.
    pub peaks_file: Option<String>,
}

/// What the sample source says of the stream before the first frame.
#[derive(Clone, Copy, Debug, PartialEq, Eq, Structural)]
pub struct StreamInfo {
    /// Samples per frame.
    pub channels: u16,
    /// Frames per second.
    pub sample_rate: i32,
    /// Number of frames of the whole stream.
    pub num_frames: usize,
}

} // verus!
