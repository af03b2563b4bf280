//! The loudness meter: the EBU R128 implementation of the `ebur128` crate.
//!
//! Nothing here is proved. Each function hands its arguments to one function
//! of that crate and its contract states what the crate's source shows of
//! the result. A loudness comes back as the bits of the binary64 number
//! that the meter computed.

use vstd::prelude::*;
use ebur128::EbuR128;
use ebur128::Mode;

verus! {

/// The meter of `ebur128`, opaque to the proofs.
#[verifier::external_type_specification]
#[verifier::external_body]
pub struct ExEbuR128(EbuR128);

/// The error of `ebur128`, opaque to the proofs.
#[verifier::external_type_specification]
#[verifier::external_body]
pub struct ExMeterError(ebur128::Error);

/// Largest sample rate that the meter takes.
pub const MAX_RATE: u32 = 2822400;

/// Largest channel count that the meter takes.
pub const MAX_CHANNELS: u32 = 64;

/// The channel counts and sample rates for which a meter can be made.
pub open spec fn meter_accepts(channels: u32, rate: u32) -> bool {
    &&& 1 <= channels <= MAX_CHANNELS
    &&& 16 <= rate <= MAX_RATE
    &&& rate * 3000 <= usize::MAX
}

/// `EbuR128::new` with the modes for short-term and integrated loudness.
///
/// It checks the channel count and the rate against its limits and sizes
/// a buffer of three seconds of audio with checked arithmetic; it succeeds
/// exactly where those checks pass.
#[verifier::external_body]
pub(crate) fn new_meter(channels: u32, rate: u32) -> (r: Result<EbuR128, ebur128::Error>)
    ensures
        r is Ok <==> meter_accepts(channels, rate),
{
    EbuR128::new(channels, rate, Mode::S | Mode::I)
}

/// `EbuR128::reset`: forgets all audio taken so far.
#[verifier::external_body]
pub(crate) fn meter_reset(meter: &mut EbuR128) {
    meter.reset()
}

/// `EbuR128::add_frames_i32`: takes a block of interleaved samples and
/// says whether the meter took it. It refuses a block that is no whole
/// number of frames; nothing is claimed of when it takes one.
#[verifier::external_body]
pub(crate) fn meter_add_frames(meter: &mut EbuR128, frames: &[i32]) -> (taken: bool) {
    match meter.add_frames_i32(frames) {
        Ok(()) => true,
        Err(_) => false,
    }
}

/// `EbuR128::loudness_shortterm`: the loudness of the last three seconds
/// in LUFS, or `None` where the meter cannot tell. Nothing is claimed of
/// the value.
#[verifier::external_body]
pub(crate) fn meter_shortterm(meter: &EbuR128) -> (r: Option<u64>) {
    match meter.loudness_shortterm() {
        Ok(lufs) => Some(lufs.to_bits()),
        Err(_) => None,
    }
}

/// `EbuR128::loudness_global`: the integrated loudness of all audio taken
/// since the last reset in LUFS, or `None` where the meter cannot tell.
/// Nothing is claimed of the value.
#[verifier::external_body]
pub(crate) fn meter_global(meter: &EbuR128) -> (r: Option<u64>) {
    match meter.loudness_global() {
        Ok(lufs) => Some(lufs.to_bits()),
        Err(_) => None,
    }
}

} // verus!
