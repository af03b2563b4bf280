//! The status byte of a run: one bit per kind of finding.

use vstd::prelude::*;

verus! {

/// Bit 0: an underrun was detected.
pub const ERR_CONTAINS_UNDERRUN: u8 = 0b0001;

/// Bit 1: the stream holds too much silence.
pub const ERR_CONTAINS_SILENCE: u8 = 0b0010;

} // verus!
