//! Slow-scan television codec.
//!
//! Audio is handled here in an integer model: frequencies are in millihertz,
//! durations in nanoseconds and phases in units of 2^-32 of a turn. The
//! receiver turns a stream of wrapped phases into instantaneous frequencies,
//! finds the leader and the VIS code, and slices the lines of the picture out
//! of the frequency stream. The transmitter turns a picture into a list of
//! tones and the tones into a phase-continuous stream of phases.
pub mod agreement;
pub mod arith;
pub mod color;
pub mod discriminator;
pub mod encoder;
pub mod header;
pub mod layout;
pub mod line;
pub mod mode;
pub mod sample_generator;
pub mod sstv_decoder;
pub mod sstv_image;
pub mod vis;

use vstd::prelude::*;

verus! {

} // verus!
