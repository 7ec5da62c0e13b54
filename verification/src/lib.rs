//! Turns a compact textual music notation into the plan of a single-channel
//! waveform: a sheet is parsed into a score, every note of the score becomes an
//! enveloped sine tone, and the tones are placed on one timeline.
//!
//! All arithmetic in this crate is exact. Frequencies are held as integers in
//! units of ten microhertz, durations as sample counts and envelope gains as
//! ratios, so that the only step left to the caller is to evaluate the sine
//! and to add the samples up.

pub mod instrument;
pub mod notation;
pub mod parse;
pub mod pitch;
pub mod sheet;
pub mod tone;
