//! Correctly spelled pitch arithmetic: intervals, notes and diatonic scales.
//!
//! A note is moved by an interval along two independent counters: the letter
//! name advances by the interval's diatonic steps, and the accidental is then
//! set so that the chromatic distance equals the interval's size in semitones.

pub mod intervals;
pub mod notes;
pub mod scales;
