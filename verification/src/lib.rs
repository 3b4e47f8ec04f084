//! Verified core of a keyboard-driven tone generator whose pitch glides.
//!
//! Every quantity is an exact integer: a frequency is a count of
//! micro-hertz, a glide ratio a count of millionths, and a phase a whole
//! number of steps out of the steps that make one turn. The caller turns a
//! phase into a sound sample; everything that decides which phase comes next
//! is proved here.

pub mod channel;
pub mod config;
pub mod decimal;
pub mod glide;
pub mod notes;
pub mod render;
pub mod sample;
pub mod units;
pub mod wave;
