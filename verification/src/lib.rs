//! Simulated analog-video degradation for raw pixel frames.
//!
//! The crate holds the core pixel-transform engine of a VCR-aging video
//! filter: a stateful field of vertical scratch artifacts, a color-aging
//! pass driven by a persistent age accumulator, a horizontal noise bander,
//! and the per-frame dispatcher that applies them in sequence to a
//! BGR-padded pixel buffer. A secondary grayscale/noise pixel filter shares
//! the buffer conventions. Buffer acquisition, pipeline lifecycle and
//! property plumbing are the caller's business: the engine works on plain
//! byte vectors with a known width, height and row stride.

pub mod aging;
pub mod config;
pub mod frame;
mod rng;
pub mod noise;
pub mod scratch;
pub mod tvfilter;

pub use config::Settings;
