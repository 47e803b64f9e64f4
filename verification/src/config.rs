//! Filter configuration: the tunables a caller may change between frames.

use vstd::prelude::*;

verus! {

/// Default number of scratch artifacts, and of noise-band row draws.
pub const DEFAULT_SCRATCH_LINES: u32 = 7;
/// Color aging is applied unless switched off.
pub const DEFAULT_COLOR_AGING: bool = true;
/// Reserved effect flag; accepted but currently inert.
pub const DEFAULT_PITS: bool = true;
/// Reserved effect flag; accepted but currently inert.
pub const DEFAULT_DUSTS: bool = true;

/// A snapshot of the filter's tunables. The dispatcher reads one copy per
/// frame; a caller that mutates settings concurrently must hand the frame
/// call a consistent snapshot.
#[derive(Clone, Copy)]
pub struct Settings {
    /// Number of scratch artifacts maintained, and number of row draws the
    /// horizontal noise bander makes per frame.
    pub scratch_lines: u32,
    /// Whether the color-aging pass runs; when false that pass is an exact
    /// byte-for-byte copy.
    pub color_aging: bool,
    /// Reserved for a future pits effect; no observable effect today.
    pub pits: bool,
    /// Reserved for a future dusts effect; no observable effect today.
    pub dusts: bool,
}

impl Default for Settings {
    /// The stock configuration: seven scratch lines, aging on, the two
    /// reserved flags on.
    fn default() -> (s: Settings)
        ensures
            s.scratch_lines == DEFAULT_SCRATCH_LINES,
            s.color_aging == DEFAULT_COLOR_AGING,
            s.pits == DEFAULT_PITS,
            s.dusts == DEFAULT_DUSTS,
    {
        Settings {
            scratch_lines: DEFAULT_SCRATCH_LINES,
            color_aging: DEFAULT_COLOR_AGING,
            pits: DEFAULT_PITS,
            dusts: DEFAULT_DUSTS,
        }
    }
}

} // verus!
