//! The duration window that a loop's length, in frames, must fall into.
use vstd::prelude::*;

verus! {

/// Inclusive bounds on `loop_end - loop_start`, in frame-index units.
#[derive(Clone, Copy, Debug, PartialEq, Eq, Structural)]
pub struct DurationWindow {
    pub min_loop_duration: usize,
    pub max_loop_duration: usize,
}

/// Where a candidate loop's length falls relative to a window.
#[derive(Clone, Copy, Debug, PartialEq, Eq, Structural)]
pub enum LengthClass {
    /// Shorter than the minimum: the scan over starts stops here.
    TooShort,
    /// Longer than the maximum, or starting after its end: skipped.
    TooLong,
    /// Inside the window.
    Within,
}

/// The class of the loop from frame `start` to frame `end`. A start after the
/// end has no length; it counts as too long, so it is skipped and never stops
/// the scan.
pub open spec fn length_class(w: DurationWindow, start: int, end: int) -> LengthClass {
    if start > end {
        LengthClass::TooLong
    } else if end - start < w.min_loop_duration {
        LengthClass::TooShort
    } else if end - start > w.max_loop_duration {
        LengthClass::TooLong
    } else {
        LengthClass::Within
    }
}

impl DurationWindow {
    /// Classifies the loop from frame `loop_start` to frame `loop_end`.
    pub fn classify(&self, loop_start: usize, loop_end: usize) -> (r: LengthClass)
        ensures
            r == length_class(*self, loop_start as int, loop_end as int),
    {
        if loop_start > loop_end {
            return LengthClass::TooLong;
        }
        let loop_length: usize = loop_end - loop_start;
        if loop_length < self.min_loop_duration {
            LengthClass::TooShort
        } else if loop_length > self.max_loop_duration {
            LengthClass::TooLong
        } else {
            LengthClass::Within
        }
    }
}

} // verus!
