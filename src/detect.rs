//! The entry point: checks that the inputs fit together, then runs the pair
//! search.
use vstd::prelude::*;
use crate::search::{scan_loop_pairs, scan_outcome, LoopPair};
use crate::window::DurationWindow;

verus! {

/// Inputs that do not fit together. The search refuses them as a whole
/// rather than truncating, wrapping or clamping.
#[derive(Clone, Copy, Debug, PartialEq, Eq, Structural)]
pub enum ShapeError {
    /// The tolerance list does not hold exactly one entry per beat.
    ToleranceCount { beats: usize, tolerances: usize },
    /// The beat at `position` names `frame`, a column past the `frames`
    /// columns that the feature matrices hold.
    BeatOutOfRange { position: usize, frame: usize, frames: usize },
}

/// Position `p` holds the first beat that is not a column of `frames` columns.
pub open spec fn first_out_of_range(beats: Seq<usize>, frames: usize, p: int) -> bool {
    &&& 0 <= p < beats.len()
    &&& beats[p] >= frames
    &&& forall|k: int| 0 <= k < p ==> #[trigger] beats[k] < frames
}

/// Every beat is a column of `frames` columns.
pub open spec fn all_in_range(beats: Seq<usize>, frames: usize) -> bool {
    forall|k: int| 0 <= k < beats.len() ==> #[trigger] beats[k] < frames
}

/// The position of the first beat that is not a column of `frames` columns,
/// if there is one.
pub fn find_out_of_range(beats: &[usize], frames: usize) -> (r: Option<usize>)
    ensures
        match r {
            Some(p) => first_out_of_range(beats@, frames, p as int),
            None => all_in_range(beats@, frames),
        },
{
    let mut k: usize = 0;
    while k < beats.len()
        invariant
            k <= beats@.len(),
            forall|j: int| 0 <= j < k ==> #[trigger] beats@[j] < frames,
        decreases beats@.len() - k,
    {
        if beats[k] >= frames {
            return Some(k);
        }
        k = k + 1;
    }
    None
}

/// Finds the candidate loop pairs among `beats`, frames of feature matrices
/// with `frames` columns each, for a tolerance list of `tolerance_count`
/// entries, one per beat. `judge(e, s)` compares the frames of end position
/// `e` and start position `s` and returns their measures when they are
/// similar enough.
///
/// With no beats, or matrices without columns, there is nothing to pair and
/// the result is empty. Otherwise a tolerance list of the wrong length, or a
/// beat past the last column, is refused before the judge is asked anything.
pub fn detect_loop_pairs<M, F: Fn(usize, usize) -> Option<M>>(
    beats: &[usize],
    frames: usize,
    tolerance_count: usize,
    window: DurationWindow,
    judge: F,
) -> (r: Result<Vec<LoopPair<M>>, ShapeError>)
    requires
        forall|e: usize, s: usize|
            e < beats@.len() && s < beats@.len() && beats@[e as int] < frames && beats@[s as int]
                < frames && tolerance_count == beats@.len() ==> #[trigger] judge.requires((e, s)),
    ensures
        beats@.len() == 0 || frames == 0 ==> (r matches Ok(v) && v@.len() == 0),
        beats@.len() > 0 && frames > 0 && tolerance_count != beats@.len() ==> r == Err::<
            Vec<LoopPair<M>>,
            ShapeError,
        >(ShapeError::ToleranceCount { beats: beats@.len() as usize, tolerances: tolerance_count }),
        beats@.len() > 0 && frames > 0 && tolerance_count == beats@.len() ==> match r {
            Ok(v) => all_in_range(beats@, frames) && scan_outcome(judge, beats@, window, v@),
            Err(ShapeError::BeatOutOfRange { position, frame, frames: f }) => first_out_of_range(
                beats@,
                frames,
                position as int,
            ) && frame == beats@[position as int] && f == frames,
            Err(ShapeError::ToleranceCount { .. }) => false,
        },
{
    if beats.len() == 0 || frames == 0 {
        return Ok(Vec::new());
    }
    if tolerance_count != beats.len() {
        return Err(ShapeError::ToleranceCount { beats: beats.len(), tolerances: tolerance_count });
    }
    match find_out_of_range(beats, frames) {
        Some(position) => Err(
            ShapeError::BeatOutOfRange { position, frame: beats[position], frames },
        ),
        None => Ok(scan_loop_pairs(beats, window, judge)),
    }
}

} // verus!
