//! The pair search: every (end, start) combination of beats, scanned in
//! order, filtered by the duration window and then by a judge that measures
//! the two frames and decides whether they are similar enough.
use vstd::prelude::*;
use crate::window::{length_class, DurationWindow, LengthClass};

verus! {

/// A candidate loop: jumping from `loop_end` back to `loop_start` is meant
/// to be unnoticeable. `measures` is what the judge reported for the pair.
#[derive(Clone, Copy, Debug, PartialEq, Eq)]
pub struct LoopPair<M> {
    pub loop_start: usize,
    pub loop_end: usize,
    pub measures: M,
}

/// Whether the scan over starts for end position `e` gets as far as start
/// position `s`: no earlier start made a loop that was too short.
pub open spec fn reached(beats: Seq<usize>, w: DurationWindow, e: int, s: int) -> bool {
    forall|k: int|
        0 <= k < s ==> #[trigger] length_class(w, beats[k] as int, beats[e] as int)
            != LengthClass::TooShort
}

/// Whether the pair of end position `e` and start position `s` is put to the
/// judge: the scan reaches it and its length lies in the window.
pub open spec fn in_window(beats: Seq<usize>, w: DurationWindow, e: int, s: int) -> bool {
    &&& 0 <= e < beats.len()
    &&& 0 <= s < beats.len()
    &&& reached(beats, w, e, s)
    &&& length_class(w, beats[s] as int, beats[e] as int) == LengthClass::Within
}

/// The pair that start position `s` and end position `e` give, with measures `m`.
pub open spec fn pair_at<M>(beats: Seq<usize>, e: int, s: int, m: M) -> LoopPair<M> {
    LoopPair { loop_start: beats[s], loop_end: beats[e], measures: m }
}

/// What the scan emits for end position `e` from the starts before `s`, when
/// the judge answers `verdict(e, s)` for each pair it is asked about.
pub open spec fn row<M>(
    beats: Seq<usize>,
    w: DurationWindow,
    verdict: spec_fn(int, int) -> Option<M>,
    e: int,
    s: int,
) -> Seq<LoopPair<M>>
    decreases s,
{
    if s <= 0 {
        Seq::empty()
    } else {
        let prev = row(beats, w, verdict, e, s - 1);
        if in_window(beats, w, e, s - 1) {
            match verdict(e, s - 1) {
                Some(m) => prev.push(pair_at(beats, e, s - 1, m)),
                None => prev,
            }
        } else {
            prev
        }
    }
}

/// What the scan emits for the end positions before `e`, in order.
pub open spec fn scan<M>(
    beats: Seq<usize>,
    w: DurationWindow,
    verdict: spec_fn(int, int) -> Option<M>,
    e: int,
) -> Seq<LoopPair<M>>
    decreases e,
{
    if e <= 0 {
        Seq::empty()
    } else {
        scan(beats, w, verdict, e - 1) + row(beats, w, verdict, e - 1, beats.len() as int)
    }
}

/// The whole output of the scan under the given verdicts.
pub open spec fn loop_pairs<M>(
    beats: Seq<usize>,
    w: DurationWindow,
    verdict: spec_fn(int, int) -> Option<M>,
) -> Seq<LoopPair<M>> {
    scan(beats, w, verdict, beats.len() as int)
}

/// `verdict` holds, for each pair put to the judge, an answer that the judge
/// may give on it.
pub open spec fn judged_by<M, F: Fn(usize, usize) -> Option<M>>(
    judge: F,
    beats: Seq<usize>,
    w: DurationWindow,
    verdict: spec_fn(int, int) -> Option<M>,
) -> bool {
    forall|e: int, s: int|
        #[trigger] in_window(beats, w, e, s) ==> judge.ensures((e as usize, s as usize), verdict(e, s))
}

/// `r` is an output that the scan can produce with this judge: the one that
/// some answers of the judge give.
pub open spec fn scan_outcome<M, F: Fn(usize, usize) -> Option<M>>(
    judge: F,
    beats: Seq<usize>,
    w: DurationWindow,
    r: Seq<LoopPair<M>>,
) -> bool {
    exists|verdict: spec_fn(int, int) -> Option<M>|
        #[trigger] judged_by(judge, beats, w, verdict) && r == loop_pairs(beats, w, verdict)
}

/// A row depends on the verdicts of its own pairs in the window alone.
proof fn lemma_row_agree<M>(
    beats: Seq<usize>,
    w: DurationWindow,
    v1: spec_fn(int, int) -> Option<M>,
    v2: spec_fn(int, int) -> Option<M>,
    e: int,
    s: int,
)
    requires
        forall|k: int| 0 <= k < s && #[trigger] in_window(beats, w, e, k) ==> v1(e, k) == v2(e, k),
    ensures
        row(beats, w, v1, e, s) == row(beats, w, v2, e, s),
    decreases s,
{
    if s > 0 {
        lemma_row_agree(beats, w, v1, v2, e, s - 1);
    }
}

/// The scan depends on the verdicts of the pairs in the window alone.
pub proof fn lemma_scan_agree<M>(
    beats: Seq<usize>,
    w: DurationWindow,
    v1: spec_fn(int, int) -> Option<M>,
    v2: spec_fn(int, int) -> Option<M>,
    e: int,
)
    requires
        forall|a: int, k: int| a < e && #[trigger] in_window(beats, w, a, k) ==> v1(a, k) == v2(a, k),
    ensures
        scan(beats, w, v1, e) == scan(beats, w, v2, e),
    decreases e,
{
    if e > 0 {
        lemma_scan_agree(beats, w, v1, v2, e - 1);
        lemma_row_agree(beats, w, v1, v2, e - 1, beats.len() as int);
    }
}

/// Once a start makes a loop too short, no later start of the same row is in
/// the window, so the row emits nothing more.
proof fn lemma_row_stops<M>(
    beats: Seq<usize>,
    w: DurationWindow,
    v: spec_fn(int, int) -> Option<M>,
    e: int,
    s: int,
    t: int,
)
    requires
        0 <= e < beats.len(),
        0 <= s <= t <= beats.len(),
        s < beats.len(),
        length_class(w, beats[s] as int, beats[e] as int) == LengthClass::TooShort,
    ensures
        row(beats, w, v, e, t) == row(beats, w, v, e, s),
        forall|k: int| s <= k < beats.len() ==> !#[trigger] in_window(beats, w, e, k),
    decreases t - s,
{
    assert forall|k: int| s <= k < beats.len() implies !#[trigger] in_window(beats, w, e, k) by {
        if k > s {
            assert(!reached(beats, w, e, k));
        }
    }
    if t > s {
        lemma_row_stops(beats, w, v, e, s, t - 1);
    }
}

/// Scans every end position of `beats` against every start position, in
/// ascending order of both, and collects the pairs in the window that `judge`
/// accepts. `judge(e, s)` is asked about end position `e` and start position
/// `s` and returns the pair's measures when it accepts it.
pub fn scan_loop_pairs<M, F: Fn(usize, usize) -> Option<M>>(
    beats: &[usize],
    window: DurationWindow,
    judge: F,
) -> (r: Vec<LoopPair<M>>)
    requires
        forall|e: usize, s: usize|
            e < beats@.len() && s < beats@.len() ==> #[trigger] judge.requires((e, s)),
    ensures
        scan_outcome(judge, beats@, window, r@),
        beats@.len() == 0 ==> r@.len() == 0,
{
    let n: usize = beats.len();
    let mut out: Vec<LoopPair<M>> = Vec::new();
    let ghost mut verdict: spec_fn(int, int) -> Option<M> = |a: int, b: int| None;
    let mut e: usize = 0;
    while e < n
        invariant
            n == beats@.len(),
            e <= n,
            forall|a: usize, b: usize|
                a < beats@.len() && b < beats@.len() ==> #[trigger] judge.requires((a, b)),
            out@ == scan(beats@, window, verdict, e as int),
            forall|a: int, k: int|
                a < e && #[trigger] in_window(beats@, window, a, k) ==> judge.ensures(
                    (a as usize, k as usize),
                    verdict(a, k),
                ),
        decreases n - e,
    {
        let loop_end = beats[e];
        let mut s: usize = 0;
        while s < n
            invariant_except_break
                reached(beats@, window, e as int, s as int),
            invariant
                n == beats@.len(),
                e < n,
                s <= n,
                loop_end == beats@[e as int],
                forall|a: usize, b: usize|
                    a < beats@.len() && b < beats@.len() ==> #[trigger] judge.requires((a, b)),
                out@ == scan(beats@, window, verdict, e as int) + row(
                    beats@,
                    window,
                    verdict,
                    e as int,
                    s as int,
                ),
                forall|a: int, k: int|
                    (a < e || (a == e && k < s)) && #[trigger] in_window(beats@, window, a, k)
                        ==> judge.ensures((a as usize, k as usize), verdict(a, k)),
            ensures
                out@ == scan(beats@, window, verdict, e as int) + row(
                    beats@,
                    window,
                    verdict,
                    e as int,
                    n as int,
                ),
                forall|a: int, k: int|
                    a <= e && #[trigger] in_window(beats@, window, a, k) ==> judge.ensures(
                        (a as usize, k as usize),
                        verdict(a, k),
                    ),
            decreases n - s,
        {
            let loop_start = beats[s];
            match window.classify(loop_start, loop_end) {
                LengthClass::TooShort => {
                    proof {
                        lemma_row_stops(beats@, window, verdict, e as int, s as int, n as int);
                    }
                    break;
                },
                LengthClass::TooLong => {},
                LengthClass::Within => {
                    let answer = judge(e, s);
                    proof {
                        let old_verdict = verdict;
                        verdict =
                        |a: int, b: int|
                            if a == e as int && b == s as int {
                                answer
                            } else {
                                old_verdict(a, b)
                            };
                        lemma_scan_agree(beats@, window, old_verdict, verdict, e as int);
                        lemma_row_agree(beats@, window, old_verdict, verdict, e as int, s as int);
                    }
                    match answer {
                        Some(m) => {
                            out.push(LoopPair { loop_start, loop_end, measures: m });
                        },
                        None => {},
                    }
                },
            }
            s = s + 1;
        }
        e = e + 1;
    }
    assert(judged_by(judge, beats@, window, verdict));
    out
}

} // verus!
