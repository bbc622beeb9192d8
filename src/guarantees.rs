//! What holds of every output of the pair search, whatever the judge answers.
use vstd::prelude::*;
use crate::search::{
    in_window, judged_by, lemma_scan_agree, loop_pairs, pair_at, row, scan, scan_outcome,
    LoopPair,
};
use crate::window::{length_class, DurationWindow, LengthClass};

verus! {

/// Each pair of a row comes from a start before `s` that is in the window and
/// that the verdicts accept.
proof fn lemma_row_sound<M>(
    beats: Seq<usize>,
    w: DurationWindow,
    v: spec_fn(int, int) -> Option<M>,
    e: int,
    s: int,
    i: int,
)
    requires
        0 <= i < row(beats, w, v, e, s).len(),
    ensures
        exists|k: int|
            0 <= k < s && #[trigger] in_window(beats, w, e, k) && v(e, k) == Some(
                row(beats, w, v, e, s)[i].measures,
            ) && row(beats, w, v, e, s)[i] == pair_at(beats, e, k, row(beats, w, v, e, s)[i].measures),
    decreases s,
{
    let prev = row(beats, w, v, e, s - 1);
    if i < prev.len() {
        lemma_row_sound(beats, w, v, e, s - 1, i);
        assert(row(beats, w, v, e, s)[i] == prev[i]);
    } else {
        assert(in_window(beats, w, e, s - 1));
    }
}

/// Each pair of the scan comes from a pair in the window that the verdicts
/// accept.
proof fn lemma_scan_sound<M>(
    beats: Seq<usize>,
    w: DurationWindow,
    v: spec_fn(int, int) -> Option<M>,
    e: int,
    i: int,
)
    requires
        0 <= i < scan(beats, w, v, e).len(),
    ensures
        exists|a: int, k: int|
            #[trigger] in_window(beats, w, a, k) && v(a, k) == Some(scan(beats, w, v, e)[i].measures)
                && scan(beats, w, v, e)[i] == pair_at(beats, a, k, scan(beats, w, v, e)[i].measures),
    decreases e,
{
    let prev = scan(beats, w, v, e - 1);
    let last = row(beats, w, v, e - 1, beats.len() as int);
    if i < prev.len() {
        lemma_scan_sound(beats, w, v, e - 1, i);
        assert(scan(beats, w, v, e)[i] == prev[i]);
    } else {
        lemma_row_sound(beats, w, v, e - 1, beats.len() as int, i - prev.len());
        assert(scan(beats, w, v, e)[i] == last[i - prev.len()]);
    }
}

/// A row holds each pair before `t` that is in the window and accepted.
proof fn lemma_row_complete<M>(
    beats: Seq<usize>,
    w: DurationWindow,
    v: spec_fn(int, int) -> Option<M>,
    e: int,
    s: int,
    t: int,
)
    requires
        in_window(beats, w, e, s),
        v(e, s) is Some,
        s < t,
    ensures
        row(beats, w, v, e, t).contains(pair_at(beats, e, s, v(e, s)->0)),
    decreases t,
{
    let p = pair_at(beats, e, s, v(e, s)->0);
    let prev = row(beats, w, v, e, t - 1);
    let cur = row(beats, w, v, e, t);
    if t - 1 == s {
        assert(cur[cur.len() - 1] == p);
    } else {
        lemma_row_complete(beats, w, v, e, s, t - 1);
        let j = choose|j: int| 0 <= j < prev.len() && prev[j] == p;
        assert(cur[j] == p);
    }
}

/// The scan up to end position `n` holds each accepted pair in the window
/// whose end position is before `n`.
proof fn lemma_scan_complete<M>(
    beats: Seq<usize>,
    w: DurationWindow,
    v: spec_fn(int, int) -> Option<M>,
    e: int,
    s: int,
    n: int,
)
    requires
        in_window(beats, w, e, s),
        v(e, s) is Some,
        e < n,
    ensures
        scan(beats, w, v, n).contains(pair_at(beats, e, s, v(e, s)->0)),
    decreases n,
{
    let p = pair_at(beats, e, s, v(e, s)->0);
    let prev = scan(beats, w, v, n - 1);
    let last = row(beats, w, v, n - 1, beats.len() as int);
    let cur = scan(beats, w, v, n);
    if n - 1 == e {
        lemma_row_complete(beats, w, v, e, s, beats.len() as int);
        let j = choose|j: int| 0 <= j < last.len() && last[j] == p;
        assert(cur[prev.len() + j] == p);
    } else {
        lemma_scan_complete(beats, w, v, e, s, n - 1);
        let j = choose|j: int| 0 <= j < prev.len() && prev[j] == p;
        assert(cur[j] == p);
    }
}

/// Every pair the search emits has a length inside the window, and comes from
/// an end position and a start position whose frames it holds and which the
/// judge accepted with the measures it holds.
pub proof fn lemma_output_sound<M, F: Fn(usize, usize) -> Option<M>>(
    judge: F,
    beats: Seq<usize>,
    w: DurationWindow,
    r: Seq<LoopPair<M>>,
    i: int,
)
    requires
        scan_outcome(judge, beats, w, r),
        0 <= i < r.len(),
    ensures
        r[i].loop_start <= r[i].loop_end,
        w.min_loop_duration <= r[i].loop_end - r[i].loop_start <= w.max_loop_duration,
        exists|e: int, s: int|
            0 <= e < beats.len() && 0 <= s < beats.len() && beats[e] == r[i].loop_end
                && beats[s] == r[i].loop_start && #[trigger] judge.ensures(
                (e as usize, s as usize),
                Some(r[i].measures),
            ),
{
    let v = choose|v: spec_fn(int, int) -> Option<M>|
        #[trigger] judged_by(judge, beats, w, v) && r == loop_pairs(beats, w, v);
    lemma_scan_sound(beats, w, v, beats.len() as int, i);
    let (e, s) = choose|e: int, s: int|
        #[trigger] in_window(beats, w, e, s) && v(e, s) == Some(r[i].measures) && r[i] == pair_at(
            beats,
            e,
            s,
            r[i].measures,
        );
    assert(length_class(w, beats[s] as int, beats[e] as int) == LengthClass::Within);
    assert(judge.ensures((e as usize, s as usize), Some(r[i].measures)));
}

/// No pair is missed: a pair in the window (one that the scan reaches before
/// any too-short start stops its row) which the judge accepts whatever it
/// answers is emitted, with measures the judge gave for it.
pub proof fn lemma_output_complete<M, F: Fn(usize, usize) -> Option<M>>(
    judge: F,
    beats: Seq<usize>,
    w: DurationWindow,
    r: Seq<LoopPair<M>>,
    e: int,
    s: int,
)
    requires
        scan_outcome(judge, beats, w, r),
        in_window(beats, w, e, s),
        forall|x: Option<M>| #[trigger] judge.ensures((e as usize, s as usize), x) ==> x is Some,
    ensures
        exists|i: int|
            0 <= i < r.len() && r[i].loop_start == beats[s] && r[i].loop_end == beats[e]
                && #[trigger] judge.ensures((e as usize, s as usize), Some(r[i].measures)),
{
    let v = choose|v: spec_fn(int, int) -> Option<M>|
        #[trigger] judged_by(judge, beats, w, v) && r == loop_pairs(beats, w, v);
    assert(judge.ensures((e as usize, s as usize), v(e, s)));
    lemma_scan_complete(beats, w, v, e, s, beats.len() as int);
    let i = choose|i: int| 0 <= i < r.len() && r[i] == pair_at(beats, e, s, v(e, s)->0);
    assert(judge.ensures((e as usize, s as usize), Some(r[i].measures)));
}

/// The search is deterministic: with a judge that gives one answer for each
/// pair, two runs on the same beats and window give the same output.
pub proof fn lemma_output_deterministic<M, F: Fn(usize, usize) -> Option<M>>(
    judge: F,
    beats: Seq<usize>,
    w: DurationWindow,
    r1: Seq<LoopPair<M>>,
    r2: Seq<LoopPair<M>>,
)
    requires
        scan_outcome(judge, beats, w, r1),
        scan_outcome(judge, beats, w, r2),
        forall|args: (usize, usize), x: Option<M>, y: Option<M>|
            #[trigger] judge.ensures(args, x) && #[trigger] judge.ensures(args, y) ==> x == y,
    ensures
        r1 == r2,
{
    let v1 = choose|v: spec_fn(int, int) -> Option<M>|
        #[trigger] judged_by(judge, beats, w, v) && r1 == loop_pairs(beats, w, v);
    let v2 = choose|v: spec_fn(int, int) -> Option<M>|
        #[trigger] judged_by(judge, beats, w, v) && r2 == loop_pairs(beats, w, v);
    assert forall|a: int, k: int|
        a < beats.len() && #[trigger] in_window(beats, w, a, k) implies v1(a, k) == v2(a, k) by {
        assert(judge.ensures((a as usize, k as usize), v1(a, k)));
        assert(judge.ensures((a as usize, k as usize), v2(a, k)));
    }
    lemma_scan_agree(beats, w, v1, v2, beats.len() as int);
}

} // verus!
