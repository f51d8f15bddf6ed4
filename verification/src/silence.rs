//! Silence detection over fixed analysis windows.
//!
//! The decoded stream is cut into consecutive windows of `window_frames`
//! frames (the last one may be shorter). Each window gets one verdict, silent
//! or not, from its RMS level against the threshold; that measurement works on
//! sample values and is made by the caller. From the verdicts this module
//! derives the reported silences: every maximal run of silent windows whose
//! extent is at least the minimum gap, as a `[start, end)` range of frames.
use vstd::prelude::*;

verus! {

/// Index of the first non-silent window at or after `i`, or `v.len()` when the
/// windows from `i` on are all silent.
pub open spec fn first_loud_from(v: Seq<bool>, i: int) -> int
    decreases v.len() - i,
{
    if i >= v.len() {
        v.len() as int
    } else if !v[i] {
        i
    } else {
        first_loud_from(v, i + 1)
    }
}

/// The silence ranges found in the windows from index `i` on, given window
/// verdicts `v`, the window length `w`, the stream's last frame boundary `end`
/// and the minimum gap `gap` (all in frames). A run of silent windows starting
/// at window `i` reaches up to the start of the next non-silent window, or to
/// `end` when no such window follows; it is reported when it spans at least
/// `gap` frames.
pub open spec fn spans_from(v: Seq<bool>, i: int, w: int, end: int, gap: int) -> Seq<(int, int)>
    decreases v.len() - i,
{
    if i < 0 || i >= v.len() {
        Seq::empty()
    } else if !v[i] {
        spans_from(v, i + 1, w, end, gap)
    } else {
        let b = first_loud_from(v, i);
        proof {
            lemma_first_loud_bounds(v, i);
        }
        let stop = if b < v.len() { b * w } else { end };
        let rest = spans_from(v, b, w, end, gap);
        if stop - i * w >= gap {
            seq![(i * w, stop)] + rest
        } else {
            rest
        }
    }
}

/// The silence ranges of a whole stream: every maximal run of silent windows
/// that spans at least `gap` frames, in stream order. Window `k` starts at
/// frame `k * w`; the stream ends at frame `end`.
pub open spec fn silence_spans(v: Seq<bool>, w: int, end: int, gap: int) -> Seq<(int, int)> {
    spans_from(v, 0, w, end, gap)
}

/// The range a silence still open at `start` contributes when the stream ends
/// at `end`.
pub open spec fn pending_span(start: Option<int>, end: int, gap: int) -> Seq<(int, int)> {
    match start {
        Some(s) => if end - s >= gap { seq![(s, end)] } else { Seq::empty() },
        None => Seq::empty(),
    }
}

pub proof fn lemma_first_loud_bounds(v: Seq<bool>, i: int)
    requires
        0 <= i <= v.len(),
    ensures
        i <= first_loud_from(v, i) <= v.len(),
        i < v.len() && v[i] ==> first_loud_from(v, i) > i,
        first_loud_from(v, i) < v.len() ==> !v[first_loud_from(v, i)],
        forall|j: int| i <= j < first_loud_from(v, i) ==> v[j],
    decreases v.len() - i,
{
    if i < v.len() && v[i] {
        lemma_first_loud_bounds(v, i + 1);
    }
}

proof fn lemma_first_loud_push(v: Seq<bool>, x: bool, i: int)
    requires
        0 <= i <= v.len(),
    ensures
        first_loud_from(v.push(x), i) == if first_loud_from(v, i) < v.len() {
            first_loud_from(v, i)
        } else if x {
            v.len() + 1int
        } else {
            v.len() as int
        },
    decreases v.len() - i,
{
    let vp = v.push(x);
    if i == v.len() {
        if x {
            assert(first_loud_from(vp, i + 1) == vp.len());
        }
    } else {
        assert(vp[i] == v[i]);
        if v[i] {
            lemma_first_loud_push(v, x, i + 1);
        }
    }
}

/// Appending a non-silent window closes a silence that was open at the end.
proof fn lemma_spans_push_loud(v: Seq<bool>, i: int, w: int, end: int, gap: int)
    requires
        0 <= i <= v.len(),
    ensures
        spans_from(v.push(false), i, w, end, gap) == spans_from(v, i, w, v.len() * w, gap),
    decreases v.len() - i,
{
    let vp = v.push(false);
    let n = v.len() as int;
    if i == n {
        assert(spans_from(vp, i + 1, w, end, gap) == Seq::<(int, int)>::empty());
    } else {
        assert(vp[i] == v[i]);
        if !v[i] {
            lemma_spans_push_loud(v, i + 1, w, end, gap);
        } else {
            lemma_first_loud_bounds(v, i);
            lemma_first_loud_push(v, false, i);
            let b = first_loud_from(v, i);
            lemma_spans_push_loud(v, b, w, end, gap);
        }
    }
}

/// Appending a silent window after a non-silent one (or to an empty stream)
/// opens a silence at that window's start.
proof fn lemma_spans_push_silent_fresh(v: Seq<bool>, i: int, w: int, end: int, gap: int)
    requires
        0 <= i <= v.len(),
        v.len() == 0 || !v[v.len() - 1],
    ensures
        spans_from(v.push(true), i, w, end, gap) == spans_from(v, i, w, v.len() * w, gap)
            + pending_span(Some(v.len() * w), end, gap),
    decreases v.len() - i,
{
    let vp = v.push(true);
    let n = v.len() as int;
    if i == n {
        lemma_first_loud_push(v, true, i);
        assert(spans_from(vp, n + 1, w, end, gap) == Seq::<(int, int)>::empty());
        assert(spans_from(v, i, w, n * w, gap) == Seq::<(int, int)>::empty());
        if end - n * w >= gap {
            assert(spans_from(vp, i, w, end, gap) =~= seq![(n * w, end)]);
        } else {
            assert(spans_from(vp, i, w, end, gap) =~= Seq::<(int, int)>::empty());
        }
        assert(spans_from(vp, i, w, end, gap) =~= spans_from(v, i, w, n * w, gap)
            + pending_span(Some(n * w), end, gap));
    } else {
        assert(vp[i] == v[i]);
        if !v[i] {
            lemma_spans_push_silent_fresh(v, i + 1, w, end, gap);
        } else {
            lemma_first_loud_bounds(v, i);
            lemma_first_loud_push(v, true, i);
            let b = first_loud_from(v, i);
            if b == n {
                assert(v[n - 1]);
            }
            lemma_spans_push_silent_fresh(v, b, w, end, gap);
            let r = spans_from(v, b, w, n * w, gap);
            let p = pending_span(Some(n * w), end, gap);
            let head = seq![(i * w, b * w)];
            assert(head + (r + p) =~= (head + r) + p);
        }
    }
}

/// Appending a silent window to a stream that ends in silence extends that
/// silence.
proof fn lemma_spans_push_silent_extend(v: Seq<bool>, i: int, w: int, end: int, gap: int)
    requires
        0 <= i < v.len(),
        v[v.len() - 1],
    ensures
        spans_from(v.push(true), i, w, end, gap) == spans_from(v, i, w, end, gap),
    decreases v.len() - i,
{
    let vp = v.push(true);
    let n = v.len() as int;
    assert(vp[i] == v[i]);
    if !v[i] {
        lemma_spans_push_silent_extend(v, i + 1, w, end, gap);
    } else {
        lemma_first_loud_bounds(v, i);
        lemma_first_loud_push(v, true, i);
        let b = first_loud_from(v, i);
        if b < n {
            lemma_spans_push_silent_extend(v, b, w, end, gap);
        } else {
            assert(spans_from(vp, n + 1, w, end, gap) == Seq::<(int, int)>::empty());
            assert(spans_from(v, n, w, end, gap) == Seq::<(int, int)>::empty());
            assert(first_loud_from(vp, i) == n + 1);
        }
    }
}


/// Shape of the silences from window `i` on: each starts on a window boundary
/// at or after window `i`, is non-empty, ends on a window boundary or at the
/// stream's end, spans at least `gap` frames, and ends before the next begins.
#[verifier::spinoff_prover]
#[verifier::rlimit(30)]
proof fn lemma_spans_from_shape(v: Seq<bool>, i: int, w: int, end: int, gap: int)
    requires
        0 <= i <= v.len(),
        w >= 1,
        v.len() > 0 ==> (v.len() - 1) * w < end,
    ensures
        ({
            let sp = spans_from(v, i, w, end, gap);
            &&& forall|k: int| 0 <= k < sp.len() ==> i * w <= #[trigger] sp[k].0
            &&& forall|k: int| 0 <= k < sp.len() ==> #[trigger] sp[k].0 < sp[k].1 <= end
            &&& forall|k: int| 0 <= k < sp.len() ==> #[trigger] sp[k].1 - sp[k].0 >= gap
            &&& forall|k: int| 0 <= k < sp.len() ==> #[trigger] sp[k].0 % w == 0
            &&& forall|k: int|
                0 <= k < sp.len() ==> #[trigger] sp[k].1 == end || sp[k].1 % w == 0
            &&& forall|k: int| 0 <= k < sp.len() - 1 ==> #[trigger] sp[k].1 < sp[k + 1].0
        }),
    decreases v.len() - i,
{
    let n = v.len() as int;
    if i == n {
    } else if !v[i] {
        lemma_spans_from_shape(v, i + 1, w, end, gap);
        assert(i * w <= (i + 1) * w) by (nonlinear_arith)
            requires
                w >= 1,
        ;
    } else {
        lemma_first_loud_bounds(v, i);
        let b = first_loud_from(v, i);
        let stop = if b < n { b * w } else { end };
        let rest = spans_from(v, b, w, end, gap);
        assert(i * w < (i + 1) * w <= b * w) by (nonlinear_arith)
            requires
                w >= 1,
                i + 1 <= b,
        ;
        assert((i * w) % w == 0) by {
            vstd::arithmetic::div_mod::lemma_mod_multiples_basic(i, w);
        }
        if b < n {
            assert((b * w) % w == 0) by {
                vstd::arithmetic::div_mod::lemma_mod_multiples_basic(b, w);
            }
            assert(b * w <= (n - 1) * w) by (nonlinear_arith)
                requires
                    w >= 1,
                    b <= n - 1,
            ;
            assert(b * w < (b + 1) * w) by (nonlinear_arith)
                requires
                    w >= 1,
            ;
            lemma_spans_from_shape(v, b + 1, w, end, gap);
            assert(rest == spans_from(v, b + 1, w, end, gap));
        } else {
            assert(i * w <= (n - 1) * w) by (nonlinear_arith)
                requires
                    w >= 1,
                    i <= n - 1,
            ;
            assert(rest == Seq::<(int, int)>::empty());
        }
        lemma_spans_from_shape(v, b, w, end, gap);
        if stop - i * w >= gap {
            let sp = seq![(i * w, stop)] + rest;
            assert forall|k: int| 0 <= k < sp.len() - 1 implies #[trigger] sp[k].1 < sp[k + 1].0 by {
                if k > 0 {
                    assert(sp[k] == rest[k - 1]);
                    assert(sp[k + 1] == rest[k]);
                }
            }
            assert forall|k: int| 0 <= k < sp.len() implies i * w <= #[trigger] sp[k].0 by {
                if k > 0 {
                    assert(sp[k] == rest[k - 1]);
                }
            }
            assert forall|k: int| 0 <= k < sp.len() implies #[trigger] sp[k].0 < sp[k].1 <= end by {
                if k > 0 {
                    assert(sp[k] == rest[k - 1]);
                }
            }
            assert forall|k: int| 0 <= k < sp.len() implies #[trigger] sp[k].1 - sp[k].0 >= gap by {
                if k > 0 {
                    assert(sp[k] == rest[k - 1]);
                }
            }
            assert forall|k: int| 0 <= k < sp.len() implies #[trigger] sp[k].0 % w == 0 by {
                if k > 0 {
                    assert(sp[k] == rest[k - 1]);
                }
            }
            assert forall|k: int| 0 <= k < sp.len() implies #[trigger] sp[k].1 == end || sp[k].1 % w
                == 0 by {
                if k > 0 {
                    assert(sp[k] == rest[k - 1]);
                }
            }
        } else {
            assert forall|k: int| 0 <= k < rest.len() implies i * w <= #[trigger] rest[k].0 by {
                assert(b * w <= rest[k].0);
            }
        }
    }
}

/// The silences of a stream come in stream order and never overlap: each one
/// starts on a window boundary, is non-empty, ends on a window boundary or at
/// the stream's end, lies within the stream, spans at least the minimum gap,
/// and ends strictly before the next one starts (a non-silent window lies
/// between them).
pub proof fn lemma_silence_spans_shape(v: Seq<bool>, w: int, end: int, gap: int)
    requires
        w >= 1,
        v.len() > 0 ==> (v.len() - 1) * w < end,
    ensures
        ({
            let sp = silence_spans(v, w, end, gap);
            &&& forall|k: int| 0 <= k < sp.len() ==> 0 <= #[trigger] sp[k].0 < sp[k].1 <= end
            &&& forall|k: int| 0 <= k < sp.len() ==> #[trigger] sp[k].1 - sp[k].0 >= gap
            &&& forall|k: int| 0 <= k < sp.len() ==> #[trigger] sp[k].0 % w == 0
            &&& forall|k: int|
                0 <= k < sp.len() ==> #[trigger] sp[k].1 == end || sp[k].1 % w == 0
            &&& forall|k: int| 0 <= k < sp.len() - 1 ==> #[trigger] sp[k].1 < sp[k + 1].0
        }),
{
    lemma_spans_from_shape(v, 0, w, end, gap);
    let sp = silence_spans(v, w, end, gap);
    assert forall|k: int| 0 <= k < sp.len() implies 0 <= #[trigger] sp[k].0 < sp[k].1 <= end by {
        assert(0 * w <= sp[k].0);
        assert(0 * w == 0) by (nonlinear_arith);
    }
}

/// Windows `a..b` form a maximal run of silent windows: all silent, with no
/// silent window just before or just after.
pub open spec fn maximal_silent_run(v: Seq<bool>, a: int, b: int) -> bool {
    &&& 0 <= a < b <= v.len()
    &&& (a == 0 || !v[a - 1])
    &&& (b == v.len() || !v[b])
    &&& forall|j: int| a <= j < b ==> #[trigger] v[j]
}

/// The frame range of windows `a..b`: from the start of window `a` to the
/// start of window `b`, or to the stream's end when `b` is the last window.
pub open spec fn run_extent(v: Seq<bool>, w: int, end: int, a: int, b: int) -> (int, int) {
    (a * w, if b < v.len() { b * w } else { end })
}

/// Windows `a..b` form a maximal silent run that spans at least `gap` frames.
pub open spec fn long_silent_run(v: Seq<bool>, w: int, end: int, gap: int, a: int, b: int) -> bool {
    maximal_silent_run(v, a, b) && run_extent(v, w, end, a, b).1 - run_extent(v, w, end, a, b).0
        >= gap
}

/// `x` is the extent of a maximal silent run that spans at least `gap` frames.
pub open spec fn is_long_run_extent(v: Seq<bool>, w: int, end: int, gap: int, x: (int, int)) -> bool {
    exists|a: int, b: int|
        #[trigger] long_silent_run(v, w, end, gap, a, b) && x == run_extent(v, w, end, a, b)
}

proof fn lemma_spans_from_sound(v: Seq<bool>, i: int, w: int, end: int, gap: int)
    requires
        0 <= i <= v.len(),
        i == 0 || i == v.len() || !v[i] || !v[i - 1],
    ensures
        forall|k: int|
            0 <= k < spans_from(v, i, w, end, gap).len() ==> #[trigger] is_long_run_extent(
                v,
                w,
                end,
                gap,
                spans_from(v, i, w, end, gap)[k],
            ),
    decreases v.len() - i,
{
    let n = v.len() as int;
    if i == n {
    } else if !v[i] {
        lemma_spans_from_sound(v, i + 1, w, end, gap);
        let sp = spans_from(v, i, w, end, gap);
        let rest = spans_from(v, i + 1, w, end, gap);
        assert(sp == rest);
        assert forall|k: int| 0 <= k < sp.len() implies #[trigger] is_long_run_extent(
            v,
            w,
            end,
            gap,
            sp[k],
        ) by {
            assert(is_long_run_extent(v, w, end, gap, rest[k]));
        }
    } else {
        lemma_first_loud_bounds(v, i);
        let b = first_loud_from(v, i);
        lemma_spans_from_sound(v, b, w, end, gap);
        let rest = spans_from(v, b, w, end, gap);
        let sp = spans_from(v, i, w, end, gap);
        assert(maximal_silent_run(v, i, b));
        if run_extent(v, w, end, i, b).1 - run_extent(v, w, end, i, b).0 >= gap {
            assert(sp == seq![run_extent(v, w, end, i, b)] + rest);
            assert forall|k: int| 0 <= k < sp.len() implies #[trigger] is_long_run_extent(
                v,
                w,
                end,
                gap,
                sp[k],
            ) by {
                if k == 0 {
                    assert(long_silent_run(v, w, end, gap, i, b));
                    assert(sp[0] == run_extent(v, w, end, i, b));
                } else {
                    assert(sp[k] == rest[k - 1]);
                    assert(is_long_run_extent(v, w, end, gap, rest[k - 1]));
                }
            }
        } else {
            assert(sp == rest);
            assert forall|k: int| 0 <= k < sp.len() implies #[trigger] is_long_run_extent(
                v,
                w,
                end,
                gap,
                sp[k],
            ) by {
                assert(is_long_run_extent(v, w, end, gap, rest[k]));
            }
        }
    }
}

proof fn lemma_spans_from_complete(v: Seq<bool>, i: int, w: int, end: int, gap: int, a: int, b: int)
    requires
        0 <= i <= a,
        long_silent_run(v, w, end, gap, a, b),
    ensures
        spans_from(v, i, w, end, gap).contains(run_extent(v, w, end, a, b)),
    decreases v.len() - i,
{
    let n = v.len() as int;
    lemma_first_loud_bounds(v, i);
    if !v[i] {
        lemma_spans_from_complete(v, i + 1, w, end, gap, a, b);
        assert(spans_from(v, i, w, end, gap) == spans_from(v, i + 1, w, end, gap));
    } else {
        let c = first_loud_from(v, i);
        let rest = spans_from(v, c, w, end, gap);
        if i == a {
            if c < b {
                assert(v[c]);
            }
            if b < c {
                assert(v[b]);
            }
            assert(c == b);
            let sp = spans_from(v, i, w, end, gap);
            assert(sp == seq![run_extent(v, w, end, a, b)] + rest);
            assert(sp[0] == run_extent(v, w, end, a, b));
        } else {
            if c >= a {
                assert(v[a - 1]);
            }
            lemma_spans_from_complete(v, c, w, end, gap, a, b);
            let sp = spans_from(v, i, w, end, gap);
            let x = run_extent(v, w, end, a, b);
            let k = choose|k: int| 0 <= k < rest.len() && rest[k] == x;
            if sp.len() > rest.len() {
                assert(sp == seq![sp[0]] + rest);
                assert(sp[k + 1] == x);
            } else {
                assert(sp == rest);
            }
        }
    }
}

/// The silences of a stream are exactly its maximal runs of silent windows
/// that span at least the minimum gap: each reported range is the extent of
/// such a run, and every such run is reported.
pub proof fn lemma_silence_spans_are_maximal_runs(v: Seq<bool>, w: int, end: int, gap: int)
    ensures
        forall|k: int|
            0 <= k < silence_spans(v, w, end, gap).len() ==> #[trigger] is_long_run_extent(
                v,
                w,
                end,
                gap,
                silence_spans(v, w, end, gap)[k],
            ),
        forall|a: int, b: int|
            #[trigger] long_silent_run(v, w, end, gap, a, b) ==> silence_spans(
                v,
                w,
                end,
                gap,
            ).contains(run_extent(v, w, end, a, b)),
{
    lemma_spans_from_sound(v, 0, w, end, gap);
    assert forall|a: int, b: int| #[trigger] long_silent_run(v, w, end, gap, a, b) implies silence_spans(
        v,
        w,
        end,
        gap,
    ).contains(run_extent(v, w, end, a, b)) by {
        lemma_spans_from_complete(v, 0, w, end, gap, a, b);
    }
}

/// Frames per analysis window at `sample_rate`: about 30 ms, at least one frame.
pub open spec fn window_frames_for(sample_rate: nat) -> nat {
    if sample_rate * 3 / 100 >= 1 {
        sample_rate * 3 / 100
    } else {
        1
    }
}

/// The analysis window lasts about 30 ms at every sample rate: it holds the
/// whole number of frames in 30 ms (`rate * 3 / 100`, rounded down), and one
/// frame when 30 ms is shorter than a frame.
pub proof fn lemma_window_is_thirty_ms(sample_rate: nat)
    ensures
        sample_rate * 3 >= 100 ==> window_frames_for(sample_rate) * 100 <= sample_rate * 3 < (
        window_frames_for(sample_rate) + 1) * 100,
        sample_rate * 3 < 100 ==> window_frames_for(sample_rate) == 1,
{
    let w = window_frames_for(sample_rate);
    let x = sample_rate * 3;
    assert(x / 100 * 100 <= x < (x / 100 + 1) * 100) by (nonlinear_arith);
    if x >= 100 {
        assert(x / 100 >= 1) by (nonlinear_arith)
            requires
                x >= 100,
        ;
    } else {
        assert(x / 100 == 0) by (nonlinear_arith)
            requires
                x < 100,
        ;
    }
}

/// A reported silence, `[start, end)` in frames, as a pair of integers.
pub open spec fn span_view(p: (u64, u64)) -> (int, int) {
    (p.0 as int, p.1 as int)
}

/// Streaming silence detector over fixed windows.
///
/// The caller feeds it one call of [`SilenceTracker::push_frame`] per decoded
/// frame; when a window is full it measures that window and reports the
/// verdict with [`SilenceTracker::close_window`]. [`SilenceTracker::finish`]
/// closes the last, possibly partial, window and returns the silences. State is
/// O(1) besides the silences found.
pub struct SilenceTracker {
    win_frames: u64,
    min_gap_frames: u64,
    win_filled: u64,
    frames_seen: u64,
    silence_start: Option<u64>,
    out: Vec<(u64, u64)>,
    verdicts: Ghost<Seq<bool>>,
}

/// What the tracker keeps about the closed windows `v`: the silences found so
/// far (`out`) and the start of the silence still open at the end (`open`)
/// together give the silences of `v` wherever the stream ends.
pub open spec fn runs_agree(
    v: Seq<bool>,
    out: Seq<(int, int)>,
    open: Option<int>,
    w: int,
    gap: int,
) -> bool {
    &&& (open is Some <==> (v.len() > 0 && v[v.len() - 1]))
    &&& (open matches Some(s) ==> 0 <= s && s + w <= v.len() * w)
    &&& forall|end: int|
        #[trigger] silence_spans(v, w, end, gap) == out + pending_span(open, end, gap)
}

pub open spec fn open_view(o: Option<u64>) -> Option<int> {
    match o {
        Some(s) => Some(s as int),
        None => None,
    }
}

/// What ending a non-silent window that starts at frame `ws` adds to the
/// silences found: the silence open since `start`, when there is one and it
/// spans at least `gap` frames.
pub open spec fn closed_by_loud(start: Option<int>, ws: int, gap: int) -> Seq<(u64, u64)> {
    match start {
        Some(s) => if ws - s >= gap { seq![(s as u64, ws as u64)] } else { Seq::empty() },
        None => Seq::empty(),
    }
}

impl SilenceTracker {
    /// Start frame of the silence still open at the last closed window.
    pub closed spec fn open_start(&self) -> Option<int> {
        open_view(self.silence_start)
    }

    /// Silences found so far, as `[start, end)` frame ranges.
    pub closed spec fn found(&self) -> Seq<(u64, u64)> {
        self.out@
    }

    /// Frames per analysis window.
    pub closed spec fn window_len(&self) -> nat {
        self.win_frames as nat
    }

    /// Minimum length of a reported silence, in frames.
    pub closed spec fn min_gap(&self) -> nat {
        self.min_gap_frames as nat
    }

    /// Frames pushed since the last closed window.
    pub closed spec fn filled(&self) -> nat {
        self.win_filled as nat
    }

    /// Frames pushed in all.
    pub closed spec fn frames(&self) -> nat {
        self.frames_seen as nat
    }

    /// Verdicts of the windows closed so far, in stream order.
    pub closed spec fn verdicts(&self) -> Seq<bool> {
        self.verdicts@
    }

    pub closed spec fn wf(&self) -> bool {
        &&& self.win_frames >= 1
        &&& self.win_filled <= self.win_frames
        &&& self.frames_seen == self.verdicts@.len() * self.win_frames + self.win_filled
        &&& runs_agree(
            self.verdicts@,
            self.out@.map_values(|p: (u64, u64)| span_view(p)),
            open_view(self.silence_start),
            self.win_frames as int,
            self.min_gap_frames as int,
        )
    }

    /// A tracker for a stream at `sample_rate` Hz that reports silences of at
    /// least `min_gap_frames` frames.
    pub fn new(sample_rate: u32, min_gap_frames: u64) -> (t: Self)
        ensures
            t.wf(),
            t.window_len() == window_frames_for(sample_rate as nat),
            sample_rate * 3 >= 100 ==> t.window_len() * 100 <= sample_rate * 3 < (t.window_len()
                + 1) * 100,
            sample_rate * 3 < 100 ==> t.window_len() == 1,
            t.min_gap() == min_gap_frames,
            t.filled() == 0,
            t.frames() == 0,
            t.verdicts() == Seq::<bool>::empty(),
            t.open_start() is None,
            t.found() == Seq::<(u64, u64)>::empty(),
    {
        let mut w: u64 = (sample_rate as u64) * 3 / 100;
        if w < 1 {
            w = 1;
        }
        let t = SilenceTracker {
            win_frames: w,
            min_gap_frames,
            win_filled: 0,
            frames_seen: 0,
            silence_start: None,
            out: Vec::new(),
            verdicts: Ghost(Seq::empty()),
        };
        proof {
            lemma_window_is_thirty_ms(sample_rate as nat);
            assert(t.verdicts@.len() == 0);
            assert(0 * w == 0) by (nonlinear_arith);
            assert(t.out@.map_values(|p: (u64, u64)| span_view(p)) =~= Seq::<(int, int)>::empty());
            assert forall|end: int| #[trigger]
                silence_spans(Seq::<bool>::empty(), w as int, end, min_gap_frames as int)
                    == Seq::<(int, int)>::empty() + pending_span(None, end, min_gap_frames as int) by {
                assert(Seq::<(int, int)>::empty() + pending_span(None, end, min_gap_frames as int)
                    =~= Seq::<(int, int)>::empty());
            }
        }
        t
    }

    /// Frames per analysis window.
    pub fn window_frames(&self) -> (n: u64)
        ensures
            n == self.window_len(),
    {
        self.win_frames
    }

    /// Frames pushed in all.
    pub fn frames_seen(&self) -> (n: u64)
        ensures
            n == self.frames(),
    {
        self.frames_seen
    }

    /// Frames pushed since the last closed window.
    pub fn window_filled(&self) -> (n: u64)
        ensures
            n == self.filled(),
    {
        self.win_filled
    }

    /// Counts one more decoded frame; returns whether the current window is
    /// now full, in which case the caller measures it and calls
    /// [`SilenceTracker::close_window`] before the next frame.
    pub fn push_frame(&mut self) -> (full: bool)
        requires
            old(self).wf(),
            old(self).filled() < old(self).window_len(),
            old(self).frames() < u64::MAX,
        ensures
            final(self).wf(),
            final(self).frames() == old(self).frames() + 1,
            final(self).filled() == old(self).filled() + 1,
            final(self).verdicts() == old(self).verdicts(),
            final(self).window_len() == old(self).window_len(),
            final(self).min_gap() == old(self).min_gap(),
            final(self).open_start() == old(self).open_start(),
            final(self).found() == old(self).found(),
            full == (final(self).filled() == final(self).window_len()),
    {
        self.win_filled = self.win_filled + 1;
        self.frames_seen = self.frames_seen + 1;
        self.win_filled >= self.win_frames
    }

    /// Records the verdict of the window that ends at the current frame and
    /// starts at frame `verdicts.len() * window_len`.
    fn record(&mut self, silent: bool, window_start: u64)
        requires
            old(self).win_frames >= 1,
            window_start == old(self).verdicts@.len() * old(self).win_frames,
            runs_agree(
                old(self).verdicts@,
                old(self).out@.map_values(|p: (u64, u64)| span_view(p)),
                open_view(old(self).silence_start),
                old(self).win_frames as int,
                old(self).min_gap_frames as int,
            ),
        ensures
            final(self).verdicts@ == old(self).verdicts@.push(silent),
            final(self).win_frames == old(self).win_frames,
            final(self).min_gap_frames == old(self).min_gap_frames,
            final(self).win_filled == old(self).win_filled,
            final(self).frames_seen == old(self).frames_seen,
            silent ==> final(self).silence_start == Some(
                match old(self).silence_start {
                    Some(s) => s,
                    None => window_start,
                },
            ) && final(self).out@ == old(self).out@,
            !silent ==> final(self).silence_start is None && final(self).out@ == old(self).out@
                + closed_by_loud(
                open_view(old(self).silence_start),
                window_start as int,
                old(self).min_gap_frames as int,
            ),
            runs_agree(
                final(self).verdicts@,
                final(self).out@.map_values(|p: (u64, u64)| span_view(p)),
                open_view(final(self).silence_start),
                final(self).win_frames as int,
                final(self).min_gap_frames as int,
            ),
    {
        let ghost v = self.verdicts@;
        let ghost w = self.win_frames as int;
        let ghost gap = self.min_gap_frames as int;
        let ghost out0 = self.out@.map_values(|p: (u64, u64)| span_view(p));
        let ghost n = v.len() as int;
        proof {
            assert((n + 1) * w == n * w + w) by (nonlinear_arith);
        }
        if silent {
            match self.silence_start {
                None => {
                    self.silence_start = Some(window_start);
                    proof {
                        assert forall|end: int| #[trigger]
                            silence_spans(v.push(true), w, end, gap)
                                == out0 + pending_span(Some(window_start as int), end, gap) by {
                            lemma_spans_push_silent_fresh(v, 0, w, end, gap);
                            assert(silence_spans(v, w, n * w, gap) == out0 + pending_span(None, n * w, gap));
                            assert(out0 + pending_span(None, n * w, gap) =~= out0);
                        }
                    }
                },
                Some(_) => {
                    proof {
                        assert forall|end: int| #[trigger]
                            silence_spans(v.push(true), w, end, gap)
                                == out0 + pending_span(open_view(self.silence_start), end, gap) by {
                            lemma_spans_push_silent_extend(v, 0, w, end, gap);
                            assert(silence_spans(v, w, end, gap)
                                == out0 + pending_span(open_view(self.silence_start), end, gap));
                        }
                    }
                },
            }
        } else {
            match self.silence_start {
                None => {
                    proof {
                        assert forall|end: int| #[trigger]
                            silence_spans(v.push(false), w, end, gap)
                                == out0 + pending_span(None, end, gap) by {
                            lemma_spans_push_loud(v, 0, w, end, gap);
                            assert(silence_spans(v, w, n * w, gap) == out0 + pending_span(None, n * w, gap));
                            assert(out0 + pending_span(None, n * w, gap) =~= out0);
                            assert(out0 + pending_span(None, end, gap) =~= out0);
                        }
                    }
                },
                Some(start) => {
                    if window_start - start >= self.min_gap_frames {
                        self.out.push((start, window_start));
                    }
                    self.silence_start = None;
                    proof {
                        let out1 = self.out@.map_values(|p: (u64, u64)| span_view(p));
                        assert(silence_spans(v, w, n * w, gap)
                            == out0 + pending_span(Some(start as int), n * w, gap));
                        if window_start - start >= gap {
                            assert(out1 =~= out0 + seq![(start as int, window_start as int)]);
                        } else {
                            assert(out1 =~= out0 + Seq::<(int, int)>::empty());
                        }
                        assert forall|end: int| #[trigger]
                            silence_spans(v.push(false), w, end, gap)
                                == out1 + pending_span(None, end, gap) by {
                            lemma_spans_push_loud(v, 0, w, end, gap);
                            assert(out1 + pending_span(None, end, gap) =~= out1);
                        }
                    }
                },
            }
        }
        self.verdicts = Ghost(v.push(silent));
    }

    /// Ends the current window, which is full, and records whether it was
    /// silent (its RMS level below the threshold).
    pub fn close_window(&mut self, silent: bool)
        requires
            old(self).wf(),
            old(self).filled() == old(self).window_len(),
        ensures
            final(self).wf(),
            final(self).verdicts() == old(self).verdicts().push(silent),
            silent ==> final(self).open_start() == Some(
                match old(self).open_start() {
                    Some(s) => s,
                    None => old(self).frames() - old(self).filled(),
                },
            ) && final(self).found() == old(self).found(),
            !silent ==> final(self).open_start() is None && final(self).found() == old(self).found()
                + closed_by_loud(
                old(self).open_start(),
                old(self).frames() - old(self).filled(),
                old(self).min_gap() as int,
            ),
            final(self).filled() == 0,
            final(self).frames() == old(self).frames(),
            final(self).window_len() == old(self).window_len(),
            final(self).min_gap() == old(self).min_gap(),
    {
        let window_start = self.frames_seen - self.win_filled;
        self.record(silent, window_start);
        self.win_filled = 0;
        proof {
            let n = old(self).verdicts@.len() as int;
            let w = self.win_frames as int;
            assert((n + 1) * w == n * w + w) by (nonlinear_arith);
        }
    }

    /// Ends the stream: closes the last window when it holds any frames, with
    /// verdict `last_silent`, and returns the silences as `[start, end)` frame
    /// ranges, the last of which may end at the stream's end.
    pub fn finish(self, last_silent: bool) -> (spans: Vec<(u64, u64)>)
        requires
            self.wf(),
        ensures
            spans@.map_values(|p: (u64, u64)| span_view(p)) == silence_spans(
                if self.filled() > 0 { self.verdicts().push(last_silent) } else { self.verdicts() },
                self.window_len() as int,
                self.frames() as int,
                self.min_gap() as int,
            ),
            forall|k: int| 0 <= k < spans.len() ==> #[trigger] spans@[k].0 < spans@[k].1 <= self.frames(),
            forall|k: int|
                0 <= k < spans.len() ==> #[trigger] spans@[k].1 - spans@[k].0 >= self.min_gap(),
            forall|k: int| 0 <= k < spans.len() ==> (#[trigger] spans@[k].0 as int) % (self.window_len() as int) == 0,
            forall|k: int| 0 <= k < spans.len() - 1 ==> #[trigger] spans@[k].1 < spans@[k + 1].0,
    {
        let mut t = self;
        let ghost v0 = t.verdicts@;
        if t.win_filled > 0 {
            let window_start = t.frames_seen - t.win_filled;
            t.record(last_silent, window_start);
        }
        let end = t.frames_seen;
        let ghost v = t.verdicts@;
        let ghost w = t.win_frames as int;
        let ghost gap = t.min_gap_frames as int;
        let ghost out0 = t.out@.map_values(|p: (u64, u64)| span_view(p));
        proof {
            let n0 = v0.len() as int;
            assert((n0 + 1) * w == n0 * w + w) by (nonlinear_arith);
            assert(silence_spans(v, w, end as int, gap) == out0 + pending_span(open_view(t.silence_start), end as int, gap));
        }
        match t.silence_start {
            Some(start) => {
                if end - start >= t.min_gap_frames {
                    t.out.push((start, end));
                    proof {
                        assert(t.out@.map_values(|p: (u64, u64)| span_view(p))
                            =~= out0 + pending_span(open_view(Some(start)), end as int, gap));
                    }
                } else {
                    proof {
                        assert(out0 =~= out0 + pending_span(open_view(Some(start)), end as int, gap));
                    }
                }
            },
            None => {
                proof {
                    assert(out0 =~= out0 + pending_span(None, end as int, gap));
                }
            },
        }
        proof {
            let vf = t.verdicts@;
            let nf = vf.len() as int;
            assert((nf - 1) * w + w == nf * w) by (nonlinear_arith);
            if nf > 0 {
                assert((nf - 1) * w < end);
            }
            lemma_silence_spans_shape(vf, w, end as int, gap);
            let sv = t.out@.map_values(|p: (u64, u64)| span_view(p));
            assert(sv == silence_spans(vf, w, end as int, gap));
            assert forall|k: int| 0 <= k < t.out@.len() implies #[trigger] t.out@[k] == (sv[k].0 as u64, sv[k].1 as u64) by {
                assert(sv[k] == span_view(t.out@[k]));
            }
            assert forall|k: int| 0 <= k < t.out@.len() - 1 implies #[trigger] t.out@[k].1 < t.out@[k + 1].0 by {
                assert(sv[k] == span_view(t.out@[k]));
                assert(sv[k + 1] == span_view(t.out@[k + 1]));
            }
        }
        t.out
    }
}

} // verus!
