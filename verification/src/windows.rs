//! Visibility-window extraction.
//!
//! A window is a maximal contiguous stretch of samples whose elevation meets
//! a threshold. The extractor walks the time-ordered sample sequence with a
//! two-state machine — outside a window, or inside one with an accumulator —
//! and emits each window with its span, duration, samples, and peak
//! elevation together with the time of the first sample attaining it.

use vstd::prelude::*;

use crate::series::ObservationSample;

verus! {

/// A maximal above-threshold stretch of the series, with the peak elevation
/// and the time of the first sample that reaches it.
#[derive(Debug)]
pub struct VisibilityWindow {
    pub start_s: i64,
    pub end_s: i64,
    pub duration_s: i64,
    pub max_elevation_cdeg: i64,
    pub max_elevation_time_s: i64,
    pub samples: Vec<ObservationSample>,
}

/// A sample is visible when its elevation meets the threshold.
pub open spec fn is_visible(s: ObservationSample, thr: int) -> bool {
    s.elevation_cdeg >= thr
}

/// The maximal visible index stretches of `s` from position `i` on, as
/// inclusive `(first, last)` pairs; `open` carries the first index of a
/// stretch that is still growing.
pub open spec fn runs_from(s: Seq<ObservationSample>, thr: int, i: int, open: Option<int>) -> Seq<(int, int)>
    decreases s.len() - i,
{
    if i >= s.len() {
        match open {
            Option::Some(st) => seq![(st, s.len() - 1)],
            Option::None => Seq::empty(),
        }
    } else if is_visible(s[i], thr) {
        runs_from(s, thr, i + 1, Option::Some(match open {
            Option::Some(st) => st,
            Option::None => i,
        }))
    } else {
        match open {
            Option::Some(st) => seq![(st, i - 1)] + runs_from(s, thr, i + 1, Option::None),
            Option::None => runs_from(s, thr, i + 1, Option::None),
        }
    }
}

/// The maximal visible stretches of the whole series.
pub open spec fn visibility_runs(s: Seq<ObservationSample>, thr: int) -> Seq<(int, int)> {
    runs_from(s, thr, 0, Option::None)
}

/// The largest elevation among the samples.
pub open spec fn max_elevation_of(s: Seq<ObservationSample>) -> int
    recommends
        s.len() >= 1,
    decreases s.len(),
{
    if s.len() <= 1 {
        s[0].elevation_cdeg as int
    } else {
        let prev = max_elevation_of(s.drop_last());
        if s.last().elevation_cdeg > prev {
            s.last().elevation_cdeg as int
        } else {
            prev
        }
    }
}

/// The index of the first sample attaining the largest elevation.
pub open spec fn first_max_index(s: Seq<ObservationSample>) -> int
    recommends
        s.len() >= 1,
    decreases s.len(),
{
    if s.len() <= 1 {
        0
    } else {
        let m = first_max_index(s.drop_last());
        if s.last().elevation_cdeg > s[m].elevation_cdeg {
            s.len() - 1
        } else {
            m
        }
    }
}

/// `first_max_index` points at the first sample whose elevation is the
/// maximum of the sequence.
pub proof fn lemma_first_max(s: Seq<ObservationSample>)
    requires
        s.len() >= 1,
    ensures
        0 <= first_max_index(s) < s.len(),
        s[first_max_index(s)].elevation_cdeg == max_elevation_of(s),
        forall|k: int| 0 <= k < first_max_index(s) ==> s[k].elevation_cdeg < max_elevation_of(s),
        forall|k: int| 0 <= k < s.len() ==> s[k].elevation_cdeg <= max_elevation_of(s),
    decreases s.len(),
{
    if s.len() > 1 {
        let d = s.drop_last();
        lemma_first_max(d);
        let m = first_max_index(d);
        assert(s[m] == d[m]);
        assert forall|k: int| 0 <= k < s.len() implies s[k].elevation_cdeg <= max_elevation_of(s) by {
            if k < s.len() - 1 {
                assert(s[k] == d[k]);
            }
        }
        assert forall|k: int| 0 <= k < first_max_index(s) implies
            s[k].elevation_cdeg < max_elevation_of(s) by {
            if k < s.len() - 1 {
                assert(s[k] == d[k]);
            }
        }
    }
}

/// The window `w` renders the inclusive index stretch `[a, b]` of the series
/// `s`: it spans the stretch's first and last sample times, carries exactly
/// the stretch's samples, and reports the peak elevation with the time of
/// the first sample attaining it.
pub open spec fn window_matches_run(w: VisibilityWindow, s: Seq<ObservationSample>, a: int, b: int) -> bool {
    let sub = s.subrange(a, b + 1);
    &&& w.samples@ == sub
    &&& w.start_s == s[a].time_s
    &&& w.end_s == s[b].time_s
    &&& w.duration_s == s[b].time_s - s[a].time_s
    &&& w.max_elevation_cdeg == max_elevation_of(sub)
    &&& w.max_elevation_time_s == sub[first_max_index(sub)].time_s
}

/// The emitted windows render the maximal visible stretches of the series,
/// in series order, one window per stretch.
pub open spec fn windows_match(ws: Seq<VisibilityWindow>, s: Seq<ObservationSample>, thr: int) -> bool {
    let runs = visibility_runs(s, thr);
    &&& ws.len() == runs.len()
    &&& forall|k: int| 0 <= k < runs.len() ==>
        window_matches_run(#[trigger] ws[k], s, runs[k].0, runs[k].1)
}

/// A single stretch is sound: its bounds index the series, every sample in
/// it is visible, and the sample just past it (when one exists) is not.
pub open spec fn run_ok(s: Seq<ObservationSample>, thr: int, r: (int, int)) -> bool {
    &&& 0 <= r.0 <= r.1 < s.len()
    &&& forall|k: int| r.0 <= k <= r.1 ==> is_visible(#[trigger] s[k], thr)
    &&& (r.1 + 1 < s.len() ==> !is_visible(s[r.1 + 1], thr))
}

/// The stretch `r` contains the index `k`.
pub open spec fn run_covers(r: (int, int), k: int) -> bool {
    r.0 <= k <= r.1
}

/// The sample times never decrease as the series advances.
pub open spec fn times_strictly_increasing(s: Seq<ObservationSample>) -> bool {
    forall|i: int, j: int| 0 <= i < j < s.len() ==> s[i].time_s < s[j].time_s
}

proof fn lemma_runs_from_ok(s: Seq<ObservationSample>, thr: int, i: int, open: Option<int>)
    requires
        0 <= i <= s.len(),
        open matches Option::Some(st) ==> 0 <= st < i
            && (forall|k: int| st <= k < i ==> is_visible(#[trigger] s[k], thr)),
    ensures ({
        let runs = runs_from(s, thr, i, open);
        &&& forall|n: int| 0 <= n < runs.len() ==> run_ok(s, thr, #[trigger] runs[n])
        &&& forall|n: int, m: int| 0 <= n < m < runs.len() ==>
            (#[trigger] runs[n]).1 + 2 <= (#[trigger] runs[m]).0
        &&& (open matches Option::Some(st) ==> runs.len() >= 1 && runs[0].0 == st
            && runs[0].1 >= i - 1
            && (forall|n: int| 1 <= n < runs.len() ==> (#[trigger] runs[n]).0 >= i + 1))
        &&& (open is None ==> forall|n: int| 0 <= n < runs.len() ==> (#[trigger] runs[n]).0 >= i)
        &&& (forall|k: int| i <= k < s.len() && is_visible(#[trigger] s[k], thr) ==>
            exists|n: int| 0 <= n < runs.len() && run_covers(#[trigger] runs[n], k))
    }),
    decreases s.len() - i,
{
    let runs = runs_from(s, thr, i, open);
    if i >= s.len() {
        // the trailing open stretch, if any, closes on the final sample
    } else if is_visible(s[i], thr) {
        let st = match open {
            Option::Some(st) => st,
            Option::None => i,
        };
        lemma_runs_from_ok(s, thr, i + 1, Option::Some(st));
        assert forall|k: int| i <= k < s.len() && is_visible(#[trigger] s[k], thr) implies
            exists|n: int| 0 <= n < runs.len() && run_covers(#[trigger] runs[n], k) by {
            if k == i {
                assert(run_covers(runs[0], k));
            }
        }
    } else {
        lemma_runs_from_ok(s, thr, i + 1, Option::None);
        let rest = runs_from(s, thr, i + 1, Option::None);
        match open {
            Option::Some(st) => {
                assert(runs == seq![(st, i - 1)] + rest);
                assert(runs[0] == (st, i - 1));
                assert forall|n: int| 0 <= n < runs.len() implies run_ok(s, thr, #[trigger] runs[n]) by {
                    if n >= 1 {
                        assert(runs[n] == rest[n - 1]);
                    }
                }
                assert forall|n: int, m: int| 0 <= n < m < runs.len() implies
                    (#[trigger] runs[n]).1 + 2 <= (#[trigger] runs[m]).0 by {
                    assert(runs[m] == rest[m - 1]);
                    if n >= 1 {
                        assert(runs[n] == rest[n - 1]);
                    }
                }
                assert forall|n: int| 1 <= n < runs.len() implies (#[trigger] runs[n]).0 >= i + 1 by {
                    assert(runs[n] == rest[n - 1]);
                }
                assert forall|k: int| i <= k < s.len() && is_visible(#[trigger] s[k], thr) implies
                    exists|n: int| 0 <= n < runs.len() && run_covers(#[trigger] runs[n], k) by {
                    if k > i {
                        let n0 = choose|n0: int| 0 <= n0 < rest.len() && run_covers(#[trigger] rest[n0], k);
                        assert(runs[n0 + 1] == rest[n0]);
                        assert(run_covers(runs[n0 + 1], k));
                    }
                }
            }
            Option::None => {
                // the suffix scan owns every remaining stretch unchanged
            }
        }
    }
}

/// The maximal visible stretches of a series are sound stretches, ordered
/// with at least one below-threshold sample between consecutive ones, and
/// together they cover every visible sample.
pub proof fn lemma_visibility_runs_ok(s: Seq<ObservationSample>, thr: int)
    ensures ({
        let runs = visibility_runs(s, thr);
        &&& forall|n: int| 0 <= n < runs.len() ==> run_ok(s, thr, #[trigger] runs[n])
        &&& forall|n: int, m: int| 0 <= n < m < runs.len() ==>
            (#[trigger] runs[n]).1 + 2 <= (#[trigger] runs[m]).0
        &&& (forall|k: int| 0 <= k < s.len() && is_visible(#[trigger] s[k], thr) ==>
            exists|n: int| 0 <= n < runs.len() && run_covers(#[trigger] runs[n], k))
    }),
{
    lemma_runs_from_ok(s, thr, 0, Option::None);
    assert(visibility_runs(s, thr) == runs_from(s, thr, 0, Option::None));
}

/// Law: every sample carried by an emitted window meets the threshold, every
/// window carries at least one sample, and the series sample immediately
/// after a window's last one — when the series goes on — is below the
/// threshold.
pub proof fn lemma_window_containment(ws: Seq<VisibilityWindow>, s: Seq<ObservationSample>, thr: int)
    requires
        windows_match(ws, s, thr),
    ensures
        forall|k: int, j: int| 0 <= k < ws.len() && 0 <= j < ws[k].samples@.len() ==>
            (#[trigger] ws[k].samples@[j]).elevation_cdeg >= thr,
        forall|k: int| 0 <= k < ws.len() ==> (#[trigger] ws[k]).samples@.len() >= 1,
        forall|k: int| 0 <= k < ws.len() ==> {
            let r = visibility_runs(s, thr)[k];
            &&& (#[trigger] ws[k]).samples@ == s.subrange(r.0, r.1 + 1)
            &&& ws[k].samples@[ws[k].samples@.len() - 1] == s[r.1]
            &&& (r.1 + 1 < s.len() ==> s[r.1 + 1].elevation_cdeg < thr)
        },
{
    lemma_visibility_runs_ok(s, thr);
    let runs = visibility_runs(s, thr);
    assert forall|k: int, j: int| 0 <= k < ws.len() && 0 <= j < ws[k].samples@.len() implies
        (#[trigger] ws[k].samples@[j]).elevation_cdeg >= thr by {
        let r = runs[k];
        assert(run_ok(s, thr, r));
        assert(ws[k].samples@[j] == s[r.0 + j]);
        assert(is_visible(s[r.0 + j], thr));
    }
    assert forall|k: int| 0 <= k < ws.len() implies (#[trigger] ws[k]).samples@.len() >= 1 by {
        assert(run_ok(s, thr, runs[k]));
    }
}

/// Law: windows are disjoint and ordered by start time — each closes
/// strictly before the next opens — and within a window the start never
/// passes the end, every sample time lying between the two; the duration is
/// their non-negative difference.
pub proof fn lemma_windows_disjoint_ordered(ws: Seq<VisibilityWindow>, s: Seq<ObservationSample>, thr: int)
    requires
        windows_match(ws, s, thr),
        times_strictly_increasing(s),
    ensures
        forall|n: int, m: int| 0 <= n < m < ws.len() ==>
            (#[trigger] ws[n]).end_s < (#[trigger] ws[m]).start_s,
        forall|k: int| 0 <= k < ws.len() ==> (#[trigger] ws[k]).start_s <= ws[k].end_s,
        forall|k: int, j: int| 0 <= k < ws.len() && 0 <= j < ws[k].samples@.len() ==>
            ws[k].start_s <= (#[trigger] ws[k].samples@[j]).time_s <= ws[k].end_s,
        forall|k: int| 0 <= k < ws.len() ==>
            (#[trigger] ws[k]).duration_s == ws[k].end_s - ws[k].start_s && ws[k].duration_s >= 0,
{
    lemma_visibility_runs_ok(s, thr);
    let runs = visibility_runs(s, thr);
    assert forall|n: int, m: int| 0 <= n < m < ws.len() implies
        (#[trigger] ws[n]).end_s < (#[trigger] ws[m]).start_s by {
        assert(run_ok(s, thr, runs[n]));
        assert(run_ok(s, thr, runs[m]));
    }
    assert forall|k: int| 0 <= k < ws.len() implies (#[trigger] ws[k]).start_s <= ws[k].end_s by {
        assert(run_ok(s, thr, runs[k]));
        let r = runs[k];
        if r.0 < r.1 {
            assert(s[r.0].time_s < s[r.1].time_s);
        }
    }
    assert forall|k: int, j: int| 0 <= k < ws.len() && 0 <= j < ws[k].samples@.len() implies
        ws[k].start_s <= (#[trigger] ws[k].samples@[j]).time_s <= ws[k].end_s by {
        assert(run_ok(s, thr, runs[k]));
        let r = runs[k];
        assert(ws[k].samples@[j] == s[r.0 + j]);
        if r.0 < r.0 + j {
            assert(s[r.0].time_s < s[r.0 + j].time_s);
        }
        if r.0 + j < r.1 {
            assert(s[r.0 + j].time_s < s[r.1].time_s);
        }
    }
}

/// Law: a window's reported peak elevation is the true maximum over its
/// samples, and the reported time is that of the first sample attaining it.
pub proof fn lemma_max_elevation(ws: Seq<VisibilityWindow>, s: Seq<ObservationSample>, thr: int)
    requires
        windows_match(ws, s, thr),
    ensures
        forall|k: int, j: int| 0 <= k < ws.len() && 0 <= j < ws[k].samples@.len() ==>
            (#[trigger] ws[k].samples@[j]).elevation_cdeg <= ws[k].max_elevation_cdeg,
        forall|k: int| 0 <= k < ws.len() ==> {
            let m = first_max_index((#[trigger] ws[k]).samples@);
            &&& 0 <= m < ws[k].samples@.len()
            &&& ws[k].samples@[m].elevation_cdeg == ws[k].max_elevation_cdeg
            &&& ws[k].max_elevation_time_s == ws[k].samples@[m].time_s
            &&& (forall|j: int| 0 <= j < m ==>
                ws[k].samples@[j].elevation_cdeg < ws[k].max_elevation_cdeg)
        },
{
    lemma_visibility_runs_ok(s, thr);
    let runs = visibility_runs(s, thr);
    assert forall|k: int, j: int| 0 <= k < ws.len() && 0 <= j < ws[k].samples@.len() implies
        (#[trigger] ws[k].samples@[j]).elevation_cdeg <= ws[k].max_elevation_cdeg by {
        assert(run_ok(s, thr, runs[k]));
        lemma_first_max(ws[k].samples@);
    }
    assert forall|k: int| 0 <= k < ws.len() implies ({
        let m = first_max_index((#[trigger] ws[k]).samples@);
        &&& 0 <= m < ws[k].samples@.len()
        &&& ws[k].samples@[m].elevation_cdeg == ws[k].max_elevation_cdeg
        &&& ws[k].max_elevation_time_s == ws[k].samples@[m].time_s
        &&& (forall|j: int| 0 <= j < m ==>
            ws[k].samples@[j].elevation_cdeg < ws[k].max_elevation_cdeg)
    }) by {
        assert(run_ok(s, thr, runs[k]));
        lemma_first_max(ws[k].samples@);
    }
}

/// Law: a series whose every elevation is below the threshold yields no
/// window at all.
pub proof fn lemma_never_visible(ws: Seq<VisibilityWindow>, s: Seq<ObservationSample>, thr: int)
    requires
        windows_match(ws, s, thr),
        forall|i: int| 0 <= i < s.len() ==> (#[trigger] s[i]).elevation_cdeg < thr,
    ensures
        ws.len() == 0,
{
    lemma_visibility_runs_ok(s, thr);
    let runs = visibility_runs(s, thr);
    if runs.len() >= 1 {
        assert(run_ok(s, thr, runs[0]));
        assert(is_visible(s[runs[0].0], thr));
    }
}

/// Law: a series whose every elevation meets the threshold yields exactly
/// one window, spanning the whole series from its first instant to its last.
pub proof fn lemma_always_visible(ws: Seq<VisibilityWindow>, s: Seq<ObservationSample>, thr: int)
    requires
        windows_match(ws, s, thr),
        s.len() >= 1,
        forall|i: int| 0 <= i < s.len() ==> (#[trigger] s[i]).elevation_cdeg >= thr,
    ensures
        ws.len() == 1,
        ws[0].samples@ == s,
        ws[0].start_s == s[0].time_s,
        ws[0].end_s == s[s.len() - 1].time_s,
{
    lemma_visibility_runs_ok(s, thr);
    let runs = visibility_runs(s, thr);
    assert(is_visible(s[0], thr));
    let n = choose|n: int| 0 <= n < runs.len() && run_covers(#[trigger] runs[n], 0);
    assert(run_ok(s, thr, runs[n]));
    assert(runs[n].0 == 0);
    assert(runs[n].1 == s.len() - 1) by {
        if runs[n].1 + 1 < s.len() {
            assert(is_visible(s[runs[n].1 + 1], thr));
        }
    }
    assert(n == 0) by {
        if n > 0 {
            assert(run_ok(s, thr, runs[0]));
            assert(runs[0].1 + 2 <= runs[n].0);
        }
    }
    assert(runs.len() == 1) by {
        if runs.len() > 1 {
            assert(run_ok(s, thr, runs[1]));
            assert(runs[0].1 + 2 <= runs[1].0);
        }
    }
    assert(ws[0].samples@ == s.subrange(0, s.len() as int));
    assert(s.subrange(0, s.len() as int) =~= s);
}

/// Law: when the above-threshold stretch runs through the final sample, the
/// last emitted window closes exactly on the series' last instant.
pub proof fn lemma_visible_at_truncation(ws: Seq<VisibilityWindow>, s: Seq<ObservationSample>, thr: int)
    requires
        windows_match(ws, s, thr),
        s.len() >= 1,
        s[s.len() - 1].elevation_cdeg >= thr,
    ensures
        ws.len() >= 1,
        ws[ws.len() - 1].end_s == s[s.len() - 1].time_s,
{
    lemma_visibility_runs_ok(s, thr);
    let runs = visibility_runs(s, thr);
    let last = s.len() - 1;
    assert(is_visible(s[last], thr));
    let n = choose|n: int| 0 <= n < runs.len() && run_covers(#[trigger] runs[n], last);
    assert(run_ok(s, thr, runs[n]));
    assert(runs[n].1 == last);
    assert(n == runs.len() - 1) by {
        if n < runs.len() - 1 {
            assert(run_ok(s, thr, runs[runs.len() - 1]));
            assert(runs[n].1 + 2 <= runs[runs.len() - 1].0);
        }
    }
}

/// Law: extraction is a function of the sample sequence and the threshold —
/// two window sequences that both render the same series agree on every
/// field of every window.
pub proof fn lemma_extraction_deterministic(w1: Seq<VisibilityWindow>, w2: Seq<VisibilityWindow>, s: Seq<ObservationSample>, thr: int)
    requires
        windows_match(w1, s, thr),
        windows_match(w2, s, thr),
    ensures
        w1.len() == w2.len(),
        forall|k: int| 0 <= k < w1.len() ==> {
            &&& (#[trigger] w1[k]).start_s == w2[k].start_s
            &&& w1[k].end_s == w2[k].end_s
            &&& w1[k].duration_s == w2[k].duration_s
            &&& w1[k].max_elevation_cdeg == w2[k].max_elevation_cdeg
            &&& w1[k].max_elevation_time_s == w2[k].max_elevation_time_s
            &&& w1[k].samples@ == w2[k].samples@
        },
{
}

/// The growing window while the scan is inside a visible stretch.
struct OpenWindow {
    start_s: i64,
    max_elevation_cdeg: i64,
    max_elevation_time_s: i64,
    samples: Vec<ObservationSample>,
}

/// Scans the time-ordered samples and groups the contiguous stretches at or
/// above the threshold into visibility windows. A window closes on the
/// sample before the first below-threshold sample — or, when the series ends
/// while a window is open, on the last sample. A series with no visible
/// sample yields no window.
pub fn find_visibility_windows(samples: &Vec<ObservationSample>, min_elevation_cdeg: i64) -> (windows: Vec<VisibilityWindow>)
    requires
        forall|i: int| 0 <= i < samples@.len() ==> (#[trigger] samples@[i]).wf(),
    ensures
        windows_match(windows@, samples@, min_elevation_cdeg as int),
{
    let ghost gthr: int = min_elevation_cdeg as int;
    let n = samples.len();
    let mut windows: Vec<VisibilityWindow> = Vec::new();
    let mut open: Option<OpenWindow> = None;
    let ghost mut emitted: Seq<(int, int)> = Seq::empty();
    let ghost mut st: int = 0;
    let mut i: usize = 0;
    while i < n
        invariant
            n == samples@.len(),
            forall|k: int| 0 <= k < samples@.len() ==> (#[trigger] samples@[k]).wf(),
            i <= n,
            gthr == min_elevation_cdeg as int,
            windows@.len() == emitted.len(),
            forall|k: int| 0 <= k < emitted.len() ==>
                window_matches_run(#[trigger] windows@[k], samples@, emitted[k].0, emitted[k].1),
            open is Some ==> visibility_runs(samples@, gthr)
                == emitted + runs_from(samples@, gthr, i as int, Option::Some(st)),
            open is None ==> visibility_runs(samples@, gthr)
                == emitted + runs_from(samples@, gthr, i as int, Option::None),
            open is Some ==> 0 <= st < i as int,
            open is Some ==> forall|k: int| st <= k < i as int ==> is_visible(#[trigger] samples@[k], gthr),
            open matches Some(ow) ==> {
                let sub = samples@.subrange(st, i as int);
                &&& ow.samples@ == sub
                &&& ow.start_s == samples@[st].time_s
                &&& ow.max_elevation_cdeg == max_elevation_of(sub)
                &&& ow.max_elevation_time_s == sub[first_max_index(sub)].time_s
            },
        decreases n - i,
    {
        let s = samples[i];
        if s.elevation_cdeg >= min_elevation_cdeg {
            open = match open {
                None => {
                    proof {
                        assert(runs_from(samples@, gthr, i as int, Option::None)
                            == runs_from(samples@, gthr, i as int + 1, Option::Some(i as int)));
                        st = i as int;
                    }
                    let mut acc: Vec<ObservationSample> = Vec::new();
                    acc.push(s);
                    proof {
                        assert(acc@ =~= samples@.subrange(i as int, i as int + 1));
                    }
                    Some(OpenWindow {
                        start_s: s.time_s,
                        max_elevation_cdeg: s.elevation_cdeg,
                        max_elevation_time_s: s.time_s,
                        samples: acc,
                    })
                }
                Some(mut ow) => {
                    proof {
                        assert(runs_from(samples@, gthr, i as int, Option::Some(st))
                            == runs_from(samples@, gthr, i as int + 1, Option::Some(st)));
                        lemma_first_max(samples@.subrange(st, i as int));
                    }
                    let ghost old_sub = samples@.subrange(st, i as int);
                    if s.elevation_cdeg > ow.max_elevation_cdeg {
                        ow.max_elevation_cdeg = s.elevation_cdeg;
                        ow.max_elevation_time_s = s.time_s;
                    }
                    ow.samples.push(s);
                    proof {
                        let sub = samples@.subrange(st, i as int + 1);
                        assert(sub.drop_last() =~= old_sub);
                        assert(sub.last() == samples@[i as int]);
                        assert(ow.samples@ =~= sub);
                    }
                    Some(ow)
                }
            };
        } else {
            open = match open {
                Some(ow) => {
                    proof {
                        assert(runs_from(samples@, gthr, i as int, Option::Some(st))
                            == seq![(st, i as int - 1)]
                                + runs_from(samples@, gthr, i as int + 1, Option::None));
                        assert(samples@.subrange(st, i as int).len() >= 1);
                        assert(samples@.subrange(st, i as int).last() == samples@[i as int - 1]);
                    }
                    let end_s = ow.samples[ow.samples.len() - 1].time_s;
                    let w = VisibilityWindow {
                        start_s: ow.start_s,
                        end_s,
                        duration_s: end_s - ow.start_s,
                        max_elevation_cdeg: ow.max_elevation_cdeg,
                        max_elevation_time_s: ow.max_elevation_time_s,
                        samples: ow.samples,
                    };
                    proof {
                        assert(window_matches_run(w, samples@, st, i as int - 1));
                    }
                    windows.push(w);
                    proof {
                        let rest = runs_from(samples@, gthr, i as int + 1, Option::None);
                        assert(emitted + (seq![(st, i as int - 1)] + rest)
                            =~= emitted.push((st, i as int - 1)) + rest);
                        emitted = emitted.push((st, i as int - 1));
                    }
                    None
                }
                None => {
                    proof {
                        assert(runs_from(samples@, gthr, i as int, Option::None)
                            == runs_from(samples@, gthr, i as int + 1, Option::None));
                    }
                    None
                }
            };
        }
        i = i + 1;
    }
    match open {
        Some(ow) => {
            proof {
                assert(runs_from(samples@, gthr, n as int, Option::Some(st))
                    =~= seq![(st, n as int - 1)]);
                assert(samples@.subrange(st, n as int).last() == samples@[n as int - 1]);
            }
            let end_s = ow.samples[ow.samples.len() - 1].time_s;
            let w = VisibilityWindow {
                start_s: ow.start_s,
                end_s,
                duration_s: end_s - ow.start_s,
                max_elevation_cdeg: ow.max_elevation_cdeg,
                max_elevation_time_s: ow.max_elevation_time_s,
                samples: ow.samples,
            };
            proof {
                assert(window_matches_run(w, samples@, st, n as int - 1));
                assert(emitted + seq![(st, n as int - 1)] =~= emitted.push((st, n as int - 1)));
                emitted = emitted.push((st, n as int - 1));
            }
            windows.push(w);
        }
        None => {
            proof {
                assert(emitted + runs_from(samples@, gthr, n as int, Option::None) =~= emitted);
            }
        }
    }
    windows
}

} // verus!
