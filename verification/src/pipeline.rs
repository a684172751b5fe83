//! The pipeline driver: per test case it assembles the observation series,
//! extracts the visibility windows, and renders them with textual
//! timestamps. Propagation failures abort the whole series — a partial
//! series is discarded, never returned.

use vstd::prelude::*;

use crate::errors::PipelineError;
use crate::instant::instant_in_range;
use crate::series::{Measurement, ObservationSample, spec_samples, build_samples};
use crate::timestamp::{utc_timestamp_of, format_utc_timestamp};
use crate::windows::{
    VisibilityWindow, windows_match, times_strictly_increasing, first_max_index, lemma_first_max,
    lemma_visibility_runs_ok, run_ok, lemma_extraction_deterministic, find_visibility_windows,
    visibility_runs,
};

verus! {

/// Gathers the per-instant propagation outcomes of a series: all of them, or
/// the propagation error exactly when any instant failed — the partially
/// built series is discarded, not returned.
pub fn collect_propagated(outcomes: &Vec<Option<Measurement>>) -> (r: Result<Vec<Measurement>, PipelineError>)
    ensures
        match r {
            Ok(ms) => {
                &&& ms@.len() == outcomes@.len()
                &&& forall|i: int| 0 <= i < outcomes@.len() ==> #[trigger] outcomes@[i] == Some(ms@[i])
            },
            Err(e) => {
                &&& e == PipelineError::Propagation
                &&& exists|i: int| 0 <= i < outcomes@.len() && #[trigger] outcomes@[i] is None
            },
        },
        r is Ok <==> (forall|i: int| 0 <= i < outcomes@.len() ==> #[trigger] outcomes@[i] is Some),
{
    let mut ms: Vec<Measurement> = Vec::new();
    let mut i: usize = 0;
    while i < outcomes.len()
        invariant
            i <= outcomes@.len(),
            ms@.len() == i,
            forall|k: int| 0 <= k < i ==> #[trigger] outcomes@[k] == Some(ms@[k]),
        decreases outcomes@.len() - i,
    {
        match outcomes[i] {
            Some(m) => {
                ms.push(m);
            },
            None => {
                return Err(PipelineError::Propagation);
            },
        }
        i = i + 1;
    }
    Ok(ms)
}

/// Every time the window reports lies in the library's formattable range,
/// and its samples are well formed.
pub open spec fn window_times_in_range(w: VisibilityWindow) -> bool {
    &&& instant_in_range(w.start_s as int)
    &&& instant_in_range(w.end_s as int)
    &&& instant_in_range(w.max_elevation_time_s as int)
    &&& forall|j: int| 0 <= j < w.samples@.len() ==> (#[trigger] w.samples@[j]).wf()
}

/// Windows extracted from a well-formed series only carry times of the
/// series' own samples, so each stays in the formattable range.
pub proof fn lemma_windows_times_in_range(ws: Seq<VisibilityWindow>, s: Seq<ObservationSample>, thr: int)
    requires
        windows_match(ws, s, thr),
        forall|i: int| 0 <= i < s.len() ==> (#[trigger] s[i]).wf(),
    ensures
        forall|k: int| 0 <= k < ws.len() ==> window_times_in_range(#[trigger] ws[k]),
{
    lemma_visibility_runs_ok(s, thr);
    let runs = visibility_runs(s, thr);
    assert forall|k: int| 0 <= k < ws.len() implies window_times_in_range(#[trigger] ws[k]) by {
        assert(run_ok(s, thr, runs[k]));
        let r = runs[k];
        let sub = s.subrange(r.0, r.1 + 1);
        lemma_first_max(sub);
        assert(sub[first_max_index(sub)] == s[r.0 + first_max_index(sub)]);
        assert forall|j: int| 0 <= j < ws[k].samples@.len() implies (#[trigger] ws[k].samples@[j]).wf() by {
            assert(ws[k].samples@[j] == s[r.0 + j]);
        }
    }
}

/// Runs the verified pipeline stages for one test case: assembles the
/// observation samples for the series, then extracts the visibility windows.
pub fn run_pipeline(times: &Vec<i64>, meas: &Vec<Measurement>, min_elevation_cdeg: i64) -> (ws: Vec<VisibilityWindow>)
    requires
        times@.len() == meas@.len(),
        forall|i: int| 0 <= i < times@.len() ==> instant_in_range(#[trigger] times@[i] as int),
        forall|i: int| 0 <= i < meas@.len() ==> (#[trigger] meas@[i]).wf(),
    ensures
        windows_match(ws@, spec_samples(times@, meas@), min_elevation_cdeg as int),
        forall|k: int| 0 <= k < ws@.len() ==> window_times_in_range(#[trigger] ws@[k]),
{
    let samples = build_samples(times, meas);
    let ws = find_visibility_windows(&samples, min_elevation_cdeg);
    proof {
        lemma_windows_times_in_range(ws@, samples@, min_elevation_cdeg as int);
    }
    ws
}

/// Law: the pipeline is deterministic. For one series, one measurement
/// sequence and one threshold, any two window sequences the verified stages
/// can produce agree on every field of every window.
pub proof fn lemma_pipeline_deterministic(times: Seq<i64>, meas: Seq<Measurement>, thr: int, w1: Seq<VisibilityWindow>, w2: Seq<VisibilityWindow>)
    requires
        windows_match(w1, spec_samples(times, meas), thr),
        windows_match(w2, spec_samples(times, meas), thr),
    ensures
        w1.len() == w2.len(),
        forall|k: int| 0 <= k < w1.len() ==> {
            &&& (#[trigger] w1[k]).start_s == w2[k].start_s
            &&& w1[k].end_s == w2[k].end_s
            &&& w1[k].duration_s == w2[k].duration_s
            &&& w1[k].max_elevation_cdeg == w2[k].max_elevation_cdeg
            &&& w1[k].max_elevation_time_s == w2[k].max_elevation_time_s
            &&& w1[k].samples@ == w2[k].samples@
        },
{
    lemma_extraction_deterministic(w1, w2, spec_samples(times, meas), thr);
}

/// The derived samples are well formed, take the series' instants as their
/// times, and inherit a strictly increasing series' order.
pub proof fn lemma_spec_samples_wf(times: Seq<i64>, meas: Seq<Measurement>)
    requires
        times.len() == meas.len(),
        forall|i: int| 0 <= i < times.len() ==> instant_in_range(#[trigger] times[i] as int),
        forall|i: int| 0 <= i < meas.len() ==> (#[trigger] meas[i]).wf(),
    ensures
        spec_samples(times, meas).len() == times.len(),
        forall|i: int| 0 <= i < times.len() ==> (#[trigger] spec_samples(times, meas)[i]).wf(),
        forall|i: int| 0 <= i < times.len() ==> (#[trigger] spec_samples(times, meas)[i]).time_s == times[i],
        (forall|i: int, j: int| 0 <= i < j < times.len() ==> times[i] < times[j])
            ==> times_strictly_increasing(spec_samples(times, meas)),
{
    assert forall|i: int| 0 <= i < times.len() implies (#[trigger] spec_samples(times, meas)[i]).wf() by {
        assert(meas[i].wf());
        assert((meas[i].range_m + 5) / 10 >= 0);
        assert((meas[i].range_m + 5) / 10 <= meas[i].range_m + 5) by (nonlinear_arith)
            requires meas[i].range_m >= 0;
    }
}

/// Samples built over a generated time series keep the series' strict time
/// order, so the window laws on order, disjointness and containment apply to
/// the pipeline's output.
pub proof fn lemma_pipeline_samples_ordered(times: Seq<i64>, meas: Seq<Measurement>, start: int, end: int, step: int)
    requires
        step >= 1,
        crate::instant::is_time_series(times, start, end, step),
        times.len() == meas.len(),
        forall|i: int| 0 <= i < times.len() ==> instant_in_range(#[trigger] times[i] as int),
        forall|i: int| 0 <= i < meas.len() ==> (#[trigger] meas[i]).wf(),
    ensures
        times_strictly_increasing(spec_samples(times, meas)),
{
    crate::instant::lemma_time_series_indexed(times, start, end, step);
    lemma_spec_samples_wf(times, meas);
}

/// One rendered observation: the sample's quantities beside its textual
/// timestamp.
pub struct PointReport {
    pub time: String,
    pub azimuth_cdeg: i64,
    pub elevation_cdeg: i64,
    pub range_ckm: i64,
    pub range_rate_mps: i64,
    pub altitude_ckm: i64,
}

/// One rendered visibility window: textual timestamps beside the quantities.
pub struct WindowReport {
    pub start: String,
    pub end: String,
    pub duration_s: i64,
    pub max_elevation_cdeg: i64,
    pub max_elevation_time: String,
    pub points: Vec<PointReport>,
}

/// The report carries the sample's quantities unchanged and its time as text.
pub open spec fn point_matches(p: PointReport, s: ObservationSample) -> bool {
    &&& p.time@ == utc_timestamp_of(s.time_s as int)
    &&& p.azimuth_cdeg == s.azimuth_cdeg
    &&& p.elevation_cdeg == s.elevation_cdeg
    &&& p.range_ckm == s.range_ckm
    &&& p.range_rate_mps == s.range_rate_mps
    &&& p.altitude_ckm == s.altitude_ckm
}

/// The report carries the window's quantities unchanged and its three
/// instants as text.
pub open spec fn report_matches(r: WindowReport, w: VisibilityWindow) -> bool {
    &&& r.start@ == utc_timestamp_of(w.start_s as int)
    &&& r.end@ == utc_timestamp_of(w.end_s as int)
    &&& r.max_elevation_time@ == utc_timestamp_of(w.max_elevation_time_s as int)
    &&& r.duration_s == w.duration_s
    &&& r.max_elevation_cdeg == w.max_elevation_cdeg
    &&& r.points@.len() == w.samples@.len()
    &&& forall|j: int| 0 <= j < w.samples@.len() ==> point_matches(#[trigger] r.points@[j], w.samples@[j])
}

/// Renders each window with textual timestamps, leaving every quantity
/// unchanged.
pub fn render_windows(ws: &Vec<VisibilityWindow>) -> (reports: Vec<WindowReport>)
    requires
        forall|k: int| 0 <= k < ws@.len() ==> window_times_in_range(#[trigger] ws@[k]),
    ensures
        reports@.len() == ws@.len(),
        forall|k: int| 0 <= k < ws@.len() ==> report_matches(#[trigger] reports@[k], ws@[k]),
{
    let mut reports: Vec<WindowReport> = Vec::new();
    let mut k: usize = 0;
    while k < ws.len()
        invariant
            k <= ws@.len(),
            forall|t: int| 0 <= t < ws@.len() ==> window_times_in_range(#[trigger] ws@[t]),
            reports@.len() == k,
            forall|t: int| 0 <= t < k ==> report_matches(#[trigger] reports@[t], ws@[t]),
        decreases ws@.len() - k,
    {
        let w = &ws[k];
        let mut points: Vec<PointReport> = Vec::new();
        let mut j: usize = 0;
        while j < w.samples.len()
            invariant
                j <= w.samples@.len(),
                forall|u: int| 0 <= u < w.samples@.len() ==> (#[trigger] w.samples@[u]).wf(),
                points@.len() == j,
                forall|u: int| 0 <= u < j ==> point_matches(#[trigger] points@[u], w.samples@[u]),
            decreases w.samples@.len() - j,
        {
            let s = w.samples[j];
            points.push(PointReport {
                time: format_utc_timestamp(s.time_s),
                azimuth_cdeg: s.azimuth_cdeg,
                elevation_cdeg: s.elevation_cdeg,
                range_ckm: s.range_ckm,
                range_rate_mps: s.range_rate_mps,
                altitude_ckm: s.altitude_ckm,
            });
            j = j + 1;
        }
        reports.push(WindowReport {
            start: format_utc_timestamp(w.start_s),
            end: format_utc_timestamp(w.end_s),
            duration_s: w.duration_s,
            max_elevation_cdeg: w.max_elevation_cdeg,
            max_elevation_time: format_utc_timestamp(w.max_elevation_time_s),
            points,
        });
        k = k + 1;
    }
    reports
}

} // verus!
