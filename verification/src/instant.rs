//! Instants and time-series generation.
//!
//! An instant is a whole number of seconds since the Unix epoch. The library
//! confines instants to the years 0000 through 9999, the span that the
//! textual timestamp form `YYYY-MM-DDTHH:MM:SSZ` can carry.

use vstd::prelude::*;

verus! {

/// 0000-01-01T00:00:00Z as seconds since the Unix epoch.
pub const TIME_MIN: i64 = -62167219200;

/// 9999-12-31T23:59:59Z as seconds since the Unix epoch.
pub const TIME_MAX: i64 = 253402300799;

/// The largest step size that can never overflow the series arithmetic.
pub const STEP_MAX: i64 = i64::MAX - TIME_MAX;

/// An instant that the library can carry and format.
pub open spec fn instant_in_range(t: int) -> bool {
    TIME_MIN <= t <= TIME_MAX
}

/// The shape of a generated time series: it begins at `start`, advances by
/// `step` from each entry to the next, never passes `end`, and stops only
/// when one more step would pass `end`.
pub open spec fn is_time_series(ts: Seq<i64>, start: int, end: int, step: int) -> bool {
    &&& (start > end ==> ts.len() == 0)
    &&& (start <= end ==> ts.len() >= 1 && ts[0] == start)
    &&& forall|i: int| 0 <= i < ts.len() ==> #[trigger] ts[i] <= end
    &&& forall|i: int| 0 <= i < ts.len() - 1 ==> #[trigger] ts[i + 1] == ts[i] + step
    &&& (ts.len() >= 1 ==> ts[ts.len() - 1] + step > end)
}

/// Generates the sampling grid over `[start, end]`: every instant
/// `start + k * step` that does not pass `end`, in ascending order, both
/// endpoints included when they fall on the grid. An empty window
/// (`start > end`) yields an empty series.
pub fn generate_times(start: i64, end: i64, step: i64) -> (ts: Vec<i64>)
    requires
        instant_in_range(start as int),
        instant_in_range(end as int),
        1 <= step <= STEP_MAX,
    ensures
        is_time_series(ts@, start as int, end as int, step as int),
        forall|i: int| 0 <= i < ts@.len() ==> instant_in_range(#[trigger] ts@[i] as int),
{
    let mut ts: Vec<i64> = Vec::new();
    let mut current: i64 = start;
    while current <= end
        invariant
            instant_in_range(start as int),
            instant_in_range(end as int),
            1 <= step <= STEP_MAX,
            start <= current,
            ts@.len() >= 1 ==> current <= end + step,
            ts@.len() == 0 ==> current == start,
            ts@.len() >= 1 ==> ts@[0] == start,
            ts@.len() >= 1 ==> ts@[ts@.len() - 1] + step == current,
            forall|i: int| 0 <= i < ts@.len() ==> #[trigger] ts@[i] <= end,
            forall|i: int| 0 <= i < ts@.len() ==> TIME_MIN <= #[trigger] ts@[i] <= end,
            forall|i: int| 0 <= i < ts@.len() - 1 ==> #[trigger] ts@[i + 1] == ts@[i] + step,
        decreases end + step - current,
    {
        ts.push(current);
        current = current + step;
    }
    ts
}

/// Two series generated from the same window and step are the same: the
/// shape in `is_time_series` pins every entry.
pub proof fn lemma_time_series_unique(a: Seq<i64>, b: Seq<i64>, start: int, end: int, step: int)
    requires
        step >= 1,
        is_time_series(a, start, end, step),
        is_time_series(b, start, end, step),
    ensures
        a =~= b,
{
    lemma_time_series_indexed(a, start, end, step);
    lemma_time_series_indexed(b, start, end, step);
    if a.len() < b.len() {
        let n = a.len() as int;
        assert(b[n - 1] == a[n - 1]);
        assert(b[(n - 1) + 1] == b[n - 1] + step);
        assert(a[n - 1] + step > end);
        assert(false);
    }
    if b.len() < a.len() {
        let n = b.len() as int;
        assert(a[n - 1] == b[n - 1]);
        assert(a[(n - 1) + 1] == a[n - 1] + step);
        assert(b[n - 1] + step > end);
        assert(false);
    }
    assert(forall|i: int| 0 <= i < a.len() ==> a[i] == b[i]);
}

/// Every entry of a time series sits `i` steps past the start, so the series
/// is strictly increasing.
pub proof fn lemma_time_series_indexed(ts: Seq<i64>, start: int, end: int, step: int)
    requires
        step >= 1,
        is_time_series(ts, start, end, step),
    ensures
        forall|i: int| 0 <= i < ts.len() ==> #[trigger] ts[i] == start + i * step,
        forall|i: int, j: int| 0 <= i < j < ts.len() ==> ts[i] < ts[j],
    decreases ts.len(),
{
    assert forall|i: int| 0 <= i < ts.len() implies #[trigger] ts[i] == start + i * step by {
        lemma_series_entry(ts, start, end, step, i);
    }
    assert forall|i: int, j: int| 0 <= i < j < ts.len() implies ts[i] < ts[j] by {
        lemma_series_entry(ts, start, end, step, i);
        lemma_series_entry(ts, start, end, step, j);
        assert(start + i * step < start + j * step) by (nonlinear_arith)
            requires step >= 1, i < j;
    }
}

proof fn lemma_series_entry(ts: Seq<i64>, start: int, end: int, step: int, i: int)
    requires
        step >= 1,
        is_time_series(ts, start, end, step),
        0 <= i < ts.len(),
    ensures
        ts[i] == start + i * step,
    decreases i,
{
    if i == 0 {
        assert(ts[0] == start);
    } else {
        lemma_series_entry(ts, start, end, step, i - 1);
        assert(ts[(i - 1) + 1] == ts[i - 1] + step);
        assert(start + (i - 1) * step + step == start + i * step) by (nonlinear_arith);
    }
}

} // verus!
