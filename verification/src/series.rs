//! The position series: one observation sample per instant of the series.
//!
//! The caller supplies, per instant, the measured look angles, range and
//! altitude (the frame transforms that produce them live outside the
//! library); this module assembles the ordered sample sequence, normalizes
//! the azimuth, rounds the range to the output precision, and derives the
//! range rate as a forward difference, zero at the final sample.

use vstd::prelude::*;

use crate::instant::instant_in_range;
use crate::look_angles::{FULL_TURN_CDEG, HALF_TURN_CDEG, normalized_azimuth, normalize_azimuth_cdeg};

verus! {

/// Elevation never leaves `[-90, 90]` degrees.
pub const ELEVATION_MAX_CDEG: i64 = 9000;

/// A generous ceiling on a range expressed in metres: one billion
/// kilometres, far past any Earth orbit, low enough that every difference
/// and rounding stays inside `i64`.
pub const RANGE_M_MAX: i64 = 1000000000000;

/// What the frame transforms measured at one instant: topocentric look
/// angles (the azimuth still raw from `atan2`, in `[-180, 180]` degrees),
/// the range to the observer in metres, and the satellite altitude in
/// centi-kilometres.
#[derive(Clone, Copy, PartialEq, Eq, Structural, Debug)]
pub struct Measurement {
    pub azimuth_raw_cdeg: i64,
    pub elevation_cdeg: i64,
    pub range_m: i64,
    pub altitude_ckm: i64,
}

impl Measurement {
    /// The ranges a measurement can carry.
    pub open spec fn wf(self) -> bool {
        &&& -HALF_TURN_CDEG <= self.azimuth_raw_cdeg <= HALF_TURN_CDEG
        &&& -ELEVATION_MAX_CDEG <= self.elevation_cdeg <= ELEVATION_MAX_CDEG
        &&& 0 <= self.range_m <= RANGE_M_MAX
    }
}

/// One derived observation: time in seconds, azimuth in `[0, 360)` and
/// elevation in `[-90, 90]` degrees as centidegrees, range and altitude in
/// centi-kilometres, range rate in metres per second (that is, thousandths
/// of a kilometre per second).
#[derive(Clone, Copy, PartialEq, Eq, Structural, Debug)]
pub struct ObservationSample {
    pub time_s: i64,
    pub azimuth_cdeg: i64,
    pub elevation_cdeg: i64,
    pub range_ckm: i64,
    pub range_rate_mps: i64,
    pub altitude_ckm: i64,
}

impl ObservationSample {
    /// The ranges a well-formed sample keeps.
    pub open spec fn wf(self) -> bool {
        &&& instant_in_range(self.time_s as int)
        &&& 0 <= self.azimuth_cdeg < FULL_TURN_CDEG
        &&& -ELEVATION_MAX_CDEG <= self.elevation_cdeg <= ELEVATION_MAX_CDEG
        &&& 0 <= self.range_ckm
    }
}

/// Metres to centi-kilometres, rounding to the nearest (half away from
/// zero, on a non-negative value).
pub open spec fn rounded_ckm(range_m: int) -> int {
    (range_m + 5) / 10
}

/// The quotient `a / b` rounded to the nearest integer, half away from
/// zero, for a positive divisor.
pub open spec fn rounded_div(a: int, b: int) -> int {
    if a >= 0 {
        (2 * a + b) / (2 * b)
    } else {
        -((2 * (-a) + b) / (2 * b))
    }
}

/// The forward-difference range rate at index `i`: the change of range to
/// the next instant over the seconds between them, rounded to the nearest
/// metre per second (half away from zero), and zero at the final sample (or
/// against a non-advancing clock).
pub open spec fn forward_rate(times: Seq<i64>, meas: Seq<Measurement>, i: int) -> int {
    if i + 1 < times.len() {
        let dt = times[i + 1] - times[i];
        if dt > 0 {
            rounded_div(meas[i + 1].range_m - meas[i].range_m, dt)
        } else {
            0
        }
    } else {
        0
    }
}

/// The sample derived for index `i` of the series.
pub open spec fn spec_sample_at(times: Seq<i64>, meas: Seq<Measurement>, i: int) -> ObservationSample {
    ObservationSample {
        time_s: times[i],
        azimuth_cdeg: normalized_azimuth(meas[i].azimuth_raw_cdeg as int) as i64,
        elevation_cdeg: meas[i].elevation_cdeg,
        range_ckm: rounded_ckm(meas[i].range_m as int) as i64,
        range_rate_mps: forward_rate(times, meas, i) as i64,
        altitude_ckm: meas[i].altitude_ckm,
    }
}

/// The full derived sample sequence.
pub open spec fn spec_samples(times: Seq<i64>, meas: Seq<Measurement>) -> Seq<ObservationSample> {
    Seq::new(times.len(), |i: int| spec_sample_at(times, meas, i))
}

/// Assembles the observation samples for a series: one per instant, in
/// series order, each carrying the normalized azimuth, the elevation, the
/// rounded range and altitude, and the forward-difference range rate — zero
/// at the last sample.
pub fn build_samples(times: &Vec<i64>, meas: &Vec<Measurement>) -> (samples: Vec<ObservationSample>)
    requires
        times@.len() == meas@.len(),
        forall|i: int| 0 <= i < times@.len() ==> instant_in_range(#[trigger] times@[i] as int),
        forall|i: int| 0 <= i < meas@.len() ==> (#[trigger] meas@[i]).wf(),
    ensures
        samples@ =~= spec_samples(times@, meas@),
        samples@.len() == times@.len(),
        forall|i: int| 0 <= i < samples@.len() ==> (#[trigger] samples@[i]).wf(),
        samples@.len() >= 1 ==> samples@[samples@.len() - 1].range_rate_mps == 0,
{
    let n = times.len();
    let mut samples: Vec<ObservationSample> = Vec::new();
    let mut i: usize = 0;
    while i < n
        invariant
            n == times@.len(),
            times@.len() == meas@.len(),
            forall|k: int| 0 <= k < times@.len() ==> instant_in_range(#[trigger] times@[k] as int),
            forall|k: int| 0 <= k < meas@.len() ==> (#[trigger] meas@[k]).wf(),
            i <= n,
            samples@.len() == i,
            forall|k: int| 0 <= k < i ==> #[trigger] samples@[k] == spec_sample_at(times@, meas@, k),
            forall|k: int| 0 <= k < i ==> (#[trigger] samples@[k]).wf(),
        decreases n - i,
    {
        let m = meas[i];
        let azimuth_cdeg = normalize_azimuth_cdeg(m.azimuth_raw_cdeg);
        let range_ckm = (((m.range_m as u64) + 5) / 10) as i64;
        let range_rate_mps: i64 = if i + 1 < n {
            let dt = times[i + 1] - times[i];
            if dt > 0 {
                let diff = meas[i + 1].range_m - m.range_m;
                if diff >= 0 {
                    ((2 * (diff as u64) + (dt as u64)) / (2 * (dt as u64))) as i64
                } else {
                    -(((2 * ((-diff) as u64) + (dt as u64)) / (2 * (dt as u64))) as i64)
                }
            } else {
                0
            }
        } else {
            0
        };
        let sample = ObservationSample {
            time_s: times[i],
            azimuth_cdeg,
            elevation_cdeg: m.elevation_cdeg,
            range_ckm,
            range_rate_mps,
            altitude_ckm: m.altitude_ckm,
        };
        proof {
            assert(sample == spec_sample_at(times@, meas@, i as int));
        }
        samples.push(sample);
        i = i + 1;
    }
    samples
}

} // verus!
