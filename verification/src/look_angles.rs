//! Topocentric look-angle helpers: normalization of azimuth values produced
//! by the local South-East-Zenith resolution.
//!
//! An azimuth obtained from `atan2(east, -south)` lies in `(-180, 180]`
//! degrees; the visibility output contract wants it in `[0, 360)`. In the
//! fixed-point model a centidegree below zero gains one full turn.

use vstd::prelude::*;

verus! {

/// One full turn, in centidegrees.
pub const FULL_TURN_CDEG: i64 = 36000;

/// Half a turn, in centidegrees.
pub const HALF_TURN_CDEG: i64 = 18000;

/// The normalized azimuth: a raw value below zero gains a full turn.
pub open spec fn normalized_azimuth(raw: int) -> int {
    if raw < 0 {
        raw + 36000
    } else {
        raw
    }
}

/// Brings an azimuth in `(-180, 180]` degrees (centidegree fixed point,
/// so `[-18000, 18000]`) into `[0, 360)` degrees by adding a full turn to
/// negative values.
pub fn normalize_azimuth_cdeg(raw: i64) -> (az: i64)
    requires
        -HALF_TURN_CDEG <= raw <= HALF_TURN_CDEG,
    ensures
        az == normalized_azimuth(raw as int),
        0 <= az < FULL_TURN_CDEG,
{
    if raw < 0 {
        raw + FULL_TURN_CDEG
    } else {
        raw
    }
}

} // verus!
