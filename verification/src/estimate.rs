//! Trajectory estimator: derive a velocity and a predicted absolute
//! arrival time from the aggregated sums and the plaintext anchors.
//!
//! The velocity is the exact ratio `A / B` of the aggregated sums; it is
//! reported in integer milli-units, rounded half up, and the remaining
//! time is the anchor distance divided by that ratio, rounded half up,
//! both computed in exact integer arithmetic.

use vstd::prelude::*;
use crate::aggregate::AggregateResult;
use crate::errors::GudotError;
use crate::normalize::AnchorValues;

verus! {

/// Velocity and predicted arrival time, in exact integer arithmetic.
#[derive(Debug, Clone, Copy, PartialEq, Eq, Structural)]
pub struct Estimate {
    /// `round(1000 * A / B)`: the velocity in milli-units.
    pub milli_velocity: u128,
    /// `round(y0 * B / A)`: the estimated remaining time.
    pub remaining: u128,
    /// `x0 + remaining`: the predicted absolute arrival time.
    pub arrival: u128,
    /// `arrival / 3600`; the raw hour count may exceed 23.
    pub hours: u128,
    /// `(arrival % 3600) / 60`.
    pub minutes: u32,
    /// `arrival % 60`.
    pub seconds: u32,
}

/// Estimate velocity and arrival time from the aggregate `(A, B)` and the
/// anchors. Fails with `DivisionByZero` exactly when `B` is zero (no
/// square sum to divide by) or `A` is zero (zero velocity, no arrival).
pub fn estimate(agg: &AggregateResult, anchors: &AnchorValues) -> (r: Result<
    Estimate,
    GudotError,
>)
    ensures
        match r {
            Ok(est) => agg.a > 0 && agg.b > 0 && {
                let a = agg.a as int;
                let b = agg.b as int;
                let y0 = anchors.y0 as int;
                let x0 = anchors.x0 as int;
                &&& est.milli_velocity == (2000 * a + b) / (2 * b)
                &&& est.remaining == (2 * y0 * b + a) / (2 * a)
                &&& est.arrival == x0 + est.remaining
                &&& est.hours == est.arrival as int / 3600
                &&& est.minutes == (est.arrival as int % 3600) / 60
                &&& est.seconds == est.arrival as int % 60
            },
            Err(e) => e == GudotError::DivisionByZero && (agg.a == 0 || agg.b == 0),
        },
{
    if agg.b == 0 {
        return Err(GudotError::DivisionByZero);
    }
    if agg.a == 0 {
        return Err(GudotError::DivisionByZero);
    }
    let a = agg.a as u128;
    let b = agg.b as u128;
    let y0 = anchors.y0 as u128;
    let x0 = anchors.x0 as u128;
    let milli_velocity = (2000 * a + b) / (2 * b);
    proof {
        assert((2 * y0 as int) * (b as int) <= 0x2_0000_0000int * 0xFFFF_FFFF_FFFF_FFFFint)
            by (nonlinear_arith)
            requires
                0 <= 2 * y0 as int <= 0x2_0000_0000int,
                0 <= b as int <= 0xFFFF_FFFF_FFFF_FFFFint,
        ;
    }
    let numerator = 2 * y0 * b + a;
    let remaining = numerator / (2 * a);
    proof {
        vstd::arithmetic::div_mod::lemma_div_is_ordered_by_denominator(
            numerator as int,
            1,
            2 * a as int,
        );
    }
    let arrival = x0 + remaining;
    let hours = arrival / 3600;
    let m3600 = arrival % 3600;
    let minutes = (m3600 / 60) as u32;
    let seconds = (arrival % 60) as u32;
    Ok(Estimate { milli_velocity, remaining, arrival, hours, minutes, seconds })
}

} // verus!
