//! Generic linear regressor: the integer summary a least-squares-style fit
//! is computed from.
//!
//! The fitted line is `slope = -(Σa) / (Σb)` — the negative sign is a
//! domain assumption for approaching trajectories — with the intercept
//! placed so the line passes through the center of the input bounding box:
//! `intercept = (min(y) + max(y) - slope * (min(x) + max(x))) / 2`. The two
//! final ratios are left to the caller; this module pins down every integer
//! quantity they are built from.

use vstd::prelude::*;
use crate::aggregate::aggregate;
use crate::aggregate::sum_firsts;
use crate::aggregate::sum_seconds;
use crate::errors::GudotError;

verus! {

/// The smallest element of a non-empty series.
pub open spec fn seq_min(s: Seq<u32>) -> u32
    recommends
        s.len() > 0,
    decreases s.len(),
{
    if s.len() <= 1 {
        s[0]
    } else {
        let m = seq_min(s.drop_last());
        if s.last() < m {
            s.last()
        } else {
            m
        }
    }
}

/// The largest element of a non-empty series.
pub open spec fn seq_max(s: Seq<u32>) -> u32
    recommends
        s.len() > 0,
    decreases s.len(),
{
    if s.len() <= 1 {
        s[0]
    } else {
        let m = seq_max(s.drop_last());
        if s.last() > m {
            s.last()
        } else {
            m
        }
    }
}

/// Every integer quantity of the fitted model: the sums of the sample
/// pairs, and the bounding box of the original series pair.
#[derive(Debug, Clone, Copy, PartialEq, Eq, Structural)]
pub struct RegressionSummary {
    pub sum_a: u64,
    pub sum_b: u64,
    pub min_x: u32,
    pub max_x: u32,
    pub min_y: u32,
    pub max_y: u32,
}

/// The smallest element of a non-empty vector.
fn series_min(v: &Vec<u32>) -> (m: u32)
    requires
        v@.len() > 0,
    ensures
        m == seq_min(v@),
{
    let mut m = v[0];
    let mut i: usize = 1;
    proof {
        assert(v@.take(1).len() == 1);
        assert(seq_min(v@.take(1)) == v@[0]);
    }
    while i < v.len()
        invariant
            1 <= i <= v@.len(),
            m == seq_min(v@.take(i as int)),
        decreases v@.len() - i,
    {
        proof {
            assert(v@.take(i as int + 1).drop_last() =~= v@.take(i as int));
            assert(v@.take(i as int + 1).last() == v@[i as int]);
        }
        let vi = v[i];
        if vi < m {
            m = vi;
        }
        i = i + 1;
    }
    proof {
        assert(v@.take(v@.len() as int) =~= v@);
    }
    m
}

/// The largest element of a non-empty vector.
fn series_max(v: &Vec<u32>) -> (m: u32)
    requires
        v@.len() > 0,
    ensures
        m == seq_max(v@),
{
    let mut m = v[0];
    let mut i: usize = 1;
    proof {
        assert(v@.take(1).len() == 1);
        assert(seq_max(v@.take(1)) == v@[0]);
    }
    while i < v.len()
        invariant
            1 <= i <= v@.len(),
            m == seq_max(v@.take(i as int)),
        decreases v@.len() - i,
    {
        proof {
            assert(v@.take(i as int + 1).drop_last() =~= v@.take(i as int));
            assert(v@.take(i as int + 1).last() == v@[i as int]);
        }
        let vi = v[i];
        if vi > m {
            m = vi;
        }
        i = i + 1;
    }
    proof {
        assert(v@.take(v@.len() as int) =~= v@);
    }
    m
}

/// Sum the plaintext sample pairs and take the bounding box of the
/// original, un-normalized series pair. Fails with `EmptyVector` exactly
/// when a series used for the bounding box is empty.
pub fn regression_summary(fitted: &Vec<(u32, u32)>, x: &Vec<u32>, y: &Vec<u32>) -> (r: Result<
    RegressionSummary,
    GudotError,
>)
    requires
        fitted@.len() <= 0xFFFF_FFFF,
    ensures
        match r {
            Ok(s) => x@.len() > 0 && y@.len() > 0 && s.sum_a == sum_firsts(fitted@) && s.sum_b
                == sum_seconds(fitted@) && s.min_x == seq_min(x@) && s.max_x == seq_max(x@)
                && s.min_y == seq_min(y@) && s.max_y == seq_max(y@),
            Err(e) => e == GudotError::EmptyVector && (x@.len() == 0 || y@.len() == 0),
        },
{
    if x.len() == 0 || y.len() == 0 {
        return Err(GudotError::EmptyVector);
    }
    let sums = aggregate(fitted);
    Ok(
        RegressionSummary {
            sum_a: sums.a,
            sum_b: sums.b,
            min_x: series_min(x),
            max_x: series_max(x),
            min_y: series_min(y),
            max_y: series_max(y),
        },
    )
}

} // verus!
