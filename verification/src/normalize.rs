//! Normalizer: map a raw series pair into the non-negative encryption
//! domain, retaining plaintext anchor values.

use vstd::prelude::*;
use crate::errors::GudotError;

verus! {

/// Plaintext reference points retained by the orchestrator and never sent
/// to the distributed backend: the first element of each series and the
/// detected direction of the position series.
#[derive(Debug, Clone, Copy, PartialEq, Eq, Structural)]
pub struct AnchorValues {
    pub x0: u32,
    pub y0: u32,
    pub descending: bool,
}

/// The position series moves downward: its last element is below its first.
pub open spec fn y_descending(y: Seq<u32>) -> bool
    recommends
        y.len() > 0,
{
    y.last() < y[0]
}

/// Anchor `x` at zero and remap `y` to a non-negative distance-traveled
/// magnitude, auto-detecting its direction from the last element.
///
/// A value that would leave the unsigned domain is a domain error, never a
/// silent wrap-around: `x` must be bounded below by its first element, and
/// `y` must stay on one side of its first element, matching the detected
/// direction.
pub fn normalize(x: &Vec<u32>, y: &Vec<u32>) -> (r: Result<
    ((Vec<u32>, Vec<u32>), AnchorValues),
    GudotError,
>)
    requires
        x@.len() == y@.len(),
    ensures
        match r {
            Ok(p) => x@.len() > 0 && p.1.x0 == x@[0] && p.1.y0 == y@[0] && p.1.descending
                == y_descending(y@) && p.0.0@.len() == x@.len() && p.0.1@.len() == y@.len() && (
            forall|i: int|
                0 <= i < x@.len() ==> x@[i] >= x@[0] && #[trigger] p.0.0@[i] == x@[i] - x@[0]) && (
            y_descending(y@) ==> forall|i: int|
                0 <= i < y@.len() ==> y@[i] <= y@[0] && #[trigger] p.0.1@[i] == y@[0] - y@[i]) && (
            !y_descending(y@) ==> forall|i: int|
                0 <= i < y@.len() ==> y@[i] >= y@[0] && #[trigger] p.0.1@[i] == y@[i] - y@[0]),
            Err(e) => (e == GudotError::EmptyVector && x@.len() == 0) || (
            e == GudotError::UnderflowError && x@.len() > 0 && ((exists|i: int|
                0 <= i < x@.len() && #[trigger] x@[i] < x@[0]) || (y_descending(y@)
                && exists|i: int| 0 <= i < y@.len() && #[trigger] y@[i] > y@[0]) || (!y_descending(
                y@,
            ) && exists|i: int| 0 <= i < y@.len() && #[trigger] y@[i] < y@[0]))),
        },
{
    if x.len() == 0 {
        return Err(GudotError::EmptyVector);
    }
    let x0 = x[0];
    let y0 = y[0];
    let descending = y[y.len() - 1] < y0;
    let mut nx: Vec<u32> = Vec::new();
    let mut i: usize = 0;
    while i < x.len()
        invariant
            i <= x@.len(),
            x@.len() > 0,
            x0 == x@[0],
            nx@.len() == i,
            forall|j: int| 0 <= j < i ==> #[trigger] x@[j] >= x@[0],
            forall|j: int| 0 <= j < i ==> #[trigger] nx@[j] == x@[j] - x@[0],
        decreases x@.len() - i,
    {
        let xi = x[i];
        if xi < x0 {
            proof {
                assert(x@[i as int] < x@[0]);
            }
            return Err(GudotError::UnderflowError);
        }
        let ghost nx0 = nx@;
        nx.push(xi - x0);
        proof {
            assert forall|j: int| 0 <= j < i + 1 implies #[trigger] nx@[j] == x@[j] - x@[0] by {
                if j < i {
                    assert(nx@[j] == nx0[j]);
                } else {
                    assert(nx@[j] == xi - x0);
                }
            }
        }
        i = i + 1;
    }
    let mut ny: Vec<u32> = Vec::new();
    let mut j: usize = 0;
    while j < y.len()
        invariant
            j <= y@.len(),
            y@.len() > 0,
            x@.len() == y@.len(),
            y0 == y@[0],
            descending == y_descending(y@),
            ny@.len() == j,
            descending ==> forall|t: int| 0 <= t < j ==> #[trigger] y@[t] <= y@[0],
            descending ==> forall|t: int| 0 <= t < j ==> #[trigger] ny@[t] == y@[0] - y@[t],
            !descending ==> forall|t: int| 0 <= t < j ==> #[trigger] y@[t] >= y@[0],
            !descending ==> forall|t: int| 0 <= t < j ==> #[trigger] ny@[t] == y@[t] - y@[0],
        decreases y@.len() - j,
    {
        let yj = y[j];
        let ghost ny0 = ny@;
        if descending {
            if yj > y0 {
                proof {
                    assert(y@[j as int] > y@[0]);
                }
                return Err(GudotError::UnderflowError);
            }
            ny.push(y0 - yj);
            proof {
                assert forall|t: int| 0 <= t < j + 1 implies #[trigger] ny@[t] == y@[0] - y@[t] by {
                    if t < j {
                        assert(ny@[t] == ny0[t]);
                    } else {
                        assert(ny@[t] == y0 - yj);
                    }
                }
            }
        } else {
            if yj < y0 {
                proof {
                    assert(y@[j as int] < y@[0]);
                }
                return Err(GudotError::UnderflowError);
            }
            ny.push(yj - y0);
            proof {
                assert forall|t: int| 0 <= t < j + 1 implies #[trigger] ny@[t] == y@[t] - y@[0] by {
                    if t < j {
                        assert(ny@[t] == ny0[t]);
                    } else {
                        assert(ny@[t] == yj - y0);
                    }
                }
            }
        }
        j = j + 1;
    }
    Ok(((nx, ny), AnchorValues { x0, y0, descending }))
}

} // verus!
