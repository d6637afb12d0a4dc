//! Small numeric helpers over slices: the largest absolute value in a
//! slice and the position where it first occurs.

use vstd::prelude::*;

use vstd::math::abs;

verus! {

/// The largest absolute value in the slice, or zero when the slice is
/// empty.  `i64::MIN` has no `i64` absolute value and is excluded.
pub fn abs_max(slice: &[i64]) -> (r: i64)
    requires
        forall|t: int| 0 <= t < slice@.len() ==> slice@[t] != i64::MIN,
    ensures
        r >= 0,
        forall|t: int| 0 <= t < slice@.len() ==> abs(slice@[t] as int) <= r,
        r == 0 || exists|t: int| 0 <= t < slice@.len() && abs(slice@[t] as int) == r,
{
    let mut best: i64 = 0;
    let mut idx: usize = 0;
    while idx < slice.len()
        invariant
            forall|t: int| 0 <= t < slice@.len() ==> slice@[t] != i64::MIN,
            idx <= slice@.len(),
            best >= 0,
            forall|t: int| 0 <= t < idx ==> abs(slice@[t] as int) <= best,
            best == 0 || exists|t: int| 0 <= t < idx && abs(slice@[t] as int) == best,
        decreases slice@.len() - idx,
    {
        let v = slice[idx];
        let a = if v < 0 {
            -v
        } else {
            v
        };
        if a > best {
            best = a;
        }
        idx = idx + 1;
    }
    best
}

/// The index at which the largest absolute value in the slice first
/// occurs, or zero for an empty slice.  `i64::MIN` is excluded as in
/// `abs_max`.
pub fn arg_abs_max(slice: &[i64]) -> (r: usize)
    requires
        forall|t: int| 0 <= t < slice@.len() ==> slice@[t] != i64::MIN,
    ensures
        slice@.len() == 0 ==> r == 0,
        slice@.len() > 0 ==> {
            &&& r < slice@.len()
            &&& forall|t: int|
                0 <= t < slice@.len() ==> abs(slice@[t] as int) <= abs(slice@[r as int] as int)
            &&& forall|t: int| 0 <= t < r ==> abs(slice@[t] as int) < abs(slice@[r as int] as int)
        },
{
    let mut best: i64 = 0;
    let mut best_idx: usize = 0;
    let mut idx: usize = 0;
    while idx < slice.len()
        invariant
            forall|t: int| 0 <= t < slice@.len() ==> slice@[t] != i64::MIN,
            idx <= slice@.len(),
            best >= 0,
            idx == 0 ==> best == 0 && best_idx == 0,
            idx > 0 ==> {
                &&& best_idx < idx
                &&& best as int == abs(slice@[best_idx as int] as int)
                &&& forall|t: int| 0 <= t < idx ==> abs(slice@[t] as int) <= best
                &&& forall|t: int| 0 <= t < best_idx ==> abs(slice@[t] as int) < best
            },
        decreases slice@.len() - idx,
    {
        let v = slice[idx];
        let b = if v < 0 {
            -v
        } else {
            v
        };
        if !(best >= b) {
            best = b;
            best_idx = idx;
        }
        idx = idx + 1;
    }
    best_idx
}

} // verus!
