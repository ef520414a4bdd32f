//! Completion reported after each chapter of a download.

use vstd::prelude::*;

verus! {

/// Hundredths of a percent done after `done` of `total` chapters, rounded to
/// the nearest (halves up).
pub open spec fn progress_spec(done: int, total: int) -> int {
    (done * 20000 + total) / (2 * total)
}

/// The completion after the chapter at `index` (counted from zero) of `total`,
/// in hundredths of a percent: 3333 for the first of three, 10000 for the last.
pub fn progress_hundredths(index: usize, total: usize) -> (r: u64)
    requires
        index < total,
    ensures
        r as int == progress_spec(index + 1, total as int),
        r <= 10000,
        index + 1 == total ==> r == 10000,
{
    let done = index as u128 + 1;
    let t = total as u128;
    proof {
        assert(done * 20000 + t <= t * 20000 + t) by (nonlinear_arith)
            requires done <= t;
        assert((t * 20000 + t) / (2 * t) == 10000) by (nonlinear_arith)
            requires t > 0;
        assert((done * 20000 + t) / (2 * t) <= (t * 20000 + t) / (2 * t)) by (nonlinear_arith)
            requires done * 20000 + t <= t * 20000 + t, t > 0;
    }
    ((done * 20000 + t) / (2 * t)) as u64
}

} // verus!
