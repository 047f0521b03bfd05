//! Random initial placements: every performer drawn independently from
//! the stage region inset by the 10-unit margin, so the bounds rule
//! holds whatever the random source returns.

use crate::scoring::in_bounds;
use crate::{coord_ok, Point, Prob, Sol};
use vstd::prelude::*;

verus! {

/// Relies on rand::random: draws a value of the requested type from the
/// thread-local generator.  Nothing is promised of the value.
pub assume_specification<T>[ rand::random::<T> ]() -> (r: T)
    where rand::distributions::Standard: rand::distributions::Distribution<T>
;

impl Sol {
    /// A random placement for `prob`: one point per performer, each
    /// uniform over the integer points of the stage inset by the margin.
    /// Every point satisfies the bounds rule; the separation rule is not
    /// enforced.
    pub fn new(prob: &Prob) -> (sol: Self)
        requires
            prob.stage_width >= 20,
            prob.stage_height >= 20,
            coord_ok(prob.stage_bottom_left.0 as int),
            coord_ok(prob.stage_bottom_left.1 as int),
            coord_ok(prob.stage_bottom_left.0 + prob.stage_width),
            coord_ok(prob.stage_bottom_left.1 + prob.stage_height),
        ensures
            sol.placements@.len() == prob.musicians@.len(),
            forall|k: int|
                0 <= k < sol.placements@.len() ==> in_bounds(*prob, #[trigger] sol.placements@[k]),
    {
        let n = prob.musicians.len();
        let x_lo = prob.stage_bottom_left.0 + 10;
        let y_lo = prob.stage_bottom_left.1 + 10;
        // the count of integer x (or y) coordinates the margin leaves open
        let span_x = (prob.stage_width - 19) as u64;
        let span_y = (prob.stage_height - 19) as u64;
        let mut placements: Vec<Point> = Vec::new();
        let mut k: usize = 0;
        while k < n
            invariant
                k <= n,
                placements@.len() == k,
                span_x == prob.stage_width - 19,
                span_y == prob.stage_height - 19,
                x_lo == prob.stage_bottom_left.0 + 10,
                y_lo == prob.stage_bottom_left.1 + 10,
                prob.stage_width >= 20,
                prob.stage_height >= 20,
                coord_ok(prob.stage_bottom_left.0 as int),
                coord_ok(prob.stage_bottom_left.1 as int),
                coord_ok(prob.stage_bottom_left.0 + prob.stage_width),
                coord_ok(prob.stage_bottom_left.1 + prob.stage_height),
                forall|j: int|
                    0 <= j < placements@.len() ==> in_bounds(*prob, #[trigger] placements@[j]),
            decreases n - k,
        {
            let r1: u64 = rand::random::<u64>();
            let r2: u64 = rand::random::<u64>();
            let x = x_lo + (r1 % span_x) as i64;
            let y = y_lo + (r2 % span_y) as i64;
            placements.push(Point { x, y });
            k += 1;
        }
        Sol { placements }
    }
}

} // verus!
