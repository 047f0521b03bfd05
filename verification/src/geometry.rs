//! The visibility oracle: does a disc of radius 5 centred at an obstacle
//! cut the open segment between a source and a target?
//!
//! Walking from the source at parameter `t = 0` to the target at `t = 1`,
//! the squared distance to the obstacle is a quadratic in `t`.  The disc
//! blocks the segment exactly when that quadratic crosses `25` at some
//! `t` strictly between `0` and `1`; a non-positive discriminant (no
//! crossing, or a mere tangency) never blocks, and a crossing exactly at
//! an endpoint does not count.  Because all coordinates are integers, the
//! test is decided exactly: the comparisons of the two crossing
//! parameters against `0` and `1` are restated as comparisons of the
//! discriminant against perfect squares, with no square root taken.

use crate::arith::lemma_mul_bound;
use crate::coord_ok;
use vstd::prelude::*;

verus! {

/// Square of an integer.
pub open spec fn sq(v: int) -> int {
    v * v
}

/// Squared Euclidean distance between `(ax, ay)` and `(bx, by)`.
pub open spec fn dist_sq(ax: int, ay: int, bx: int, by: int) -> int {
    sq(bx - ax) + sq(by - ay)
}

/// `sqrt(n) < v`, stated without square roots; meant for `n >= 0`.
pub open spec fn sqrt_lt(n: int, v: int) -> bool {
    v > 0 && n < v * v
}

/// `sqrt(n) > v`, stated without square roots; meant for `n >= 0`.
pub open spec fn sqrt_gt(n: int, v: int) -> bool {
    v < 0 || n > v * v
}

/// Leading coefficient of the occlusion quadratic: the squared length of
/// the source-target segment.
pub open spec fn occ_a(ax: int, ay: int, bx: int, by: int) -> int {
    dist_sq(ax, ay, bx, by)
}

/// Middle coefficient of the occlusion quadratic: twice the dot product
/// of obstacle-to-source with source-to-target.
pub open spec fn occ_b(ax: int, ay: int, bx: int, by: int, ox: int, oy: int) -> int {
    2 * ((ax - ox) * (bx - ax) + (ay - oy) * (by - ay))
}

/// Constant coefficient of the occlusion quadratic: the squared
/// source-obstacle distance, less the squared disc radius.
pub open spec fn occ_c(ax: int, ay: int, ox: int, oy: int) -> int {
    dist_sq(ox, oy, ax, ay) - 25
}

/// Discriminant of the occlusion quadratic.
pub open spec fn occ_disc(ax: int, ay: int, bx: int, by: int, ox: int, oy: int) -> int {
    sq(occ_b(ax, ay, bx, by, ox, oy)) - 4 * occ_a(ax, ay, bx, by) * occ_c(ax, ay, ox, oy)
}

/// The disc of radius 5 round `(ox, oy)` meets the segment from
/// `(ax, ay)` to `(bx, by)` strictly between its endpoints.
///
/// With `aa`, `bb`, `cc` the quadratic's coefficients and `disc` its
/// discriminant, the crossings sit at `t = (-bb - sqrt(disc)) / (2*aa)`
/// and `t = (-bb + sqrt(disc)) / (2*aa)`; the segment is blocked when
/// `disc > 0` and either crossing satisfies `0 < t < 1`.  (When
/// `disc > 0` the segment is non-degenerate, so `aa > 0` and the
/// comparisons multiply through by `2*aa` soundly.)
pub open spec fn blocked_spec(ax: int, ay: int, bx: int, by: int, ox: int, oy: int) -> bool {
    let aa = occ_a(ax, ay, bx, by);
    let bb = occ_b(ax, ay, bx, by, ox, oy);
    let disc = occ_disc(ax, ay, bx, by, ox, oy);
    disc > 0 && ((sqrt_lt(disc, -bb) && sqrt_gt(disc, -bb - 2 * aa)) || (sqrt_gt(disc, bb)
        && sqrt_lt(disc, bb + 2 * aa)))
}

/// Is the straight path from `a` to `b` blocked by a performer's body (a
/// disc of radius 5) centred at `x`?  Decided exactly in 128-bit
/// arithmetic.
pub fn is_blocked(a: (i64, i64), b: (i64, i64), x: (i64, i64)) -> (r: bool)
    requires
        coord_ok(a.0 as int) && coord_ok(a.1 as int),
        coord_ok(b.0 as int) && coord_ok(b.1 as int),
        coord_ok(x.0 as int) && coord_ok(x.1 as int),
    ensures
        r == blocked_spec(a.0 as int, a.1 as int, b.0 as int, b.1 as int, x.0 as int, x.1 as int),
{
    let ax = a.0 as i128;
    let ay = a.1 as i128;
    let bx = b.0 as i128;
    let by = b.1 as i128;
    let ox = x.0 as i128;
    let oy = x.1 as i128;
    let dx = bx - ax;
    let dy = by - ay;
    let fx = ax - ox;
    let fy = ay - oy;
    proof {
        lemma_mul_bound(dx as int, dx as int, 200_000_000);
        lemma_mul_bound(dy as int, dy as int, 200_000_000);
        lemma_mul_bound(fx as int, fx as int, 200_000_000);
        lemma_mul_bound(fy as int, fy as int, 200_000_000);
        lemma_mul_bound(fx as int, dx as int, 200_000_000);
        lemma_mul_bound(fy as int, dy as int, 200_000_000);
    }
    let aa = dx * dx + dy * dy;
    let bb = 2 * (fx * dx + fy * dy);
    let cc = fx * fx + fy * fy - 25;
    proof {
        lemma_mul_bound(bb as int, bb as int, 160_000_000_000_000_000);
        lemma_mul_bound(4 * (aa as int), cc as int, 320_000_000_000_000_100);
    }
    let disc = bb * bb - 4 * aa * cc;
    proof {
        assert(aa as int == occ_a(a.0 as int, a.1 as int, b.0 as int, b.1 as int));
        assert(bb as int == occ_b(
            a.0 as int,
            a.1 as int,
            b.0 as int,
            b.1 as int,
            x.0 as int,
            x.1 as int,
        ));
        assert(cc as int == occ_c(a.0 as int, a.1 as int, x.0 as int, x.1 as int));
        assert(disc as int == occ_disc(
            a.0 as int,
            a.1 as int,
            b.0 as int,
            b.1 as int,
            x.0 as int,
            x.1 as int,
        ));
    }
    if disc <= 0 {
        return false;
    }
    proof {
        lemma_mul_bound(bb + 2 * aa, bb + 2 * aa, 320_000_000_000_000_000);
        assert((-bb - 2 * aa) * (-bb - 2 * aa) == (bb + 2 * aa) * (bb + 2 * aa))
            by (nonlinear_arith);
        assert((-bb) * (-bb) == bb * bb) by (nonlinear_arith);
    }
    let edge = bb + 2 * aa;
    let edge_sq = edge * edge;
    let bb_sq = bb * bb;
    let t1_above_0 = -bb > 0 && disc < bb_sq;
    let t1_below_1 = -bb - 2 * aa < 0 || disc > edge_sq;
    let t2_above_0 = bb < 0 || disc > bb_sq;
    let t2_below_1 = edge > 0 && disc < edge_sq;
    (t1_above_0 && t1_below_1) || (t2_above_0 && t2_below_1)
}

} // verus!
