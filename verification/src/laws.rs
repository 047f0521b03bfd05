//! The library's general laws, each proved once and for all inputs its
//! statement admits: what the scorer returns on an empty audience, on an
//! out-of-bounds performer and on an under-separated pair, and how the
//! visibility oracle treats obstacles on the line through a segment.

use crate::arith::ceil_div;
use crate::geometry::{blocked_spec, dist_sq, occ_a, occ_b, occ_c, occ_disc};
use crate::scoring::{
    att_blocked, att_d2, contribution, eval_text, eval_value, first_violator, has_violation,
    in_bounds, lemma_first_violator_skip, lemma_performer_sum_empty, listener_sum, pair_d2,
    performer_sum, sep_violation, total_happiness, verdict, verdict_from, Verdict,
};
use crate::text::{lemma_oob_text_nonempty, lemma_sep_text_nonempty, oob_text, sep_text};
use crate::{Attendee, EvalResult, Point, Prob};
use vstd::arithmetic::div_mod::{
    lemma_fundamental_div_mod, lemma_fundamental_div_mod_converse, lemma_mod_bound,
};
use vstd::prelude::*;

verus! {

/// A scan that starts after a clean prefix fires the same rule as the
/// scan from the start.
proof fn lemma_scan_reaches(prob: Prob, ms: Seq<Point>, k0: int)
    requires
        0 <= k0 <= ms.len(),
        forall|k: int| 0 <= k < k0 ==> in_bounds(prob, #[trigger] ms[k]),
        forall|k: int| 0 <= k < k0 ==> !has_violation(ms, k),
    ensures
        verdict_from(prob, ms, 0) == verdict_from(prob, ms, k0),
    decreases k0,
{
    if k0 > 0 {
        lemma_scan_reaches(prob, ms, k0 - 1);
    }
}

/// A placement that honours both rules throughout is accepted.
proof fn lemma_valid_placement_accepted(prob: Prob, ms: Seq<Point>)
    requires
        forall|k: int| 0 <= k < ms.len() ==> in_bounds(prob, #[trigger] ms[k]),
        forall|k: int, k2: int|
            0 <= k < ms.len() && 0 <= k2 < ms.len() && k2 != k ==> pair_d2(
                #[trigger] ms[k],
                #[trigger] ms[k2],
            ) >= 100,
    ensures
        verdict(prob, ms) == Verdict::Accepted,
{
    assert forall|k: int| 0 <= k < ms.len() implies !has_violation(ms, k) by {
        assert(forall|k2: int| 0 <= k2 < ms.len() ==> !sep_violation(ms, k, k2));
    }
    lemma_scan_reaches(prob, ms, ms.len() as int);
}

/// With no listeners, any in-bounds, separated placement of one or more
/// performers is accepted with a total of exactly zero.
pub proof fn lemma_no_listeners_scores_zero(prob: Prob, ms: Seq<Point>)
    requires
        ms.len() >= 1,
        prob.attendees@.len() == 0,
        forall|k: int| 0 <= k < ms.len() ==> in_bounds(prob, #[trigger] ms[k]),
        forall|k: int, k2: int|
            0 <= k < ms.len() && 0 <= k2 < ms.len() && k2 != k ==> pair_d2(
                #[trigger] ms[k],
                #[trigger] ms[k2],
            ) >= 100,
    ensures
        eval_text(prob, ms) == Seq::<char>::empty(),
        eval_value(prob, ms) == 0,
{
    lemma_valid_placement_accepted(prob, ms);
    lemma_performer_sum_empty(prob, ms, ms.len() as int);
}

/// If performer `k0` stands outside the permitted region, every earlier
/// performer is in bounds, and no separation violation fires before
/// `k0`, then the result is value 0 and the non-empty message naming
/// `k0` and its coordinates.
pub proof fn lemma_out_of_bounds_rejected(prob: Prob, ms: Seq<Point>, k0: int)
    requires
        0 <= k0 < ms.len(),
        !in_bounds(prob, ms[k0]),
        forall|k: int| 0 <= k < k0 ==> in_bounds(prob, #[trigger] ms[k]),
        forall|k: int| 0 <= k < k0 ==> !has_violation(ms, k),
    ensures
        eval_text(prob, ms) == oob_text(k0, ms[k0].x as int, ms[k0].y as int),
        eval_text(prob, ms).len() > 0,
        eval_value(prob, ms) == 0,
{
    lemma_scan_reaches(prob, ms, k0);
    lemma_oob_text_nonempty(k0, ms[k0].x as int, ms[k0].y as int);
}

/// If every performer is in bounds and performers `k0` and `k20` stand
/// strictly closer than 10 units — `(k0, k20)` first in scan order —
/// then the result is value 0 and the non-empty message naming the pair
/// and its squared distance.
pub proof fn lemma_separation_rejected(prob: Prob, ms: Seq<Point>, k0: int, k20: int)
    requires
        0 <= k0 < ms.len(),
        0 <= k20 < ms.len(),
        sep_violation(ms, k0, k20),
        forall|k: int| 0 <= k < ms.len() ==> in_bounds(prob, #[trigger] ms[k]),
        forall|k: int| 0 <= k < k0 ==> !has_violation(ms, k),
        forall|j: int| 0 <= j < k20 ==> !sep_violation(ms, k0, j),
    ensures
        eval_text(prob, ms) == sep_text(k0, k20, pair_d2(ms[k0], ms[k20])),
        eval_text(prob, ms).len() > 0,
        eval_value(prob, ms) == 0,
{
    lemma_scan_reaches(prob, ms, k0);
    assert(has_violation(ms, k0));
    lemma_first_violator_skip(ms, k0, k20);
    assert(first_violator(ms, k0) == k20);
    lemma_sep_text_nonempty(k0, k20, pair_d2(ms[k0], ms[k20]));
}

/// An obstacle exactly on the segment, strictly between the endpoints
/// (at fraction `p / q` of the way), with both endpoints strictly
/// outside the obstacle's disc, blocks the path.
pub proof fn lemma_obstacle_on_segment_blocks(
    ax: int,
    ay: int,
    bx: int,
    by: int,
    ox: int,
    oy: int,
    p: int,
    q: int,
)
    requires
        0 < p < q,
        (ox - ax) * q == p * (bx - ax),
        (oy - ay) * q == p * (by - ay),
        dist_sq(ax, ay, ox, oy) > 25,
        dist_sq(bx, by, ox, oy) > 25,
    ensures
        blocked_spec(ax, ay, bx, by, ox, oy),
{
    let dx = bx - ax;
    let dy = by - ay;
    let fx = ax - ox;
    let fy = ay - oy;
    let aa = occ_a(ax, ay, bx, by);
    let bb = occ_b(ax, ay, bx, by, ox, oy);
    let cc = occ_c(ax, ay, ox, oy);
    let disc = occ_disc(ax, ay, bx, by, ox, oy);
    assert(aa == dx * dx + dy * dy);
    assert(bb == 2 * (fx * dx + fy * dy));
    assert(cc == fx * fx + fy * fy - 25);
    assert(disc == bb * bb - 4 * aa * cc);
    assert(fx * q == -p * dx && fy * q == -p * dy) by (nonlinear_arith)
        requires
            (ox - ax) * q == p * (bx - ax) && (oy - ay) * q == p * (by - ay) && fx == ax - ox && fy
                == ay - oy && dx == bx - ax && dy == by - ay,
    ;
    assert(cc > 0) by (nonlinear_arith)
        requires
            cc == fx * fx + fy * fy - 25 && dist_sq(ax, ay, ox, oy) > 25 && dist_sq(ax, ay, ox, oy)
                == (ox - ax) * (ox - ax) + (oy - ay) * (oy - ay) && fx == ax - ox && fy == ay - oy,
    ;
    if dx == 0 && dy == 0 {
        assert(fx == 0 && fy == 0) by (nonlinear_arith)
            requires
                fx * q == -p * dx && fy * q == -p * dy && dx == 0 && dy == 0 && q > 0,
        ;
        assert(false);
    }
    assert(aa > 0) by (nonlinear_arith)
        requires
            aa == dx * dx + dy * dy && (dx != 0 || dy != 0),
    ;
    assert((fx * dx) * q == -p * (dx * dx)) by (nonlinear_arith)
        requires
            fx * q == -p * dx,
    ;
    assert((fy * dy) * q == -p * (dy * dy)) by (nonlinear_arith)
        requires
            fy * q == -p * dy,
    ;
    assert(q * bb == -2 * p * aa) by (nonlinear_arith)
        requires
            bb == 2 * (fx * dx + fy * dy) && aa == dx * dx + dy * dy && (fx * dx) * q == -p * (dx
                * dx) && (fy * dy) * q == -p * (dy * dy),
    ;
    assert((q * q) * (fx * fx) == (p * p) * (dx * dx)) by (nonlinear_arith)
        requires
            fx * q == -p * dx,
    ;
    assert((q * q) * (fy * fy) == (p * p) * (dy * dy)) by (nonlinear_arith)
        requires
            fy * q == -p * dy,
    ;
    assert((q * q) * cc == (p * p) * aa - 25 * (q * q)) by (nonlinear_arith)
        requires
            cc == fx * fx + fy * fy - 25 && aa == dx * dx + dy * dy && (q * q) * (fx * fx) == (p
                * p) * (dx * dx) && (q * q) * (fy * fy) == (p * p) * (dy * dy),
    ;
    assert((q * bb) * (q * bb) == 4 * ((p * p) * (aa * aa))) by (nonlinear_arith)
        requires
            q * bb == -2 * p * aa,
    ;
    assert((q * q) * (bb * bb) == 4 * ((p * p) * (aa * aa))) by (nonlinear_arith)
        requires
            (q * bb) * (q * bb) == 4 * ((p * p) * (aa * aa)),
    ;
    assert((q * q) * (4 * aa * cc) == 4 * ((p * p) * (aa * aa)) - 100 * aa * (q * q))
        by (nonlinear_arith)
        requires
            (q * q) * cc == (p * p) * aa - 25 * (q * q),
    ;
    assert((q * q) * disc == 100 * aa * (q * q)) by (nonlinear_arith)
        requires
            disc == bb * bb - 4 * aa * cc && (q * q) * (bb * bb) == 4 * ((p * p) * (aa * aa)) && (q
                * q) * (4 * aa * cc) == 4 * ((p * p) * (aa * aa)) - 100 * aa * (q * q),
    ;
    assert(disc == 100 * aa) by (nonlinear_arith)
        requires
            (q * q) * disc == 100 * aa * (q * q) && q >= 1,
    ;
    assert(bb < 0) by (nonlinear_arith)
        requires
            q * bb == -2 * p * aa && p >= 1 && aa >= 1 && q >= 1,
    ;
    assert(bb * bb - disc == 4 * aa * cc);
    assert(4 * aa * cc > 0) by (nonlinear_arith)
        requires
            aa > 0 && cc > 0,
    ;
    assert((-bb) * (-bb) == bb * bb) by (nonlinear_arith);
    assert(bb + 2 * aa > 0) by (nonlinear_arith)
        requires
            q * bb == -2 * p * aa && p < q && aa >= 1 && q >= 1,
    ;
}

/// An obstacle on the line through the segment but at or beyond an
/// endpoint (fraction `p / q` with `p <= 0` or `p >= q`), no closer
/// than 5 units to either endpoint, never blocks the path.
pub proof fn lemma_obstacle_beyond_segment_clear(
    ax: int,
    ay: int,
    bx: int,
    by: int,
    ox: int,
    oy: int,
    p: int,
    q: int,
)
    requires
        q > 0,
        p <= 0 || p >= q,
        (ox - ax) * q == p * (bx - ax),
        (oy - ay) * q == p * (by - ay),
        dist_sq(ax, ay, ox, oy) >= 25,
        dist_sq(bx, by, ox, oy) >= 25,
    ensures
        !blocked_spec(ax, ay, bx, by, ox, oy),
{
    let dx = bx - ax;
    let dy = by - ay;
    let fx = ax - ox;
    let fy = ay - oy;
    let aa = occ_a(ax, ay, bx, by);
    let bb = occ_b(ax, ay, bx, by, ox, oy);
    let cc = occ_c(ax, ay, ox, oy);
    let disc = occ_disc(ax, ay, bx, by, ox, oy);
    assert(aa == dx * dx + dy * dy);
    assert(bb == 2 * (fx * dx + fy * dy));
    assert(cc == fx * fx + fy * fy - 25);
    assert(disc == bb * bb - 4 * aa * cc);
    assert(fx * q == -p * dx && fy * q == -p * dy) by (nonlinear_arith)
        requires
            (ox - ax) * q == p * (bx - ax) && (oy - ay) * q == p * (by - ay) && fx == ax - ox && fy
                == ay - oy && dx == bx - ax && dy == by - ay,
    ;
    assert(cc >= 0) by (nonlinear_arith)
        requires
            cc == fx * fx + fy * fy - 25 && dist_sq(ax, ay, ox, oy) >= 25 && dist_sq(
                ax,
                ay,
                ox,
                oy,
            ) == (ox - ax) * (ox - ax) + (oy - ay) * (oy - ay) && fx == ax - ox && fy == ay - oy,
    ;
    if dx == 0 && dy == 0 {
        assert(bb == 0 && aa == 0);
        assert(disc == 0) by (nonlinear_arith)
            requires
                disc == bb * bb - 4 * aa * cc && bb == 0 && aa == 0,
        ;
    } else {
        assert(aa > 0) by (nonlinear_arith)
            requires
                aa == dx * dx + dy * dy && (dx != 0 || dy != 0),
        ;
        assert((fx * dx) * q == -p * (dx * dx)) by (nonlinear_arith)
            requires
                fx * q == -p * dx,
        ;
        assert((fy * dy) * q == -p * (dy * dy)) by (nonlinear_arith)
            requires
                fy * q == -p * dy,
        ;
        assert(q * bb == -2 * p * aa) by (nonlinear_arith)
            requires
                bb == 2 * (fx * dx + fy * dy) && aa == dx * dx + dy * dy && (fx * dx) * q == -p * (
                dx * dx) && (fy * dy) * q == -p * (dy * dy),
        ;
        assert(bb * bb - disc == 4 * aa * cc);
        assert(4 * aa * cc >= 0) by (nonlinear_arith)
            requires
                aa > 0 && cc >= 0,
        ;
        if p <= 0 {
            assert(bb >= 0) by (nonlinear_arith)
                requires
                    q * bb == -2 * p * aa && p <= 0 && aa >= 1 && q >= 1,
            ;
        } else {
            assert(aa + bb + cc == dist_sq(bx, by, ox, oy) - 25) by (nonlinear_arith)
                requires
                    aa == dx * dx + dy * dy && bb == 2 * (fx * dx + fy * dy) && cc == fx * fx + fy
                        * fy - 25 && dx == bx - ax && dy == by - ay && fx == ax - ox && fy == ay
                        - oy && dist_sq(bx, by, ox, oy) == (ox - bx) * (ox - bx) + (oy - by) * (oy
                        - by),
            ;
            assert(bb + 2 * aa <= 0) by (nonlinear_arith)
                requires
                    q * bb == -2 * p * aa && p >= q && aa >= 1 && q >= 1,
            ;
            assert((bb + 2 * aa) * (bb + 2 * aa) - disc == 4 * aa * (aa + bb + cc))
                by (nonlinear_arith)
                requires
                    disc == bb * bb - 4 * aa * cc,
            ;
            assert(4 * aa * (aa + bb + cc) >= 0) by (nonlinear_arith)
                requires
                    aa > 0 && aa + bb + cc >= 0,
            ;
            assert((-bb - 2 * aa) * (-bb - 2 * aa) == (bb + 2 * aa) * (bb + 2 * aa))
                by (nonlinear_arith);
        }
    }
}

/// Raising a taste by `dt > 0`, when the squared distance `d2` divides
/// `1_000_000 * dt` exactly, raises the pair's contribution — and with
/// it the happiness total, occlusion unchanged — by exactly
/// `1_000_000 * dt / d2`; in particular it raises it strictly.
pub proof fn lemma_taste_increase_exact(t: int, dt: int, d2: int)
    requires
        d2 > 0,
        dt > 0,
        (1_000_000 * dt) % d2 == 0,
    ensures
        ceil_div(1_000_000 * (t + dt), d2) == ceil_div(1_000_000 * t, d2) + (1_000_000 * dt) / d2,
        ceil_div(1_000_000 * (t + dt), d2) > ceil_div(1_000_000 * t, d2),
{
    let a = 1_000_000 * t;
    let c = 1_000_000 * dt;
    let m = c / d2;
    lemma_fundamental_div_mod(c, d2);
    lemma_fundamental_div_mod(-a, d2);
    lemma_mod_bound(-a, d2);
    let qq = (-a) / d2;
    let rr = (-a) % d2;
    assert(-(a + c) == (qq - m) * d2 + rr) by (nonlinear_arith)
        requires
            -a == d2 * qq + rr && c == d2 * m + (c % d2) && c % d2 == 0,
    ;
    lemma_fundamental_div_mod_converse(-(a + c), d2, qq - m, rr);
    assert(1_000_000 * (t + dt) == a + c) by (nonlinear_arith)
        requires
            a == 1_000_000 * t && c == 1_000_000 * dt,
    ;
    assert(m >= 1) by (nonlinear_arith)
        requires
            c == d2 * m + (c % d2) && c % d2 == 0 && c >= 1_000_000 && d2 > 0,
    ;
}

/// Determinism: the scorer's contract pins the whole result, so any
/// two results it returns for the same problem and placement carry the
/// same message and the same value.
pub proof fn lemma_evaluate_deterministic(
    prob: Prob,
    ms: Seq<Point>,
    r1: EvalResult,
    r2: EvalResult,
)
    requires
        r1.msg@ == eval_text(prob, ms),
        r1.value as int == eval_value(prob, ms),
        r2.msg@ == eval_text(prob, ms),
        r2.value as int == eval_value(prob, ms),
    ensures
        r1.msg@ == r2.msg@,
        r1.value == r2.value,
{
}

/// Whether a performer blocks a listener depends on the listener's
/// position alone, not on its tastes.
proof fn lemma_att_blocked_position(ms: Seq<Point>, k: int, a1: Attendee, a2: Attendee)
    requires
        a1.x == a2.x,
        a1.y == a2.y,
    ensures
        att_blocked(ms, k, a1) == att_blocked(ms, k, a2),
{
    if att_blocked(ms, k, a1) {
        let k2 = choose|k2: int|
            0 <= k2 < ms.len() && k2 != k && blocked_spec(
                ms[k].x as int,
                ms[k].y as int,
                a1.x as int,
                a1.y as int,
                ms[k2].x as int,
                ms[k2].y as int,
            );
        assert(blocked_spec(
            ms[k].x as int,
            ms[k].y as int,
            a2.x as int,
            a2.y as int,
            ms[k2].x as int,
            ms[k2].y as int,
        ));
        assert(att_blocked(ms, k, a2));
    }
    if att_blocked(ms, k, a2) {
        let k2 = choose|k2: int|
            0 <= k2 < ms.len() && k2 != k && blocked_spec(
                ms[k].x as int,
                ms[k].y as int,
                a2.x as int,
                a2.y as int,
                ms[k2].x as int,
                ms[k2].y as int,
            );
        assert(blocked_spec(
            ms[k].x as int,
            ms[k].y as int,
            a1.x as int,
            a1.y as int,
            ms[k2].x as int,
            ms[k2].y as int,
        ));
        assert(att_blocked(ms, k, a1));
    }
}

/// Two problems that agree on the stage get the same verdict for the
/// same placement: the verdict never reads the audience.
proof fn lemma_verdict_ignores_audience(prob1: Prob, prob2: Prob, ms: Seq<Point>, kk: int)
    requires
        prob2.stage_bottom_left == prob1.stage_bottom_left,
        prob2.stage_width == prob1.stage_width,
        prob2.stage_height == prob1.stage_height,
    ensures
        verdict_from(prob2, ms, kk) == verdict_from(prob1, ms, kk),
    decreases ms.len() - kk,
{
    if 0 <= kk < ms.len() {
        lemma_verdict_ignores_audience(prob1, prob2, ms, kk + 1);
    }
}

/// `prob2` is `prob1` with listener `i0`'s taste for the instrument of
/// performer `k0` — an instrument no other performer plays — raised by
/// `dt`; everything else, the listener's position included, is
/// unchanged.
pub open spec fn single_taste_raised(
    prob1: Prob,
    prob2: Prob,
    k0: int,
    i0: int,
    dt: int,
) -> bool {
    &&& 0 <= k0 < prob1.musicians@.len()
    &&& 0 <= i0 < prob1.attendees@.len()
    &&& prob2.musicians@ == prob1.musicians@
    &&& prob2.stage_bottom_left == prob1.stage_bottom_left
    &&& prob2.stage_width == prob1.stage_width
    &&& prob2.stage_height == prob1.stage_height
    &&& prob2.attendees@.len() == prob1.attendees@.len()
    &&& forall|i: int|
        0 <= i < prob1.attendees@.len() && i != i0 ==> (#[trigger] prob2.attendees@[i])
            == prob1.attendees@[i]
    &&& prob2.attendees@[i0].x == prob1.attendees@[i0].x
    &&& prob2.attendees@[i0].y == prob1.attendees@[i0].y
    &&& prob2.attendees@[i0].tastes@.len() == prob1.attendees@[i0].tastes@.len()
    &&& forall|j: int|
        0 <= j < prob1.attendees@[i0].tastes@.len() && j != prob1.musicians@[k0] as int ==> (
        #[trigger] prob2.attendees@[i0].tastes@[j]) == prob1.attendees@[i0].tastes@[j]
    &&& prob2.attendees@[i0].tastes@[prob1.musicians@[k0] as int] == prob1.attendees@[i0].tastes@[
        prob1.musicians@[k0] as int
    ] + dt
    &&& forall|k: int|
        0 <= k < prob1.musicians@.len() ==> (#[trigger] prob1.musicians@[k] as int)
            < prob1.attendees@[i0].tastes@.len()
    &&& forall|k: int|
        0 <= k < prob1.musicians@.len() && k != k0 ==> (#[trigger] prob1.musicians@[k])
            != prob1.musicians@[k0]
}

/// Raising that one taste leaves every other pair's contribution as it
/// was.
proof fn lemma_contribution_unchanged(
    prob1: Prob,
    prob2: Prob,
    ms: Seq<Point>,
    k0: int,
    i0: int,
    dt: int,
    k: int,
    i: int,
)
    requires
        single_taste_raised(prob1, prob2, k0, i0, dt),
        ms.len() == prob1.musicians@.len(),
        0 <= k < ms.len(),
        0 <= i < prob1.attendees@.len(),
        k != k0 || i != i0,
    ensures
        contribution(prob2, ms, k, i) == contribution(prob1, ms, k, i),
{
    let a1 = prob1.attendees@[i];
    let a2 = prob2.attendees@[i];
    if i != i0 {
        assert(a2 == a1);
    } else {
        lemma_att_blocked_position(ms, k, a1, a2);
        let j = prob1.musicians@[k] as int;
        assert(j != prob1.musicians@[k0] as int);
        assert(a2.tastes@[j] == a1.tastes@[j]);
    }
}

/// Listener sums of the other performers are untouched.
proof fn lemma_listener_sum_unchanged(
    prob1: Prob,
    prob2: Prob,
    ms: Seq<Point>,
    k0: int,
    i0: int,
    dt: int,
    k: int,
    i: int,
)
    requires
        single_taste_raised(prob1, prob2, k0, i0, dt),
        ms.len() == prob1.musicians@.len(),
        0 <= k < ms.len(),
        k != k0,
        0 <= i <= prob1.attendees@.len(),
    ensures
        listener_sum(prob2, ms, k, i) == listener_sum(prob1, ms, k, i),
    decreases i,
{
    if i > 0 {
        lemma_listener_sum_unchanged(prob1, prob2, ms, k0, i0, dt, k, i - 1);
        lemma_contribution_unchanged(prob1, prob2, ms, k0, i0, dt, k, i - 1);
    }
}

/// Performer `k0`'s listener sum gains exactly the one pair's increment
/// once the sum has passed listener `i0`.
proof fn lemma_listener_sum_shifted(
    prob1: Prob,
    prob2: Prob,
    ms: Seq<Point>,
    k0: int,
    i0: int,
    dt: int,
    i: int,
)
    requires
        single_taste_raised(prob1, prob2, k0, i0, dt),
        ms.len() == prob1.musicians@.len(),
        dt > 0,
        !att_blocked(ms, k0, prob1.attendees@[i0]),
        att_d2(ms[k0], prob1.attendees@[i0]) > 0,
        (1_000_000 * dt) % att_d2(ms[k0], prob1.attendees@[i0]) == 0,
        0 <= i <= prob1.attendees@.len(),
    ensures
        listener_sum(prob2, ms, k0, i) == listener_sum(prob1, ms, k0, i) + if i > i0 {
            (1_000_000 * dt) / att_d2(ms[k0], prob1.attendees@[i0])
        } else {
            0
        },
    decreases i,
{
    if i > 0 {
        lemma_listener_sum_shifted(prob1, prob2, ms, k0, i0, dt, i - 1);
        if i - 1 == i0 {
            let a1 = prob1.attendees@[i0];
            let a2 = prob2.attendees@[i0];
            let d2 = att_d2(ms[k0], a1);
            let t1 = a1.tastes@[prob1.musicians@[k0] as int] as int;
            lemma_att_blocked_position(ms, k0, a1, a2);
            assert(att_d2(ms[k0], a2) == d2);
            lemma_taste_increase_exact(t1, dt, d2);
        } else {
            lemma_contribution_unchanged(prob1, prob2, ms, k0, i0, dt, k0, i - 1);
        }
    }
}

/// The running performer sum gains exactly the one increment once it
/// has passed performer `k0`.
proof fn lemma_performer_sum_shifted(
    prob1: Prob,
    prob2: Prob,
    ms: Seq<Point>,
    k0: int,
    i0: int,
    dt: int,
    kk: int,
)
    requires
        single_taste_raised(prob1, prob2, k0, i0, dt),
        ms.len() == prob1.musicians@.len(),
        dt > 0,
        !att_blocked(ms, k0, prob1.attendees@[i0]),
        att_d2(ms[k0], prob1.attendees@[i0]) > 0,
        (1_000_000 * dt) % att_d2(ms[k0], prob1.attendees@[i0]) == 0,
        0 <= kk <= ms.len(),
    ensures
        performer_sum(prob2, ms, kk) == performer_sum(prob1, ms, kk) + if kk > k0 {
            (1_000_000 * dt) / att_d2(ms[k0], prob1.attendees@[i0])
        } else {
            0
        },
    decreases kk,
{
    if kk > 0 {
        lemma_performer_sum_shifted(prob1, prob2, ms, k0, i0, dt, kk - 1);
        if kk - 1 == k0 {
            lemma_listener_sum_shifted(
                prob1,
                prob2,
                ms,
                k0,
                i0,
                dt,
                prob1.attendees@.len() as int,
            );
        } else {
            lemma_listener_sum_unchanged(
                prob1,
                prob2,
                ms,
                k0,
                i0,
                dt,
                kk - 1,
                prob1.attendees@.len() as int,
            );
        }
    }
}

/// Monotonicity of the total: raise one listener's taste for the
/// instrument that performer `k0` alone plays, by `dt > 0`, the pair
/// unobstructed and the squared distance dividing `1_000_000 * dt`
/// exactly; then the verdict is unchanged, and an accepted placement's
/// value rises by exactly `ceil(1_000_000 * dt / d2)` — here the exact
/// quotient — and so strictly.
pub proof fn lemma_taste_monotonic(
    prob1: Prob,
    prob2: Prob,
    ms: Seq<Point>,
    k0: int,
    i0: int,
    dt: int,
)
    requires
        single_taste_raised(prob1, prob2, k0, i0, dt),
        ms.len() == prob1.musicians@.len(),
        dt > 0,
        !att_blocked(ms, k0, prob1.attendees@[i0]),
        att_d2(ms[k0], prob1.attendees@[i0]) > 0,
        (1_000_000 * dt) % att_d2(ms[k0], prob1.attendees@[i0]) == 0,
    ensures
        verdict(prob2, ms) == verdict(prob1, ms),
        total_happiness(prob2, ms) == total_happiness(prob1, ms) + (1_000_000 * dt) / att_d2(
            ms[k0],
            prob1.attendees@[i0],
        ),
        total_happiness(prob2, ms) > total_happiness(prob1, ms),
        verdict(prob1, ms) is Accepted ==> eval_value(prob2, ms) > eval_value(prob1, ms),
{
    lemma_verdict_ignores_audience(prob1, prob2, ms, 0);
    lemma_performer_sum_shifted(prob1, prob2, ms, k0, i0, dt, ms.len() as int);
    let d2 = att_d2(ms[k0], prob1.attendees@[i0]);
    let t1 = prob1.attendees@[i0].tastes@[prob1.musicians@[k0] as int] as int;
    lemma_taste_increase_exact(t1, dt, d2);
}

} // verus!
