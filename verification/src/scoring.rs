//! The scorer: validates a placement against the stage margin and the
//! pairwise separation rule, and totals the audience's happiness.
//!
//! For each performer in index order the scorer first checks the stage
//! bounds (a failure ends the evaluation with a diagnostic and value 0),
//! then adds every listener's contribution — zero when another performer
//! blocks the path, otherwise `ceil(1_000_000 * taste / d2)` — and last
//! checks the separation rule against every other performer (a failure
//! again ends the evaluation with value 0, discarding the partial total).

use crate::arith::{ceil_div, lemma_ceil_div_abs_bound, lemma_ceil_div_pos, lemma_mul_bound};
use crate::geometry::{blocked_spec, dist_sq, is_blocked};
use crate::text::{
    lemma_oob_text_nonempty, lemma_sep_text_nonempty, oob_message, oob_text, sep_message, sep_text,
};
use crate::{coord_ok, point_ok, Attendee, EvalResult, Point, Prob, Sol};
use vstd::math::abs;
use vstd::prelude::*;

verus! {

/// Leftmost x a performer may occupy: the stage's left edge plus the
/// 10-unit margin.
pub open spec fn stage_left(prob: Prob) -> int {
    prob.stage_bottom_left.0 + 10
}

/// Rightmost x a performer may occupy.
pub open spec fn stage_right(prob: Prob) -> int {
    prob.stage_bottom_left.0 + prob.stage_width - 10
}

/// Lowest y a performer may occupy.
pub open spec fn stage_bottom(prob: Prob) -> int {
    prob.stage_bottom_left.1 + 10
}

/// Highest y a performer may occupy.
pub open spec fn stage_top(prob: Prob) -> int {
    prob.stage_bottom_left.1 + prob.stage_height - 10
}

/// The bounds rule: `p` lies in the stage rectangle inset by the margin,
/// boundaries included.
pub open spec fn in_bounds(prob: Prob, p: Point) -> bool {
    stage_left(prob) <= p.x <= stage_right(prob) && stage_bottom(prob) <= p.y <= stage_top(prob)
}

/// Squared distance between two performer positions.
pub open spec fn pair_d2(p: Point, q: Point) -> int {
    dist_sq(p.x as int, p.y as int, q.x as int, q.y as int)
}

/// Squared distance between a performer position and a listener.
pub open spec fn att_d2(p: Point, a: Attendee) -> int {
    dist_sq(p.x as int, p.y as int, a.x as int, a.y as int)
}

/// Some other performer blocks the path from performer `k` to listener
/// `a`.
pub open spec fn att_blocked(ms: Seq<Point>, k: int, a: Attendee) -> bool {
    exists|k2: int|
        0 <= k2 < ms.len() && k2 != k && blocked_spec(
            ms[k].x as int,
            ms[k].y as int,
            a.x as int,
            a.y as int,
            ms[k2].x as int,
            ms[k2].y as int,
        )
}

/// What listener `i` receives from performer `k`: nothing when the path
/// is blocked, otherwise the taste for `k`'s instrument, scaled by a
/// million and divided (rounding up) by the squared distance.
pub open spec fn contribution(prob: Prob, ms: Seq<Point>, k: int, i: int) -> int {
    let a = prob.attendees@[i];
    if att_blocked(ms, k, a) {
        0
    } else {
        ceil_div(1_000_000 * a.tastes@[prob.musicians@[k] as int], att_d2(ms[k], a))
    }
}

/// Performer `k`'s happiness total over the first `i` listeners.
pub open spec fn listener_sum(prob: Prob, ms: Seq<Point>, k: int, i: int) -> int
    decreases i,
{
    if i <= 0 {
        0
    } else {
        listener_sum(prob, ms, k, i - 1) + contribution(prob, ms, k, i - 1)
    }
}

/// The happiness total of the first `k` performers over the whole
/// audience.
pub open spec fn performer_sum(prob: Prob, ms: Seq<Point>, k: int) -> int
    decreases k,
{
    if k <= 0 {
        0
    } else {
        performer_sum(prob, ms, k - 1) + listener_sum(
            prob,
            ms,
            k - 1,
            prob.attendees@.len() as int,
        )
    }
}

/// The happiness total of the whole placement.
pub open spec fn total_happiness(prob: Prob, ms: Seq<Point>) -> int {
    performer_sum(prob, ms, ms.len() as int)
}

/// Performers `k` and `k2` stand strictly closer than the minimum
/// separation of 10 units.
pub open spec fn sep_violation(ms: Seq<Point>, k: int, k2: int) -> bool {
    k2 != k && pair_d2(ms[k], ms[k2]) < 100
}

/// Performer `k` stands too close to some other performer.
pub open spec fn has_violation(ms: Seq<Point>, k: int) -> bool {
    exists|k2: int| 0 <= k2 < ms.len() && sep_violation(ms, k, k2)
}

/// The first index at or after `j` violating separation against `k`, or
/// the placement's length when there is none.
pub open spec fn first_violator_from(ms: Seq<Point>, k: int, j: int) -> int
    decreases ms.len() - j,
{
    if j < 0 || j >= ms.len() {
        ms.len() as int
    } else if sep_violation(ms, k, j) {
        j
    } else {
        first_violator_from(ms, k, j + 1)
    }
}

/// The first index violating separation against `k`.
pub open spec fn first_violator(ms: Seq<Point>, k: int) -> int {
    first_violator_from(ms, k, 0)
}

/// The outcome of the validation scan.
pub enum Verdict {
    /// Every performer passed both rules.
    Accepted,
    /// Performer `k` is the first to stand outside the permitted region.
    OutOfBounds { k: int },
    /// The first rule to fire was the separation rule, for performer `k`
    /// against performer `k2`.
    Separation { k: int, k2: int },
}

/// The first rule to fire at or after performer `k`, scanning in index
/// order: the bounds rule for performer `k`, then its separation rule,
/// then the next performer.
pub open spec fn verdict_from(prob: Prob, ms: Seq<Point>, k: int) -> Verdict
    decreases ms.len() - k,
{
    if k < 0 || k >= ms.len() {
        Verdict::Accepted
    } else if !in_bounds(prob, ms[k]) {
        Verdict::OutOfBounds { k }
    } else if has_violation(ms, k) {
        Verdict::Separation { k, k2: first_violator(ms, k) }
    } else {
        verdict_from(prob, ms, k + 1)
    }
}

/// The first rule the placement breaks, if any.
pub open spec fn verdict(prob: Prob, ms: Seq<Point>) -> Verdict {
    verdict_from(prob, ms, 0)
}

/// The message the evaluation returns: empty on acceptance, else the
/// diagnostic of the first rule broken.
pub open spec fn eval_text(prob: Prob, ms: Seq<Point>) -> Seq<char> {
    match verdict(prob, ms) {
        Verdict::Accepted => Seq::empty(),
        Verdict::OutOfBounds { k } => oob_text(k, ms[k].x as int, ms[k].y as int),
        Verdict::Separation { k, k2 } => sep_text(k, k2, pair_d2(ms[k], ms[k2])),
    }
}

/// The value the evaluation returns: the happiness total on acceptance,
/// zero on rejection.
pub open spec fn eval_value(prob: Prob, ms: Seq<Point>) -> int {
    if verdict(prob, ms) is Accepted {
        total_happiness(prob, ms)
    } else {
        0
    }
}

/// A problem the library accepts: positive room and stage extents,
/// coordinates within `COORD_LIMIT`, and every performer's instrument
/// index within every listener's taste vector.
pub open spec fn prob_ok(prob: Prob) -> bool {
    &&& prob.room_width > 0
    &&& prob.room_height > 0
    &&& prob.stage_width > 0
    &&& prob.stage_height > 0
    &&& coord_ok(prob.stage_bottom_left.0 as int)
    &&& coord_ok(prob.stage_bottom_left.1 as int)
    &&& coord_ok(prob.stage_bottom_left.0 + prob.stage_width)
    &&& coord_ok(prob.stage_bottom_left.1 + prob.stage_height)
    &&& forall|i: int|
        0 <= i < prob.attendees@.len() ==> coord_ok(#[trigger] prob.attendees@[i].x as int)
            && coord_ok(prob.attendees@[i].y as int)
    &&& forall|i: int, k: int|
        0 <= i < prob.attendees@.len() && 0 <= k < prob.musicians@.len() ==> (
        #[trigger] prob.musicians@[k] as int) < (#[trigger] prob.attendees@[i]).tastes@.len()
}

/// Every placement coordinate is within `COORD_LIMIT`.
pub open spec fn placements_ok(ms: Seq<Point>) -> bool {
    forall|k: int| 0 <= k < ms.len() ==> point_ok(#[trigger] ms[k])
}

/// No listener sits exactly on a performer's position (there the squared
/// distance would be zero and a contribution would divide by it).
pub open spec fn no_coincidence(prob: Prob, ms: Seq<Point>) -> bool {
    forall|k: int, i: int|
        0 <= k < ms.len() && 0 <= i < prob.attendees@.len() ==> !((#[trigger] ms[k]).x == (
        #[trigger] prob.attendees@[i]).x && ms[k].y == prob.attendees@[i].y)
}

/// Every taste is small enough that the happiness total of `M * A`
/// contributions fits the signed 64-bit accumulator.
pub open spec fn score_fits(prob: Prob) -> bool {
    forall|i: int, j: int|
        0 <= i < prob.attendees@.len() && 0 <= j < prob.attendees@[i].tastes@.len() ==> abs(
            (#[trigger] prob.attendees@[i].tastes@[j]) as int,
        ) * 1_000_000 * (prob.musicians@.len() * prob.attendees@.len()) <= i64::MAX as int
}

/// Distinct integer points are at positive squared distance.
proof fn lemma_dist_sq_pos(ax: int, ay: int, bx: int, by: int)
    requires
        ax != bx || ay != by,
    ensures
        dist_sq(ax, ay, bx, by) > 0,
{
    assert((bx - ax) * (bx - ax) >= 0 && (by - ay) * (by - ay) >= 0 && (ax != bx ==> (bx - ax) * (
    bx - ax) > 0) && (ay != by ==> (by - ay) * (by - ay) > 0)) by (nonlinear_arith);
}

/// One contribution, scaled by the number of performer-listener pairs,
/// fits the accumulator.
proof fn lemma_contribution_bound(prob: Prob, ms: Seq<Point>, k: int, i: int)
    requires
        ms.len() == prob.musicians@.len(),
        0 <= k < ms.len(),
        0 <= i < prob.attendees@.len(),
        prob_ok(prob),
        no_coincidence(prob, ms),
        score_fits(prob),
    ensures
        abs(contribution(prob, ms, k, i)) * (prob.musicians@.len() * prob.attendees@.len())
            <= i64::MAX as int,
{
    let a = prob.attendees@[i];
    let cap = i64::MAX as int;
    let pairs = prob.musicians@.len() * prob.attendees@.len();
    assert(pairs >= 1) by (nonlinear_arith)
        requires
            pairs == prob.musicians@.len() * prob.attendees@.len() && prob.musicians@.len() >= 1
                && prob.attendees@.len() >= 1,
    ;
    if att_blocked(ms, k, a) {
        assert(abs(contribution(prob, ms, k, i)) * pairs == 0) by (nonlinear_arith)
            requires
                abs(contribution(prob, ms, k, i)) == 0,
        ;
    } else {
        let t = a.tastes@[prob.musicians@[k] as int] as int;
        let d2 = att_d2(ms[k], a);
        lemma_dist_sq_pos(ms[k].x as int, ms[k].y as int, a.x as int, a.y as int);
        lemma_ceil_div_abs_bound(1_000_000 * t, d2);
        assert(abs(1_000_000 * t) == abs(t) * 1_000_000) by (nonlinear_arith);
        assert(abs(contribution(prob, ms, k, i)) * pairs <= abs(t) * 1_000_000 * pairs)
            by (nonlinear_arith)
            requires
                abs(contribution(prob, ms, k, i)) <= abs(t) * 1_000_000 && pairs >= 1,
        ;
    }
}

/// A partial listener sum, scaled by the number of pairs, grows by at
/// most the accumulator's capacity per listener.
proof fn lemma_listener_sum_bound(prob: Prob, ms: Seq<Point>, k: int, i: int)
    requires
        ms.len() == prob.musicians@.len(),
        0 <= k < ms.len(),
        0 <= i <= prob.attendees@.len(),
        prob_ok(prob),
        no_coincidence(prob, ms),
        score_fits(prob),
    ensures
        abs(listener_sum(prob, ms, k, i)) * (prob.musicians@.len() * prob.attendees@.len()) <= i
            * (i64::MAX as int),
    decreases i,
{
    let cap = i64::MAX as int;
    let pairs = prob.musicians@.len() * prob.attendees@.len();
    if i <= 0 {
        assert(abs(listener_sum(prob, ms, k, i)) * pairs == 0) by (nonlinear_arith)
            requires
                abs(listener_sum(prob, ms, k, i)) == 0,
        ;
    } else {
        lemma_listener_sum_bound(prob, ms, k, i - 1);
        lemma_contribution_bound(prob, ms, k, i - 1);
        assert(abs(listener_sum(prob, ms, k, i)) * pairs <= i * cap) by (nonlinear_arith)
            requires
                listener_sum(prob, ms, k, i) == listener_sum(prob, ms, k, i - 1) + contribution(
                    prob,
                    ms,
                    k,
                    i - 1,
                ) && abs(listener_sum(prob, ms, k, i - 1)) * pairs <= (i - 1) * cap && abs(
                    contribution(prob, ms, k, i - 1),
                ) * pairs <= cap && pairs >= 0,
        ;
    }
}

/// A partial performer sum, scaled by the number of pairs, grows by at
/// most one listener sum's worth per performer.
proof fn lemma_performer_sum_bound(prob: Prob, ms: Seq<Point>, k: int)
    requires
        ms.len() == prob.musicians@.len(),
        0 <= k <= ms.len(),
        prob_ok(prob),
        no_coincidence(prob, ms),
        score_fits(prob),
    ensures
        abs(performer_sum(prob, ms, k)) * (prob.musicians@.len() * prob.attendees@.len()) <= k * (
        prob.attendees@.len() as int) * (i64::MAX as int),
    decreases k,
{
    let cap = i64::MAX as int;
    let aa = prob.attendees@.len() as int;
    let pairs = prob.musicians@.len() * aa;
    if k <= 0 {
        assert(abs(performer_sum(prob, ms, k)) * pairs == 0) by (nonlinear_arith)
            requires
                abs(performer_sum(prob, ms, k)) == 0,
        ;
    } else {
        lemma_performer_sum_bound(prob, ms, k - 1);
        lemma_listener_sum_bound(prob, ms, k - 1, aa);
        assert(abs(performer_sum(prob, ms, k)) * pairs <= k * aa * cap) by (nonlinear_arith)
            requires
                performer_sum(prob, ms, k) == performer_sum(prob, ms, k - 1) + listener_sum(
                    prob,
                    ms,
                    k - 1,
                    aa,
                ) && abs(performer_sum(prob, ms, k - 1)) * pairs <= (k - 1) * aa * cap && abs(
                    listener_sum(prob, ms, k - 1, aa),
                ) * pairs <= aa * cap && pairs >= 0 && cap >= 0,
        ;
    }
}

/// The running total after `k` full performers and `i` listeners of the
/// next performer fits the accumulator.
proof fn lemma_running_total_fits(prob: Prob, ms: Seq<Point>, k: int, i: int)
    requires
        ms.len() == prob.musicians@.len(),
        0 <= k < ms.len(),
        0 <= i <= prob.attendees@.len(),
        prob_ok(prob),
        no_coincidence(prob, ms),
        score_fits(prob),
    ensures
        abs(performer_sum(prob, ms, k) + listener_sum(prob, ms, k, i)) <= i64::MAX as int,
{
    let cap = i64::MAX as int;
    let m = prob.musicians@.len() as int;
    let aa = prob.attendees@.len() as int;
    let pairs = m * aa;
    if aa == 0 {
        lemma_performer_sum_empty(prob, ms, k);
    } else {
        lemma_performer_sum_bound(prob, ms, k);
        lemma_listener_sum_bound(prob, ms, k, i);
        let sps = abs(performer_sum(prob, ms, k));
        let sls = abs(listener_sum(prob, ms, k, i));
        let s = abs(performer_sum(prob, ms, k) + listener_sum(prob, ms, k, i));
        assert(s <= sps + sls);
        assert(s <= cap) by (nonlinear_arith)
            requires
                s <= sps + sls && sps * pairs <= k * aa * cap && sls * pairs <= i * cap && pairs
                    == m * aa && 0 <= k < m && 0 <= i <= aa && 1 <= aa && cap > 0 && s >= 0 && sps
                    >= 0 && sls >= 0,
        ;
    }
}

/// With no listeners every sum is empty.
pub proof fn lemma_performer_sum_empty(prob: Prob, ms: Seq<Point>, k: int)
    requires
        prob.attendees@.len() == 0,
    ensures
        performer_sum(prob, ms, k) == 0,
    decreases k,
{
    if k > 0 {
        lemma_performer_sum_empty(prob, ms, k - 1);
    }
}

/// Scanning a clean prefix does not move the first violator.
pub proof fn lemma_first_violator_skip(ms: Seq<Point>, k: int, j: int)
    requires
        0 <= j <= ms.len(),
        forall|j9: int| 0 <= j9 < j ==> !sep_violation(ms, k, j9),
    ensures
        first_violator_from(ms, k, 0) == first_violator_from(ms, k, j),
    decreases j,
{
    if j > 0 {
        lemma_first_violator_skip(ms, k, j - 1);
    }
}

/// An exec-friendly restatement of the contribution's ceiling division.
fn contribution_value(t: i64, d2: i64) -> (c: i64)
    requires
        d2 > 0,
        abs(t as int) * 1_000_000 <= i64::MAX as int,
    ensures
        c as int == ceil_div(1_000_000 * (t as int), d2 as int),
{
    if t >= 0 {
        let num = 1_000_000u128 * (t as u128);
        let q = num / (d2 as u128);
        let r = num % (d2 as u128);
        proof {
            assert(num as int == 1_000_000 * (t as int)) by (nonlinear_arith)
                requires
                    num == 1_000_000 * (t as u128) && t >= 0,
            ;
            lemma_ceil_div_pos(num as int, d2 as int);
            assert(q <= num) by (nonlinear_arith)
                requires
                    q == (num as int) / (d2 as int) && d2 >= 1 && num >= 0,
            ;
            assert(r != 0 ==> q + 1 <= num) by (nonlinear_arith)
                requires
                    q == (num as int) / (d2 as int) && r == (num as int) % (d2 as int) && d2 >= 1
                        && num >= 0,
            ;
        }
        if r > 0 {
            (q as i64) + 1
        } else {
            q as i64
        }
    } else {
        let mag = 1_000_000u128 * ((-(t as i128)) as u128);
        let q = mag / (d2 as u128);
        proof {
            assert(mag as int == 1_000_000 * (-(t as int))) by (nonlinear_arith)
                requires
                    mag == 1_000_000 * ((-(t as i128)) as u128) && t < 0,
            ;
            assert(q <= mag) by (nonlinear_arith)
                requires
                    q == (mag as int) / (d2 as int) && d2 >= 1 && mag >= 0,
            ;
        }
        -(q as i64)
    }
}

/// Scores the placement `sol` against `prob`.
///
/// The result is exactly the model's answer: the diagnostic of the first
/// rule broken (and value 0), or the empty message and the full
/// happiness total.  The same inputs always give the same result.
#[verifier::loop_isolation(false)]
pub fn evaluate(prob: &Prob, sol: &Sol) -> (res: EvalResult)
    requires
        sol.placements@.len() == prob.musicians@.len(),
        prob_ok(*prob),
        placements_ok(sol.placements@),
        no_coincidence(*prob, sol.placements@),
        score_fits(*prob),
    ensures
        res.msg@ == eval_text(*prob, sol.placements@),
        res.value as int == eval_value(*prob, sol.placements@),
        res.msg@.len() == 0 <==> verdict(*prob, sol.placements@) is Accepted,
        res.msg@.len() != 0 ==> res.value == 0,
{
    let ghost ms = sol.placements@;
    let m = sol.placements.len();
    let a_n = prob.attendees.len();
    let x_lo = prob.stage_bottom_left.0 + 10;
    let x_hi = prob.stage_bottom_left.0 + prob.stage_width - 10;
    let y_lo = prob.stage_bottom_left.1 + 10;
    let y_hi = prob.stage_bottom_left.1 + prob.stage_height - 10;
    let mut value: i64 = 0;
    let mut k: usize = 0;
    while k < m
        invariant
            k <= m,
            verdict_from(*prob, ms, 0) == verdict_from(*prob, ms, k as int),
            value as int == performer_sum(*prob, ms, k as int),
        decreases m - k,
    {
        let p = sol.placements[k];
        if !(p.x >= x_lo && p.x <= x_hi && p.y >= y_lo && p.y <= y_hi) {
            proof {
                lemma_oob_text_nonempty(k as int, p.x as int, p.y as int);
            }
            return EvalResult { msg: oob_message(k, p.x, p.y), value: 0 };
        }
        let inst = prob.musicians[k];
        let mut i: usize = 0;
        while i < a_n
            invariant
                k < m,
                i <= a_n,
                p == ms[k as int],
                inst == prob.musicians@[k as int],
                value as int == performer_sum(*prob, ms, k as int) + listener_sum(
                    *prob,
                    ms,
                    k as int,
                    i as int,
                ),
            decreases a_n - i,
        {
            let att = &prob.attendees[i];
            let mut blocked = false;
            let mut k2: usize = 0;
            while k2 < m
                invariant
                    k2 <= m,
                    !blocked ==> forall|k9: int|
                        0 <= k9 < k2 && k9 != k as int ==> !blocked_spec(
                            ms[k as int].x as int,
                            ms[k as int].y as int,
                            prob.attendees@[i as int].x as int,
                            prob.attendees@[i as int].y as int,
                            (#[trigger] ms[k9]).x as int,
                            ms[k9].y as int,
                        ),
                    blocked ==> att_blocked(ms, k as int, prob.attendees@[i as int]),
                decreases m - k2,
            {
                if k2 != k {
                    let q = sol.placements[k2];
                    if is_blocked((p.x, p.y), (att.x, att.y), (q.x, q.y)) {
                        blocked = true;
                        break ;
                    }
                }
                k2 += 1;
            }
            if !blocked {
                proof {
                    assert(!att_blocked(ms, k as int, prob.attendees@[i as int]));
                }
                let dx = att.x - p.x;
                let dy = att.y - p.y;
                proof {
                    lemma_mul_bound(dx as int, dx as int, 200_000_000);
                    lemma_mul_bound(dy as int, dy as int, 200_000_000);
                }
                let d2 = dx * dx + dy * dy;
                proof {
                    lemma_dist_sq_pos(p.x as int, p.y as int, att.x as int, att.y as int);
                    let pairs = prob.musicians@.len() * prob.attendees@.len();
                    assert(pairs >= 1) by (nonlinear_arith)
                        requires
                            pairs == prob.musicians@.len() * prob.attendees@.len()
                                && prob.musicians@.len() >= 1 && prob.attendees@.len() >= 1,
                    ;
                    let ti = prob.attendees@[i as int].tastes@[inst as int] as int;
                    assert(abs(ti) * 1_000_000 * pairs <= i64::MAX as int);
                    assert(abs(ti) * 1_000_000 <= i64::MAX as int) by (nonlinear_arith)
                        requires
                            abs(ti) * 1_000_000 * pairs <= i64::MAX as int && pairs >= 1 && abs(ti)
                                >= 0,
                    ;
                }
                let t = att.tastes[inst];
                let c = contribution_value(t, d2);
                proof {
                    assert(c as int == contribution(*prob, ms, k as int, i as int));
                    lemma_running_total_fits(*prob, ms, k as int, i as int + 1);
                }
                value = value + c;
            }
            i += 1;
        }
        let mut k2: usize = 0;
        while k2 < m
            invariant
                k2 <= m,
                k < m,
                p == ms[k as int],
                forall|k9: int| 0 <= k9 < k2 ==> !sep_violation(ms, k as int, k9),
                value as int == performer_sum(*prob, ms, k as int) + listener_sum(
                    *prob,
                    ms,
                    k as int,
                    a_n as int,
                ),
            decreases m - k2,
        {
            if k2 != k {
                let q = sol.placements[k2];
                let dx = q.x - p.x;
                let dy = q.y - p.y;
                proof {
                    lemma_mul_bound(dx as int, dx as int, 200_000_000);
                    lemma_mul_bound(dy as int, dy as int, 200_000_000);
                }
                let d2 = dx * dx + dy * dy;
                if d2 < 100 {
                    proof {
                        assert(sep_violation(ms, k as int, k2 as int));
                        assert(has_violation(ms, k as int));
                        lemma_first_violator_skip(ms, k as int, k2 as int);
                        assert(first_violator(ms, k as int) == k2 as int);
                        lemma_sep_text_nonempty(k as int, k2 as int, d2 as int);
                    }
                    return EvalResult { msg: sep_message(k, k2, d2), value: 0 };
                }
            }
            k2 += 1;
        }
        proof {
            assert(!has_violation(ms, k as int));
            assert(verdict_from(*prob, ms, k as int) == verdict_from(*prob, ms, k as int + 1));
        }
        k += 1;
    }
    EvalResult { msg: String::new(), value }
}

} // verus!
