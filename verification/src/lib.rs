//! Scoring oracle for a stage-placement problem.
//!
//! A problem fixes a rectangular room, a stage region inside it, a list of
//! performers (each carrying an instrument index) and an audience of
//! listeners, each with a position and a per-instrument taste vector.  A
//! solution places every performer at a point on the stage.  The library
//! checks the placement (stage margin, pairwise separation) and scores it:
//! every unobstructed performer-listener pair contributes
//! `ceil(1_000_000 * taste / distance^2)` to a signed 64-bit total, and a
//! performer standing within 5 units of the straight path between another
//! performer and a listener blocks that pair's contribution.
//!
//! All coordinates and tastes are integers, so every geometric test and
//! every contribution is computed exactly.

use vstd::prelude::*;

mod arith;
mod geometry;
mod laws;
mod placement;
mod scoring;
mod text;

pub use geometry::is_blocked;
pub use scoring::evaluate;

verus! {

/// Largest coordinate magnitude the library accepts; keeps every
/// intermediate geometric quantity (squared distances, discriminants)
/// within 128-bit arithmetic.
pub const COORD_LIMIT: i64 = 100_000_000;

/// A position in the room plane.
#[derive(Clone, Copy, Debug, PartialEq, Eq, Structural)]
pub struct Point {
    pub x: i64,
    pub y: i64,
}

/// A candidate placement: one position per performer, index-aligned with
/// `Prob::musicians`.
pub struct Sol {
    pub placements: Vec<Point>,
}

/// A listener: a position and a taste value per instrument index.
pub struct Attendee {
    pub x: i64,
    pub y: i64,
    pub tastes: Vec<i64>,
}

/// A problem instance: the room, the stage rectangle, the performers'
/// instrument assignments and the audience.
pub struct Prob {
    pub room_width: i64,
    pub room_height: i64,
    pub stage_width: i64,
    pub stage_height: i64,
    pub stage_bottom_left: (i64, i64),
    pub musicians: Vec<usize>,
    pub attendees: Vec<Attendee>,
}

/// Outcome of one evaluation: an empty message and the happiness total on
/// success, or a diagnostic message and a zero value on rejection.
pub struct EvalResult {
    pub msg: String,
    pub value: i64,
}

/// A coordinate the library accepts.
pub open spec fn coord_ok(v: int) -> bool {
    -(COORD_LIMIT as int) <= v <= COORD_LIMIT as int
}

/// A point whose coordinates the library accepts.
pub open spec fn point_ok(p: Point) -> bool {
    coord_ok(p.x as int) && coord_ok(p.y as int)
}

} // verus!
