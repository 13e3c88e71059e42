//! Points on the unit torus and the toroidal (wraparound) metric, in
//! fixed-point coordinates with 65536 units to the side of the square.

use vstd::prelude::*;
use crate::math::{sqrt_floor, isqrt, lemma_sqrt_floor_bounds};

verus! {

/// A location on the unit torus; each coordinate is a fixed-point fraction
/// of the square's side, so it lies in `[0, 65536)`.
#[derive(Clone, Copy, PartialEq, Eq, Structural, Debug)]
pub struct Point {
    pub x: u32,
    pub y: u32,
}

impl Point {
    /// Both coordinates lie inside the unit square.
    pub open spec fn wf(self) -> bool {
        self.x < 65536 && self.y < 65536
    }

    /// A point from raw coordinates, wrapped into the unit square.
    pub fn new(x: u32, y: u32) -> (p: Point)
        ensures
            p.wf(),
            p.x == x % 65536,
            p.y == y % 65536,
    {
        Point { x: x % 65536, y: y % 65536 }
    }
}

/// The shorter of the direct and the wraparound separation along one axis.
pub open spec fn axis_delta(a: int, b: int) -> int {
    let d: int = if a >= b { a - b } else { b - a };
    if d <= 65536 - d {
        d
    } else {
        65536 - d
    }
}

/// The squared toroidal separation of two points.
pub open spec fn dist_sq(p: Point, q: Point) -> int {
    axis_delta(p.x as int, q.x as int) * axis_delta(p.x as int, q.x as int)
        + axis_delta(p.y as int, q.y as int) * axis_delta(p.y as int, q.y as int)
}

/// The toroidal distance: the Euclidean length of the shortest path on the
/// torus, rounded down to fixed-point units.
pub open spec fn toroidal_dist(p: Point, q: Point) -> int {
    sqrt_floor(dist_sq(p, q) as nat) as int
}

/// The metric never exceeds the half-diagonal of the square.
pub proof fn lemma_toroidal_dist_range(p: Point, q: Point)
    requires
        p.wf(),
        q.wf(),
    ensures
        0 <= toroidal_dist(p, q) <= 46341,
        dist_sq(p, q) <= 0x8000_0000,
{
    assert(axis_delta(p.x as int, q.x as int) <= 32768);
    assert(axis_delta(p.y as int, q.y as int) <= 32768);
    assert(dist_sq(p, q) <= 2 * 32768 * 32768) by (nonlinear_arith)
        requires
            0 <= axis_delta(p.x as int, q.x as int) <= 32768,
            0 <= axis_delta(p.y as int, q.y as int) <= 32768,
            dist_sq(p, q) == axis_delta(p.x as int, q.x as int) * axis_delta(p.x as int, q.x as int)
                + axis_delta(p.y as int, q.y as int) * axis_delta(p.y as int, q.y as int),
    ;
    lemma_sqrt_floor_bounds(dist_sq(p, q) as nat);
    assert(sqrt_floor(dist_sq(p, q) as nat) <= 46341) by {
        if sqrt_floor(dist_sq(p, q) as nat) > 46341 {
            assert(46342 * 46342 <= sqrt_floor(dist_sq(p, q) as nat) * sqrt_floor(
                dist_sq(p, q) as nat)) by (nonlinear_arith)
                requires sqrt_floor(dist_sq(p, q) as nat) >= 46342,
            ;
        }
    }
}

/// The toroidal metric is symmetric in its two arguments.
pub proof fn lemma_toroidal_dist_symmetric(p: Point, q: Point)
    ensures
        toroidal_dist(p, q) == toroidal_dist(q, p),
{
    assert(axis_delta(p.x as int, q.x as int) == axis_delta(q.x as int, p.x as int));
    assert(axis_delta(p.y as int, q.y as int) == axis_delta(q.y as int, p.y as int));
}

/// The toroidal distance between two points of the unit square.
pub fn toroidal_distance(p1: Point, p2: Point) -> (d: u32)
    requires
        p1.wf(),
        p2.wf(),
    ensures
        d == toroidal_dist(p1, p2),
        d <= 46341,
{
    proof {
        lemma_toroidal_dist_range(p1, p2);
    }
    let dx: u32 = if p1.x >= p2.x { p1.x - p2.x } else { p2.x - p1.x };
    let dy: u32 = if p1.y >= p2.y { p1.y - p2.y } else { p2.y - p1.y };
    let dx: u32 = if dx <= 65536 - dx { dx } else { 65536 - dx };
    let dy: u32 = if dy <= 65536 - dy { dy } else { 65536 - dy };
    let sq: u64 = (dx as u64) * (dx as u64) + (dy as u64) * (dy as u64);
    assert(sq == dist_sq(p1, p2));
    let d: u64 = isqrt(sq);
    d as u32
}

} // verus!
