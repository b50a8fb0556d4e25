//! Points of the world and the food that lies on them.

use vstd::prelude::*;
use rand::rngs::StdRng;
use crate::fixed::ONE;
use crate::random::draw_range;

verus! {

/// A point of the world, in fixed point: both coordinates lie in `[0, ONE]`.
#[derive(Clone, Copy, Debug, PartialEq, Eq, Structural)]
pub struct Point {
    pub x: i32,
    pub y: i32,
}

impl Point {
    pub open spec fn in_world(&self) -> bool {
        0 <= self.x <= ONE && 0 <= self.y <= ONE
    }

    /// The point lies in `[0, ONE)²`, where random points are drawn.
    pub open spec fn drawn(&self) -> bool {
        0 <= self.x < ONE && 0 <= self.y < ONE
    }

    pub fn new(x: i32, y: i32) -> (r: Point)
        ensures
            r.x == x && r.y == y,
    {
        Point { x, y }
    }

    /// A point drawn uniformly from `[0, ONE)²`: `x` first, then `y`.
    pub fn random(rng: &mut StdRng) -> (r: Point)
        ensures
            r.in_world(),
            r.drawn(),
    {
        let x = draw_range(rng, 0, (ONE - 1) as u64) as i32;
        let y = draw_range(rng, 0, (ONE - 1) as u64) as i32;
        Point { x, y }
    }
}

/// The squared distance between two points.
pub open spec fn dist2(a: Point, b: Point) -> int {
    (b.x - a.x) * (b.x - a.x) + (b.y - a.y) * (b.y - a.y)
}

pub fn distance_squared(a: Point, b: Point) -> (r: i64)
    requires
        a.in_world(),
        b.in_world(),
    ensures
        r == dist2(a, b),
        0 <= r <= 2 * ONE * ONE,
{
    let dx = b.x as i64 - a.x as i64;
    let dy = b.y as i64 - a.y as i64;
    assert(0 <= dx * dx <= ONE * ONE && 0 <= dy * dy <= ONE * ONE) by (nonlinear_arith)
        requires
            -ONE <= dx <= ONE,
            -ONE <= dy <= ONE,
    ;
    dx * dx + dy * dy
}

#[derive(Clone, Copy, Debug)]
pub struct Food {
    pub position: Point,
}

impl Food {
    pub fn new(position: Point) -> (r: Food)
        ensures
            r.position == position,
    {
        Food { position }
    }

    pub fn random(rng: &mut StdRng) -> (r: Food)
        ensures
            r.position.in_world(),
            r.position.drawn(),
    {
        Food { position: Point::random(rng) }
    }

    pub fn position(&self) -> (r: Point)
        ensures
            r == self.position,
    {
        self.position
    }
}

} // verus!
