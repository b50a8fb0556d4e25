//! Particle-swarm terms: a fitness-adaptive inertia and random pulls towards
//! remembered positions.

use vstd::prelude::*;
use rand::rngs::StdRng;
use crate::fixed::{ONE, div_floor};
use crate::food::Point;
use crate::random::draw_range;
use crate::world::Vector2;

verus! {

/// Inertia when the fitness does not vary at all, fixed-point (0.4).
pub const MAX_INERTIA: i64 = 419430;

/// Inertia when the spread of fitness equals the best fitness (0.7).
pub const MIN_INERTIA: i64 = 734003;

/// Weight of the random pulls, in halves (1.5).
pub const PULL_HALVES: i64 = 3;

/// `MAX_INERTIA - (std / max) · (MAX_INERTIA - MIN_INERTIA)` in fixed point,
/// rounded down; a best fitness of zero counts as one, so nothing is divided
/// by zero.
pub open spec fn inertia_spec(max_fitness: int, fitness_std: int) -> int {
    let m = if max_fitness == 0 { ONE as int } else { max_fitness };
    MAX_INERTIA + (fitness_std * (MIN_INERTIA - MAX_INERTIA)) / m
}

/// `1.5 · (r / ONE) · v`, rounded down, for a draw `r` in `[-ONE, ONE]`.
pub open spec fn pull_spec(r: int, v: (int, int)) -> (int, int) {
    ((PULL_HALVES * r * v.0) / (2 * ONE), (PULL_HALVES * r * v.1) / (2 * ONE))
}

#[derive(Clone, Copy, Debug)]
pub struct Swarm;

impl Swarm {
    /// Fitness-adaptive inertia: the more the fitness varies relative to the
    /// best, the further it moves from [`MAX_INERTIA`] towards [`MIN_INERTIA`].
    pub fn calc_inertia(max_fitness: u64, fitness_std: u64) -> (r: u128)
        ensures
            r == inertia_spec(max_fitness as int, fitness_std as int),
    {
        let m: u128 = if max_fitness == 0 { ONE as u128 } else { max_fitness as u128 };
        assert((fitness_std as int) * (MIN_INERTIA - MAX_INERTIA) <= u64::MAX * (MIN_INERTIA - MAX_INERTIA)) by (nonlinear_arith);
        assert((fitness_std as int) * (MIN_INERTIA - MAX_INERTIA) / (m as int) <= u64::MAX * (MIN_INERTIA - MAX_INERTIA)) by (nonlinear_arith)
            requires
                0 <= (fitness_std as int) * (MIN_INERTIA - MAX_INERTIA) <= u64::MAX * (MIN_INERTIA - MAX_INERTIA),
                m >= 1,
        ;
        MAX_INERTIA as u128 + (fitness_std as u128) * ((MIN_INERTIA - MAX_INERTIA) as u128) / m
    }

    /// The vector `v` scaled by `1.5 · r / ONE`.
    pub fn pull(r: i64, v: Vector2) -> (p: Vector2)
        requires
            -ONE <= r <= ONE,
            -ONE <= v.x <= ONE,
            -ONE <= v.y <= ONE,
        ensures
            (p.x as int, p.y as int) == pull_spec(r as int, (v.x as int, v.y as int)),
            -2 * ONE <= p.x <= 2 * ONE,
            -2 * ONE <= p.y <= 2 * ONE,
    {
        let (ri, x, y) = (r as i128, v.x as i128, v.y as i128);
        assert(-3 * ONE * ONE <= 3 * ri * x <= 3 * ONE * ONE && -3 * ONE * ONE <= 3 * ri * y <= 3 * ONE * ONE) by (nonlinear_arith)
            requires
                -ONE <= ri <= ONE,
                -ONE <= x <= ONE,
                -ONE <= y <= ONE,
        ;
        let px = div_floor(3 * ri * x, 2 * ONE as i128);
        let py = div_floor(3 * ri * y, 2 * ONE as i128);
        assert(-2 * ONE <= px <= 2 * ONE && -2 * ONE <= py <= 2 * ONE) by (nonlinear_arith)
            requires
                -3 * ONE * ONE <= 3 * ri * x <= 3 * ONE * ONE,
                -3 * ONE * ONE <= 3 * ri * y <= 3 * ONE * ONE,
                px == (3 * ri * x) / (2 * ONE),
                py == (3 * ri * y) / (2 * ONE),
        ;
        Vector2 { x: px as i64, y: py as i64 }
    }

    /// The social term: the current position scaled by a random weight in
    /// `[-1.5, 1.5]`.
    pub fn calc_social(rng: &mut StdRng, global_best: Point, current: Point) -> (p: Vector2)
        requires
            current.in_world(),
        ensures
            exists|r: int| -ONE <= r <= ONE && (p.x as int, p.y as int) == #[trigger] pull_spec(r, (current.x as int, current.y as int)),
    {
        let r = draw_range(rng, 0, 2 * ONE as u64) as i64 - ONE;
        Swarm::pull(r, Vector2 { x: current.x as i64, y: current.y as i64 })
    }

    /// The cognitive term: the way from the current position to the best one
    /// scaled by a random weight in `[-1.5, 1.5]`.
    pub fn calc_cognition(rng: &mut StdRng, best_position: Point, current: Point) -> (p: Vector2)
        requires
            best_position.in_world(),
            current.in_world(),
        ensures
            exists|r: int| -ONE <= r <= ONE && (p.x as int, p.y as int)
                == #[trigger] pull_spec(r, (best_position.x - current.x, best_position.y - current.y)),
    {
        let r = draw_range(rng, 0, 2 * ONE as u64) as i64 - ONE;
        let v = Vector2 {
            x: best_position.x as i64 - current.x as i64,
            y: best_position.y as i64 - current.y as i64,
        };
        Swarm::pull(r, v)
    }
}

} // verus!
