//! The eye: a field of view split into equal cells, each of which sums the
//! nearness of the food it sees.

use vstd::prelude::*;
use crate::fixed::{ONE, isqrt, sqrt_floor};
use crate::angle::wrap_spec;
use vstd::arithmetic::div_mod::{lemma_fundamental_div_mod, lemma_fundamental_div_mod_converse};
use crate::angle::{signed_angle, signed_spec, heading_of, heading_spec, TURN};
use crate::config::{Config, EyeConfig};
use crate::food::{Food, Point, distance_squared, dist2};

verus! {

#[derive(Clone, Copy, Debug)]
pub struct Eye {
    fov_range: i32,
    fov_angle: i32,
    cells: usize,
}

/// What one food at `food` gives an eye at `pos` turned by `rot`: `None` when it
/// is not strictly within `range` or lies outside `[-fov/2, fov/2]` of the
/// direction the eye faces; else the cell it falls in and its energy
/// `(range - distance) / range`.
pub open spec fn food_signal(range: int, fov: int, cells: int, pos: Point, rot: int, food: Point) -> Option<(int, int)> {
    let d2 = dist2(pos, food);
    if d2 >= range * range {
        None
    } else {
        let angle = signed_spec(heading_spec(food.x - pos.x, food.y - pos.y) - rot);
        if 2 * angle < -fov || 2 * angle > fov {
            None
        } else {
            let cell = ((2 * angle + fov) * cells) / (2 * fov);
            let cell = if cell > cells - 1 { cells - 1 } else { cell };
            Some((cell, ((range - sqrt_floor(d2)) * ONE) / range))
        }
    }
}

/// The cells after seeing every food of `foods`, starting from zero.
pub open spec fn vision_spec(range: int, fov: int, cells: int, pos: Point, rot: int, foods: Seq<Food>) -> Seq<int>
    decreases foods.len(),
{
    if foods.len() == 0 {
        Seq::new(cells as nat, |k: int| 0)
    } else {
        let v = vision_spec(range, fov, cells, pos, rot, foods.drop_last());
        match food_signal(range, fov, cells, pos, rot, foods.last().position) {
            None => v,
            Some((c, e)) => v.update(c, v[c] + e),
        }
    }
}

/// Every food lies in `[0, ONE)²`, where food is placed.
pub open spec fn foods_drawn(foods: Seq<Food>) -> bool {
    forall|i: int| 0 <= i < foods.len() ==> (#[trigger] foods[i]).position.drawn()
}

/// Every food lies in the world.
pub open spec fn foods_in_world(foods: Seq<Food>) -> bool {
    forall|i: int| 0 <= i < foods.len() ==> (#[trigger] foods[i]).position.in_world()
}

impl Eye {
    pub closed spec fn range_view(&self) -> int {
        self.fov_range as int
    }

    pub closed spec fn angle_view(&self) -> int {
        self.fov_angle as int
    }

    pub closed spec fn cells_view(&self) -> int {
        self.cells as int
    }

    pub open spec fn valid(&self) -> bool {
        &&& self.range_view() > 0
        &&& self.angle_view() > 0
        &&& 0 < self.cells_view()
    }

    /// What this eye sees from `pos` turned by `rot`.
    pub open spec fn sees(&self, pos: Point, rot: int, foods: Seq<Food>) -> Seq<int> {
        vision_spec(self.range_view(), self.angle_view(), self.cells_view(), pos, rot, foods)
    }

    pub fn new(fov_range: i32, fov_angle: i32, cells: usize) -> (r: Eye)
        requires
            fov_range > 0,
            fov_angle > 0,
            0 < cells,
        ensures
            r.valid(),
            r.range_view() == fov_range,
            r.angle_view() == fov_angle,
            r.cells_view() == cells,
    {
        Eye { fov_range, fov_angle, cells }
    }

    /// The eye that `settings` describe.
    pub fn config_new(settings: Config) -> (r: Eye)
        requires
            settings.eye.valid(),
        ensures
            r.valid(),
            r.range_view() == settings.eye.fov_range,
            r.angle_view() == settings.eye.fov_angle,
            r.cells_view() == settings.eye.cells,
    {
        Eye::new(settings.eye.fov_range, settings.eye.fov_angle, settings.eye.cells)
    }

    pub fn cells(&self) -> (r: usize)
        ensures
            r == self.cells_view(),
    {
        self.cells
    }

    /// The cells that light up for an eye at `position` turned by `rotation`:
    /// each food strictly within range and within the field of view adds its
    /// energy to the cell its direction falls in.
    pub fn calc_vision(&self, position: Point, rotation: i64, foods: &[Food]) -> (r: Vec<i64>)
        requires
            self.valid(),
            position.in_world(),
            0 <= rotation < TURN,
            foods_in_world(foods@),
            foods@.len() <= 0x100_0000_0000,
        ensures
            r@.len() == self.cells_view(),
            self.sees(position, rotation as int, foods@).len() == self.cells_view(),
            forall|k: int| 0 <= k < r@.len() ==> r@[k] == #[trigger] self.sees(position, rotation as int, foods@)[k],
            forall|k: int| 0 <= k < r@.len() ==> 0 <= #[trigger] r@[k],
    {
        let ghost (rg, fv, cl) = (self.fov_range as int, self.fov_angle as int, self.cells as int);
        let mut v: Vec<i64> = Vec::new();
        let mut k: usize = 0;
        while k < self.cells
            invariant
                0 <= k <= self.cells,
                v@.len() == k,
                forall|m: int| 0 <= m < k ==> v@[m] == 0,
            decreases self.cells - k,
        {
            v.push(0);
            k += 1;
        }
        let range = self.fov_range as i64;
        let fov = self.fov_angle as i64;
        let mut i: usize = 0;
        assert(foods@.take(0).len() == 0);
        while i < foods.len()
            invariant
                self.valid(),
                position.in_world(),
                0 <= rotation < TURN,
                foods_in_world(foods@),
                foods@.len() <= 0x100_0000_0000,
                range == rg,
                fov == fv,
                rg == self.range_view(),
                fv == self.angle_view(),
                cl == self.cells_view(),
                0 <= i <= foods@.len(),
                v@.len() == cl,
                vision_spec(rg, fv, cl, position, rotation as int, foods@.take(i as int)).len() == cl,
                forall|m: int| 0 <= m < cl ==> v@[m] == #[trigger] vision_spec(rg, fv, cl, position, rotation as int, foods@.take(i as int))[m],
                forall|m: int| 0 <= m < cl ==> 0 <= #[trigger] v@[m] <= i * ONE,
            decreases foods@.len() - i,
        {
            assert(foods@.take(i as int + 1).drop_last() =~= foods@.take(i as int));
            let food = foods[i].position;
            assert(food.in_world());
            let d2 = distance_squared(position, food);
            assert(range * range <= 0x4000_0000_0000_0000) by (nonlinear_arith)
                requires
                    0 < range <= i32::MAX,
            ;
            if d2 < range * range {
                let dx = food.x as i128 - position.x as i128;
                let dy = food.y as i128 - position.y as i128;
                let heading = heading_of(dx, dy);
                let angle = signed_angle(heading - rotation);
                if !(2 * angle < -fov || 2 * angle > fov) {
                    let shifted = (2 * angle + fov) as u128;
                    let cells_wide = self.cells as u128;
                    assert(cells_wide <= u64::MAX);
                    assert(shifted * cells_wide <= 0x1_0000_0000 * 0x1_0000_0000_0000_0000) by (nonlinear_arith)
                        requires
                            shifted <= 2 * fov,
                            fov <= i32::MAX,
                            cells_wide <= u64::MAX,
                    ;
                    let c = shifted * cells_wide / (2 * fov as u128);
                    let cell = if c > (self.cells - 1) as u128 { self.cells - 1 } else { c as usize };
                    let d0 = isqrt(d2 as u128);
                    assert(d0 < 0x8000_0000) by (nonlinear_arith)
                        requires
                            d0 * d0 <= d2,
                            d2 < 0x4000_0000_0000_0000,
                            d0 >= 0,
                    ;
                    let d = d0 as i64;
                    assert(d < range) by (nonlinear_arith)
                        requires
                            d * d <= d2,
                            d2 < range * range,
                            d >= 0,
                            range > 0,
                    ;
                    let energy = (range - d) * ONE / range;
                    assert(0 <= energy <= ONE) by (nonlinear_arith)
                        requires
                            0 < range - d <= range,
                            energy as int == ((range - d) * ONE) as int / (range as int),
                    ;
                    assert((i + 1) * ONE == i * ONE + ONE) by (nonlinear_arith);
                    let old_val = v[cell];
                    v.set(cell, old_val + energy);
                }
            }
            proof {
                assert forall|m: int| 0 <= m < cl implies 0 <= #[trigger] v@[m] <= (i + 1) * ONE by {
                    assert((i + 1) * ONE == i * ONE + ONE) by (nonlinear_arith);
                }
            }
            i += 1;
        }
        assert(foods@.take(foods@.len() as int) =~= foods@);
        v
    }
}

impl Default for Eye {
    /// The eye of the default configuration.
    fn default() -> (r: Eye)
        ensures
            r.valid(),
            r.range_view() == 524288,
            r.angle_view() == 25736,
            r.cells_view() == 10,
    {
        let c = EyeConfig::default();
        Eye::new(c.fov_range, c.fov_angle, c.cells)
    }
}

/// A food at or beyond the range changes nothing: seeing it after the others
/// gives the same cells as not seeing it at all.
pub proof fn lemma_far_food_adds_nothing(eye: Eye, pos: Point, rot: int, foods: Seq<Food>, far: Food)
    requires
        eye.valid(),
        dist2(pos, far.position) >= eye.range_view() * eye.range_view(),
    ensures
        eye.sees(pos, rot, foods.push(far)) == eye.sees(pos, rot, foods),
{
    assert(foods.push(far).drop_last() =~= foods);
}

/// Turning the eye by a full turn changes nothing it sees: with a field of
/// view of a full turn, turning by the field of view brings every cell back
/// onto itself.
pub proof fn lemma_full_turn_sees_the_same(eye: Eye, pos: Point, rot: int, foods: Seq<Food>)
    ensures
        eye.sees(pos, rot + TURN, foods) == eye.sees(pos, rot, foods),
{
    lemma_vision_turn(eye.range_view(), eye.angle_view(), eye.cells_view(), pos, rot, foods);
}

proof fn lemma_vision_turn(range: int, fov: int, cells: int, pos: Point, rot: int, foods: Seq<Food>)
    ensures
        vision_spec(range, fov, cells, pos, rot + TURN, foods) == vision_spec(range, fov, cells, pos, rot, foods),
    decreases foods.len(),
{
    if foods.len() > 0 {
        lemma_vision_turn(range, fov, cells, pos, rot, foods.drop_last());
        let food = foods.last().position;
        let x = heading_spec(food.x - pos.x, food.y - pos.y) - rot;
        let t = TURN as int;
        lemma_fundamental_div_mod(x, t);
        lemma_fundamental_div_mod_converse(x - t, t, x / t - 1, x % t);
        assert(wrap_spec(x - t) == wrap_spec(x));
        assert(heading_spec(food.x - pos.x, food.y - pos.y) - (rot + TURN) == x - t);
    }
}

/// The range is exclusive: a food at or beyond it adds nothing, whatever its
/// direction.
pub proof fn lemma_food_at_range_unseen(range: int, fov: int, cells: int, pos: Point, rot: int, food: Point)
    requires
        range > 0,
        dist2(pos, food) >= range * range,
    ensures
        food_signal(range, fov, cells, pos, rot, food) is None,
{
}

} // verus!
