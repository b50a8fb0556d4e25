//! The world: its animals and food, and the three flocking rules.
//!
//! An animal is told apart from the others by its index, so two animals that
//! happen to share a place still see each other.

use vstd::prelude::*;
use rand::rngs::StdRng;
use crate::fixed::{ONE, div_floor};
use crate::animal::{Animal, velocity, velocity_spec};
use crate::config::Config;
use crate::eye::{Eye, foods_in_world, foods_drawn};
use crate::food::{Food, distance_squared, dist2};

verus! {

/// Neighbours strictly closer than this push each other away.
pub const SEPARATION_DISTANCE: i64 = 10486;

/// The pull towards the centre of the flock is this many times weaker than the
/// distance to it.
pub const COHERENCE_DAMPING: i64 = 100;

/// A displacement, in fixed point.
#[derive(Clone, Copy, Debug, PartialEq, Eq, Structural)]
pub struct Vector2 {
    pub x: i64,
    pub y: i64,
}

/// The eye `e` is the one that `settings` describe.
pub open spec fn eye_matches(e: Eye, settings: Config) -> bool {
    &&& e.range_view() == settings.eye.fov_range
    &&& e.angle_view() == settings.eye.fov_angle
    &&& e.cells_view() == settings.eye.cells
}

/// Every animal is well formed and has the eye of `settings`.
pub open spec fn animals_fit(a: Seq<Animal>, settings: Config) -> bool {
    forall|i: int| 0 <= i < a.len() ==> (#[trigger] a[i]).wf() && eye_matches(a[i].eye_view(), settings)
}

/// Every animal lies in `[0, ONE)²`, where animals are placed.
pub open spec fn animals_drawn(a: Seq<Animal>) -> bool {
    forall|i: int| 0 <= i < a.len() ==> (#[trigger] a[i]).position_view().drawn()
}

/// Sum of the positions of the animals `a[0..n]` other than `a[i]`.
pub open spec fn others_position_sum(a: Seq<Animal>, i: int, n: int) -> (int, int)
    decreases n,
{
    if n <= 0 {
        (0, 0)
    } else {
        let s = others_position_sum(a, i, n - 1);
        if n - 1 == i {
            s
        } else {
            (s.0 + a[n - 1].position_view().x, s.1 + a[n - 1].position_view().y)
        }
    }
}

/// Sum of `a[i]`'s distance from each of `a[0..n]` other than itself that is
/// strictly closer than [`SEPARATION_DISTANCE`].
pub open spec fn close_sum(a: Seq<Animal>, i: int, n: int) -> (int, int)
    decreases n,
{
    if n <= 0 {
        (0, 0)
    } else {
        let s = close_sum(a, i, n - 1);
        let p = a[i].position_view();
        let q = a[n - 1].position_view();
        if n - 1 != i && dist2(p, q) < SEPARATION_DISTANCE * SEPARATION_DISTANCE {
            (s.0 + (p.x - q.x), s.1 + (p.y - q.y))
        } else {
            s
        }
    }
}

/// Sum of the velocities of the animals `a[0..n]` other than `a[i]`.
pub open spec fn others_velocity_sum(a: Seq<Animal>, i: int, n: int) -> (int, int)
    decreases n,
{
    if n <= 0 {
        (0, 0)
    } else {
        let s = others_velocity_sum(a, i, n - 1);
        let v = velocity_spec(a[n - 1].speed_view(), a[n - 1].rotation_view());
        if n - 1 == i { s } else { (s.0 + v.0, s.1 + v.1) }
    }
}

/// From `a[i]` towards the centre of the others, damped; zero when it is alone.
pub open spec fn coherence_spec(a: Seq<Animal>, i: int) -> (int, int) {
    if a.len() <= 1 {
        (0, 0)
    } else {
        let s = others_position_sum(a, i, a.len() as int);
        let m = a.len() - 1;
        let p = a[i].position_view();
        ((s.0 / m - p.x) / COHERENCE_DAMPING as int, (s.1 / m - p.y) / COHERENCE_DAMPING as int)
    }
}

/// Away from every close neighbour of `a[i]`; zero when it is alone.
pub open spec fn separation_spec(a: Seq<Animal>, i: int) -> (int, int) {
    close_sum(a, i, a.len() as int)
}

/// The mean velocity of the others; zero when `a[i]` is alone.
pub open spec fn alignment_spec(a: Seq<Animal>, i: int) -> (int, int) {
    if a.len() <= 1 {
        (0, 0)
    } else {
        let s = others_velocity_sum(a, i, a.len() as int);
        let m = a.len() - 1;
        (s.0 / m, s.1 / m)
    }
}

#[derive(Debug)]
pub struct World {
    pub(crate) animals: Vec<Animal>,
    pub(crate) foods: Vec<Food>,
}

impl World {
    pub open(crate) spec fn animals_view(&self) -> Seq<Animal> {
        self.animals@
    }

    pub open(crate) spec fn foods_view(&self) -> Seq<Food> {
        self.foods@
    }

    /// The world holds the configured numbers of animals and food, each well formed.
    pub open spec fn wf(&self, settings: Config) -> bool {
        &&& settings.valid()
        &&& self.animals_view().len() == settings.world.num_animals
        &&& self.foods_view().len() == settings.world.num_foods
        &&& animals_fit(self.animals_view(), settings)
        &&& foods_in_world(self.foods_view())
    }

    /// A world of random animals, then random food.
    pub fn random(rng: &mut StdRng, settings: Config) -> (r: World)
        requires
            settings.valid(),
        ensures
            r.wf(settings),
            forall|i: int| 0 <= i < r.animals_view().len() ==> (#[trigger] r.animals_view()[i]).hunger_view() == 0,
            animals_drawn(r.animals_view()),
            foods_drawn(r.foods_view()),
    {
        let mut animals: Vec<Animal> = Vec::new();
        let mut i: usize = 0;
        while i < settings.world.num_animals
            invariant
                settings.valid(),
                0 <= i <= settings.world.num_animals,
                animals@.len() == i,
                animals_fit(animals@, settings),
                forall|k: int| 0 <= k < i ==> (#[trigger] animals@[k]).hunger_view() == 0,
                animals_drawn(animals@),
            decreases settings.world.num_animals - i,
        {
            let a = Animal::random(rng, settings);
            animals.push(a);
            i += 1;
        }
        let mut foods: Vec<Food> = Vec::new();
        let mut j: usize = 0;
        while j < settings.world.num_foods
            invariant
                0 <= j <= settings.world.num_foods,
                foods@.len() == j,
                foods_in_world(foods@),
                foods_drawn(foods@),
            decreases settings.world.num_foods - j,
        {
            foods.push(Food::random(rng));
            j += 1;
        }
        World { animals, foods }
    }

    pub fn animals(&self) -> (r: &[Animal])
        ensures
            r@ == self.animals_view(),
    {
        self.animals.as_slice()
    }

    pub fn foods(&self) -> (r: &[Food])
        ensures
            r@ == self.foods_view(),
    {
        self.foods.as_slice()
    }

    /// Coherence: the pull of animal `i` towards the centre of all the others,
    /// a hundredth of the way; none for an animal alone.
    pub fn calc_coherence(&self, i: usize) -> (r: Vector2)
        requires
            i < self.animals_view().len() <= u32::MAX,
            forall|k: int| 0 <= k < self.animals_view().len() ==> (#[trigger] self.animals_view()[k]).wf(),
        ensures
            (r.x as int, r.y as int) == coherence_spec(self.animals_view(), i as int),
            -ONE <= r.x <= ONE,
            -ONE <= r.y <= ONE,
    {
        let ghost a = self.animals_view();
        let n = self.animals.len();
        if n <= 1 {
            return Vector2 { x: 0, y: 0 };
        }
        let mut sx: i64 = 0;
        let mut sy: i64 = 0;
        let mut j: usize = 0;
        while j < n
            invariant
                a == self.animals_view(),
                n == a.len(),
                n <= u32::MAX,
                i < n,
                forall|k: int| 0 <= k < n ==> (#[trigger] a[k]).wf(),
                0 <= j <= n,
                (sx as int, sy as int) == others_position_sum(a, i as int, j as int),
                0 <= sx <= j * ONE,
                0 <= sy <= j * ONE,
            decreases n - j,
        {
            assert(a[j as int].wf());
            assert((j + 1) * ONE == j * ONE + ONE) by (nonlinear_arith);
            assert((j + 1) * ONE <= 0x1_0000_0000 * ONE) by (nonlinear_arith)
                requires
                    j + 1 <= u32::MAX + 1,
            ;
            if j != i {
                let p = self.animals[j].position;
                sx = sx + p.x as i64;
                sy = sy + p.y as i64;
            }
            j += 1;
        }
        let m = (n - 1) as i64;
        let p = self.animals[i].position;
        assert(a[i as int].wf());
        assert(sx / m <= 2 * ONE && sy / m <= 2 * ONE) by (nonlinear_arith)
            requires
                0 <= sx <= n * ONE,
                0 <= sy <= n * ONE,
                m == n - 1,
                m >= 1,
        ;
        let x = div_floor((sx / m - p.x as i64) as i128, COHERENCE_DAMPING as i128);
        let y = div_floor((sy / m - p.y as i64) as i128, COHERENCE_DAMPING as i128);
        assert(-ONE <= x <= ONE && -ONE <= y <= ONE) by (nonlinear_arith)
            requires
                x == (sx / m - p.x) / 100,
                y == (sy / m - p.y) / 100,
                0 <= sx / m <= 2 * ONE,
                0 <= sy / m <= 2 * ONE,
                0 <= p.x <= ONE,
                0 <= p.y <= ONE,
        ;
        Vector2 { x: x as i64, y: y as i64 }
    }

    /// Separation: the push on animal `i` away from every other animal strictly
    /// closer than [`SEPARATION_DISTANCE`]; none for an animal alone.
    pub fn calc_separation(&self, i: usize) -> (r: Vector2)
        requires
            i < self.animals_view().len() <= u32::MAX,
            forall|k: int| 0 <= k < self.animals_view().len() ==> (#[trigger] self.animals_view()[k]).wf(),
        ensures
            (r.x as int, r.y as int) == separation_spec(self.animals_view(), i as int),
            -0x1_0000_0000 * SEPARATION_DISTANCE <= r.x <= 0x1_0000_0000 * SEPARATION_DISTANCE,
            -0x1_0000_0000 * SEPARATION_DISTANCE <= r.y <= 0x1_0000_0000 * SEPARATION_DISTANCE,
    {
        let ghost a = self.animals_view();
        let n = self.animals.len();
        let p = self.animals[i].position;
        assert(a[i as int].wf());
        let mut sx: i64 = 0;
        let mut sy: i64 = 0;
        let mut j: usize = 0;
        while j < n
            invariant
                a == self.animals_view(),
                n == a.len(),
                n <= u32::MAX,
                i < n,
                p == a[i as int].position_view(),
                p.in_world(),
                forall|k: int| 0 <= k < n ==> (#[trigger] a[k]).wf(),
                0 <= j <= n,
                (sx as int, sy as int) == close_sum(a, i as int, j as int),
                -(j * SEPARATION_DISTANCE) <= sx <= j * SEPARATION_DISTANCE,
                -(j * SEPARATION_DISTANCE) <= sy <= j * SEPARATION_DISTANCE,
            decreases n - j,
        {
            assert(a[j as int].wf());
            assert((j + 1) * SEPARATION_DISTANCE == j * SEPARATION_DISTANCE + SEPARATION_DISTANCE) by (nonlinear_arith);
            assert((j + 1) * SEPARATION_DISTANCE <= 0x1_0000_0000 * SEPARATION_DISTANCE) by (nonlinear_arith)
                requires
                    j + 1 <= u32::MAX + 1,
            ;
            let q = self.animals[j].position;
            let d2 = distance_squared(p, q);
            if j != i && d2 < SEPARATION_DISTANCE * SEPARATION_DISTANCE {
                let dx = p.x as i64 - q.x as i64;
                let dy = p.y as i64 - q.y as i64;
                assert(-SEPARATION_DISTANCE < dx < SEPARATION_DISTANCE
                    && -SEPARATION_DISTANCE < dy < SEPARATION_DISTANCE) by (nonlinear_arith)
                    requires
                        dx == p.x - q.x,
                        dy == p.y - q.y,
                        d2 == (q.x - p.x) * (q.x - p.x) + (q.y - p.y) * (q.y - p.y),
                        d2 < SEPARATION_DISTANCE * SEPARATION_DISTANCE,
                ;
                sx = sx + dx;
                sy = sy + dy;
            }
            j += 1;
        }
        assert(n * SEPARATION_DISTANCE <= 0x1_0000_0000 * SEPARATION_DISTANCE) by (nonlinear_arith)
            requires
                n <= u32::MAX,
        ;
        Vector2 { x: sx, y: sy }
    }

    /// Alignment: the mean velocity of the animals other than `i`; none for an
    /// animal alone.
    pub fn calc_alignment(&self, i: usize) -> (r: Vector2)
        requires
            i < self.animals_view().len() <= u32::MAX,
            forall|k: int| 0 <= k < self.animals_view().len() ==> (#[trigger] self.animals_view()[k]).wf(),
        ensures
            (r.x as int, r.y as int) == alignment_spec(self.animals_view(), i as int),
            -0x1_0000_0000 <= r.x <= 0x1_0000_0000,
            -0x1_0000_0000 <= r.y <= 0x1_0000_0000,
    {
        let ghost a = self.animals_view();
        let n = self.animals.len();
        if n <= 1 {
            return Vector2 { x: 0, y: 0 };
        }
        let mut sx: i128 = 0;
        let mut sy: i128 = 0;
        let mut j: usize = 0;
        while j < n
            invariant
                a == self.animals_view(),
                n == a.len(),
                n <= u32::MAX,
                i < n,
                forall|k: int| 0 <= k < n ==> (#[trigger] a[k]).wf(),
                0 <= j <= n,
                (sx as int, sy as int) == others_velocity_sum(a, i as int, j as int),
                -(j * 0x8000_0000) <= sx <= j * 0x8000_0000,
                -(j * 0x8000_0000) <= sy <= j * 0x8000_0000,
            decreases n - j,
        {
            assert(a[j as int].wf());
            assert((j + 1) * 0x8000_0000 == j * 0x8000_0000 + 0x8000_0000) by (nonlinear_arith);
            assert((j + 1) * 0x8000_0000 <= 0x1_0000_0000 * 0x8000_0000) by (nonlinear_arith)
                requires
                    j + 1 <= u32::MAX + 1,
            ;
            if j != i {
                let other = &self.animals[j];
                let v = velocity(other.speed, other.rotation);
                sx = sx + v.0 as i128;
                sy = sy + v.1 as i128;
            }
            j += 1;
        }
        let m = (n - 1) as i128;
        let x = div_floor(sx, m);
        let y = div_floor(sy, m);
        assert(-0x1_0000_0000 <= x <= 0x1_0000_0000 && -0x1_0000_0000 <= y <= 0x1_0000_0000) by (nonlinear_arith)
            requires
                x as int == (sx as int) / (m as int),
                y as int == (sy as int) / (m as int),
                -(n * 0x8000_0000) <= sx <= n * 0x8000_0000,
                -(n * 0x8000_0000) <= sy <= n * 0x8000_0000,
                m == n - 1,
                m >= 1,
        ;
        Vector2 { x: x as i64, y: y as i64 }
    }
}

/// An animal alone in the world feels neither coherence nor separation (nor
/// alignment): there is no other animal to be drawn to or pushed from.
pub proof fn lemma_lone_animal_feels_no_flock(a: Seq<Animal>)
    requires
        a.len() == 1,
    ensures
        coherence_spec(a, 0) == (0int, 0int),
        separation_spec(a, 0) == (0int, 0int),
        alignment_spec(a, 0) == (0int, 0int),
{
    assert(close_sum(a, 0, 0) == (0int, 0int));
}

} // verus!
