//! One simulation: the world, the genetic algorithm that breeds its animals,
//! and the step that drives them.

use vstd::prelude::*;
use rand::rngs::StdRng;
use crate::fixed::{ONE, clamp, i32_max, isqrt, sqrt_floor, div_floor, mod_floor};
use crate::angle::{wrap_spec, wrap_angle};
use crate::animal::{Animal, velocity, velocity_spec, brain_genes, brain_sizes};
use crate::animal_individual::AnimalIndividual;
use crate::config::{Config, SimulationConfig};
use crate::eye::foods_drawn;
use crate::food::{Food, Point, distance_squared, dist2};
use crate::ga::{
    GeneticAlgorithm, GaussianMutation, Individual, RouletteWheelSelection, Statistics,
    UniformCrossover, fitnesses, genomes,
};
use crate::network::{propagate_spec, genome_len};
use crate::world::{
    World, Vector2, animals_fit, animals_drawn, coherence_spec, separation_spec, alignment_spec,
};

verus! {

/// An animal eats a food no farther than this.
pub const COLLISION_RADIUS: i64 = 10486;

/// Weights of the three flocking rules, in hundredths.
pub const COHERENCE_WEIGHT: i64 = 10;

pub const SEPARATION_WEIGHT: i64 = 55;

pub const ALIGNMENT_WEIGHT: i64 = 10;

/// The displacement the flocking rules give animal `i`, weighted.
pub open spec fn flock_delta(a: Seq<Animal>, i: int) -> (int, int) {
    let c = coherence_spec(a, i);
    let s = separation_spec(a, i);
    let l = alignment_spec(a, i);
    ((COHERENCE_WEIGHT * c.0 + SEPARATION_WEIGHT * s.0 + ALIGNMENT_WEIGHT * l.0) / 100,
     (COHERENCE_WEIGHT * c.1 + SEPARATION_WEIGHT * s.1 + ALIGNMENT_WEIGHT * l.1) / 100)
}

/// Where animal `i` goes: its flocking displacement plus its own velocity,
/// shortened to its speed when longer, wrapped around the world.
pub open spec fn moved_position(a: Seq<Animal>, i: int) -> Point {
    let d = flock_delta(a, i);
    let v0 = velocity_spec(a[i].speed_view(), a[i].rotation_view());
    let v = (d.0 + v0.0, d.1 + v0.1);
    let m = sqrt_floor(v.0 * v.0 + v.1 * v.1);
    let sp = a[i].speed_view();
    let w = if m > sp { ((v.0 * sp) / m, (v.1 * sp) / m) } else { v };
    let p = a[i].position_view();
    Point { x: ((p.x + w.0) % (ONE as int)) as i32, y: ((p.y + w.1) % (ONE as int)) as i32 }
}

/// The eye's cells as network inputs: sums beyond the largest `i32` saturate.
pub open spec fn as_inputs(vision: Seq<int>) -> Seq<i32> {
    vision.map_values(|v: int| clamp(v, 0, i32_max()) as i32)
}

/// Speed and heading of animal `a` after its brain has looked at `foods`: the
/// first output, limited to the speed acceleration, changes the speed, kept
/// between the bounds; the second, limited to the rotation acceleration, turns it.
pub open spec fn steered(a: Animal, foods: Seq<Food>, c: SimulationConfig) -> (int, int) {
    steered_from(a, a.position_view(), foods, c)
}

/// [`steered`] for animal `a` standing at `p`.
pub open spec fn steered_from(a: Animal, p: Point, foods: Seq<Food>, c: SimulationConfig) -> (int, int) {
    let vision = a.eye_view().sees(p, a.rotation_view(), foods);
    let out = propagate_spec(a.brain_view().layers(), as_inputs(vision));
    let ds = clamp(out[0] as int, -c.speed_accel, c.speed_accel as int);
    let da = clamp(out[1] as int, -c.rotation_accel, c.rotation_accel as int);
    (clamp(a.speed_view() + ds, c.speed_min as int, c.speed_max as int), wrap_spec(a.rotation_view() + da))
}

/// Where every animal goes in one step.
pub open spec fn moved_positions(a: Seq<Animal>) -> Seq<Point> {
    Seq::new(a.len(), |i: int| moved_position(a, i))
}

/// The eating of one tick that started from `animals` and `foods`: the
/// animals, at the places they moved to, ate in turn with the respawn
/// positions `respawns`, leaving hungers `h` and the foods at `fm`.
pub open spec fn tick_ate(animals: Seq<Animal>, foods: Seq<Food>, respawns: Seq<Point>, h: Seq<u32>, fm: Seq<Point>) -> bool {
    fed(moved_positions(animals), hungers(animals), food_positions(foods), respawns, h, fm)
}

/// The square of [`COLLISION_RADIUS`].
pub open spec fn reach() -> int {
    COLLISION_RADIUS * COLLISION_RADIUS
}

/// `h + m`, saturated at the largest `u32`.
pub open spec fn sat_add(h: int, m: int) -> int {
    if h + m > u32::MAX { u32::MAX as int } else { h + m }
}

/// Where each food lies.
pub open spec fn food_positions(f: Seq<Food>) -> Seq<Point> {
    f.map_values(|x: Food| x.position)
}

/// Where each animal lies.
pub open spec fn animal_positions(a: Seq<Animal>) -> Seq<Point> {
    a.map_values(|x: Animal| x.position_view())
}

/// An animal at `p` checks the foods `foods[0..j]` in order; each one within
/// reach is eaten and moved to the next of `respawns`, counting from `start`.
/// Gives the foods eaten, where the foods lie afterwards, and the index of the
/// next respawn position.
pub open spec fn eat_row(p: Point, foods: Seq<Point>, respawns: Seq<Point>, start: int, j: int) -> (int, Seq<Point>, int)
    decreases j,
{
    if j <= 0 {
        (0, foods, start)
    } else {
        let r = eat_row(p, foods, respawns, start, j - 1);
        if dist2(p, r.1[j - 1]) <= reach() {
            (r.0 + 1, r.1.update(j - 1, respawns[r.2]), r.2 + 1)
        } else {
            r
        }
    }
}

/// The animals at `pos[0..i]` eat in turn, each checking every food: the
/// meals of each, where the foods lie afterwards, and how many respawn
/// positions were used.
pub open spec fn eat_all(pos: Seq<Point>, foods: Seq<Point>, respawns: Seq<Point>, i: int) -> (Seq<int>, Seq<Point>, int)
    decreases i,
{
    if i <= 0 {
        (Seq::empty(), foods, 0)
    } else {
        let r = eat_all(pos, foods, respawns, i - 1);
        let row = eat_row(pos[i - 1], r.1, respawns, r.2, r.1.len() as int);
        (r.0.push(row.0), row.1, row.2)
    }
}

/// One round of eating, animal by animal and food by food, with the eaten
/// foods moved to `respawns` in turn: each hunger rose by that animal's
/// meals (saturating), the foods lie where the round left them, and exactly
/// the respawn positions used were drawn, all in `[0, ONE)²`.
pub open spec fn fed(
    pos: Seq<Point>,
    hunger_before: Seq<u32>,
    foods_before: Seq<Point>,
    respawns: Seq<Point>,
    hunger_after: Seq<u32>,
    foods_after: Seq<Point>,
) -> bool {
    let r = eat_all(pos, foods_before, respawns, pos.len() as int);
    &&& hunger_before.len() == pos.len()
    &&& hunger_after.len() == pos.len()
    &&& forall|i: int| 0 <= i < pos.len() ==>
        #[trigger] hunger_after[i] == sat_add(hunger_before[i] as int, r.0[i])
    &&& foods_after == r.1
    &&& respawns.len() == r.2
    &&& forall|k: int| 0 <= k < respawns.len() ==> (#[trigger] respawns[k]).drawn()
}

/// `s[0] + ... + s[len - 1]`.
pub open spec fn sum_of(s: Seq<int>) -> int
    decreases s.len(),
{
    if s.len() == 0 { 0 } else { sum_of(s.drop_last()) + s.last() }
}

/// A row eats as many foods as respawn positions it uses, and keeps the
/// number of foods.
pub proof fn lemma_eat_row_counts(p: Point, foods: Seq<Point>, respawns: Seq<Point>, start: int, j: int)
    requires
        0 <= j <= foods.len(),
    ensures
        eat_row(p, foods, respawns, start, j).0 == eat_row(p, foods, respawns, start, j).2 - start,
        eat_row(p, foods, respawns, start, j).0 >= 0,
        eat_row(p, foods, respawns, start, j).1.len() == foods.len(),
    decreases j,
{
    if j > 0 {
        lemma_eat_row_counts(p, foods, respawns, start, j - 1);
    }
}

/// The meals of a round add up to the respawn positions it used: every food
/// eaten reappears once.
pub proof fn lemma_meals_are_respawns(pos: Seq<Point>, foods: Seq<Point>, respawns: Seq<Point>, i: int)
    requires
        0 <= i <= pos.len(),
    ensures
        eat_all(pos, foods, respawns, i).0.len() == i,
        sum_of(eat_all(pos, foods, respawns, i).0) == eat_all(pos, foods, respawns, i).2,
        eat_all(pos, foods, respawns, i).1.len() == foods.len(),
        forall|k: int| 0 <= k < i ==> #[trigger] eat_all(pos, foods, respawns, i).0[k] >= 0,
    decreases i,
{
    if i > 0 {
        lemma_meals_are_respawns(pos, foods, respawns, i - 1);
        let r = eat_all(pos, foods, respawns, i - 1);
        lemma_eat_row_counts(pos[i - 1], r.1, respawns, r.2, r.1.len() as int);
        let m = eat_all(pos, foods, respawns, i).0;
        assert(m.drop_last() =~= r.0);
    }
}

/// A row that used only the first positions of `respawns` gives the same
/// result once more positions are drawn after them.
proof fn lemma_eat_row_extend(p: Point, foods: Seq<Point>, respawns: Seq<Point>, x: Point, start: int, j: int)
    requires
        0 <= start,
        eat_row(p, foods, respawns, start, j).2 <= respawns.len(),
    ensures
        eat_row(p, foods, respawns.push(x), start, j) == eat_row(p, foods, respawns, start, j),
    decreases j,
{
    if j > 0 {
        let r = eat_row(p, foods, respawns, start, j - 1);
        lemma_eat_row_start(p, foods, respawns, start, j - 1);
        lemma_eat_row_extend(p, foods, respawns, x, start, j - 1);
        if dist2(p, r.1[j - 1]) <= reach() {
            assert(respawns.push(x)[r.2] == respawns[r.2]);
        }
    }
}

proof fn lemma_eat_row_start(p: Point, foods: Seq<Point>, respawns: Seq<Point>, start: int, j: int)
    ensures
        start <= eat_row(p, foods, respawns, start, j).2,
        j > 0 ==> eat_row(p, foods, respawns, start, j - 1).2 <= eat_row(p, foods, respawns, start, j).2,
    decreases j,
{
    if j > 0 {
        lemma_eat_row_start(p, foods, respawns, start, j - 1);
    }
}

/// A round that used only the first positions of `respawns` gives the same
/// result once more positions are drawn after them.
proof fn lemma_eat_all_extend(pos: Seq<Point>, foods: Seq<Point>, respawns: Seq<Point>, x: Point, i: int)
    requires
        eat_all(pos, foods, respawns, i).2 <= respawns.len(),
    ensures
        eat_all(pos, foods, respawns.push(x), i) == eat_all(pos, foods, respawns, i),
        eat_all(pos, foods, respawns, i).2 >= 0,
    decreases i,
{
    if i > 0 {
        let r = eat_all(pos, foods, respawns, i - 1);
        lemma_eat_row_start(pos[i - 1], r.1, respawns, r.2, r.1.len() as int);
        lemma_eat_all_extend(pos, foods, respawns, x, i - 1);
        lemma_eat_row_extend(pos[i - 1], r.1, respawns, x, r.2, r.1.len() as int);
    }
}

/// `s` are the figures of a generation whose animals, `before` at some point
/// of it, ended with hungers `h` (none below where it stood then), and the
/// animals `after` were bred from it by `ga`.
pub open spec fn generation_ended(
    ga: GeneticAlgorithm<RouletteWheelSelection, UniformCrossover, GaussianMutation>,
    before: Seq<Animal>,
    after: Seq<Animal>,
    s: Statistics,
    h: Seq<u32>,
) -> bool {
    &&& h.len() == before.len()
    &&& forall|i: int| 0 <= i < h.len() ==> #[trigger] h[i] >= before[i].hunger_view()
    &&& s.describes(h)
    &&& forall|i: int| 0 <= i < after.len() ==>
        ga.breeds(brains(before), h, (#[trigger] after[i]).brain_view().genome())
}

/// `s` are the figures of the tick that started from the animals `pa`, whose
/// hungers `h` after eating they describe: `pa` has the brains of `start` and
/// no hunger below it, and `after` was bred from `h` by `ga`.
pub open spec fn last_tick(
    ga: GeneticAlgorithm<RouletteWheelSelection, UniformCrossover, GaussianMutation>,
    start: Seq<Animal>,
    pa: Seq<Animal>,
    after: Seq<Animal>,
    s: Statistics,
    h: Seq<u32>,
) -> bool {
    &&& pa.len() == start.len()
    &&& brains(pa) == brains(start)
    &&& forall|i: int| 0 <= i < pa.len() ==> #[trigger] pa[i].hunger_view() >= start[i].hunger_view()
    &&& s.describes(h)
    &&& forall|i: int| 0 <= i < after.len() ==> ga.breeds(brains(start), h, (#[trigger] after[i]).brain_view().genome())
}

/// The genome of each animal's brain.
pub open spec fn brains(a: Seq<Animal>) -> Seq<Seq<i32>> {
    a.map_values(|x: Animal| x.brain_view().genome())
}

/// The food each animal ate.
pub open spec fn hungers(a: Seq<Animal>) -> Seq<u32> {
    a.map_values(|x: Animal| x.hunger_view())
}

pub struct Simulation {
    world: World,
    ga: GeneticAlgorithm<RouletteWheelSelection, UniformCrossover, GaussianMutation>,
    age: usize,
    config: Config,
}

impl Simulation {
    pub closed spec fn world_view(&self) -> World {
        self.world
    }

    pub closed spec fn age_view(&self) -> int {
        self.age as int
    }

    pub closed spec fn config_view(&self) -> Config {
        self.config
    }

    /// The genetic algorithm that breeds each next generation.
    pub closed spec fn ga_view(&self) -> GeneticAlgorithm<RouletteWheelSelection, UniformCrossover, GaussianMutation> {
        self.ga
    }

    /// The world fits the configuration and the generation has not run out.
    pub open spec fn wf(&self) -> bool {
        &&& self.world_view().wf(self.config_view())
        &&& self.age_view() <= self.config_view().simulation.max_generation
    }

    pub fn random(rng: &mut StdRng, settings: Config) -> (r: Simulation)
        requires
            settings.valid(),
        ensures
            r.wf(),
            r.age_view() == 0,
            r.config_view() == settings,
            forall|i: int| 0 <= i < r.world_view().animals_view().len() ==>
                (#[trigger] r.world_view().animals_view()[i]).hunger_view() == 0,
            r.ga_view().mutation().chance_view() == settings.simulation.mutation_chance,
            r.ga_view().mutation().magnitude_view() == settings.simulation.mutation_weight,
            animals_drawn(r.world_view().animals_view()),
            foods_drawn(r.world_view().foods_view()),
    {
        let world = World::random(rng, settings);
        let ga = GeneticAlgorithm::new(
            RouletteWheelSelection,
            UniformCrossover,
            GaussianMutation::new(settings.simulation.mutation_chance, settings.simulation.mutation_weight),
        );
        Simulation { world, ga, age: 0, config: settings }
    }

    pub fn world(&self) -> (r: &World)
        ensures
            *r == self.world_view(),
    {
        &self.world
    }

    /// Steps taken in the current generation.
    pub fn age(&self) -> (r: usize)
        ensures
            r == self.age_view(),
    {
        self.age
    }

    pub fn settings(&self) -> (r: Config)
        ensures
            r == self.config_view(),
    {
        self.config
    }

    /// Moves every animal by its flocking displacement and its own velocity.
    /// All displacements are computed from the positions before the step.
    fn calc_movement(&mut self)
        requires
            old(self).wf(),
        ensures
            final(self).wf(),
            final(self).ga_view() == old(self).ga_view(),
            final(self).age_view() == old(self).age_view(),
            final(self).config_view() == old(self).config_view(),
            final(self).world_view().foods_view() == old(self).world_view().foods_view(),
            final(self).world_view().animals_view().len() == old(self).world_view().animals_view().len(),
            forall|i: int| 0 <= i < old(self).world_view().animals_view().len() ==> {
                let a = #[trigger] final(self).world_view().animals_view()[i];
                let b = old(self).world_view().animals_view()[i];
                &&& a.position_view() == moved_position(old(self).world_view().animals_view(), i)
                &&& a.eye_view() == b.eye_view()
                &&& a.brain_view() == b.brain_view()
                &&& a.rotation_view() == b.rotation_view()
                &&& a.speed_view() == b.speed_view()
                &&& a.hunger_view() == b.hunger_view()
            },
    {
        let ghost start = self.world.animals@;
        let n = self.world.animals.len();
        let mut deltas: Vec<Vector2> = Vec::new();
        let mut i: usize = 0;
        while i < n
            invariant
                self.wf(),
                start == self.world.animals@,
                n == start.len(),
                n <= u32::MAX,
                0 <= i <= n,
                deltas@.len() == i,
                forall|k: int| 0 <= k < i ==> (#[trigger] deltas@[k]).x == flock_delta(start, k).0
                    && deltas@[k].y == flock_delta(start, k).1,
                forall|k: int| 0 <= k < i ==> -0x10_0000_0000_0000 <= (#[trigger] deltas@[k]).x <= 0x10_0000_0000_0000
                    && -0x10_0000_0000_0000 <= deltas@[k].y <= 0x10_0000_0000_0000,
            decreases n - i,
        {
            assert(forall|k: int| 0 <= k < n ==> (#[trigger] start[k]).wf());
            let c = self.world.calc_coherence(i);
            let s = self.world.calc_separation(i);
            let l = self.world.calc_alignment(i);
            let x = div_floor(
                (COHERENCE_WEIGHT * c.x + SEPARATION_WEIGHT * s.x + ALIGNMENT_WEIGHT * l.x) as i128,
                100,
            );
            let y = div_floor(
                (COHERENCE_WEIGHT * c.y + SEPARATION_WEIGHT * s.y + ALIGNMENT_WEIGHT * l.y) as i128,
                100,
            );
            deltas.push(Vector2 { x: x as i64, y: y as i64 });
            i += 1;
        }
        let mut i: usize = 0;
        while i < n
            invariant
                self.wf(),
                self.world.foods@ == old(self).world.foods@,
                self.age == old(self).age,
                self.config == old(self).config,
                self.ga == old(self).ga,
                start == old(self).world.animals@,
                n == start.len(),
                n == self.world.animals@.len(),
                0 <= i <= n,
                deltas@.len() == n,
                forall|k: int| 0 <= k < n ==> (#[trigger] deltas@[k]).x == flock_delta(start, k).0
                    && deltas@[k].y == flock_delta(start, k).1,
                forall|k: int| 0 <= k < n ==> -0x10_0000_0000_0000 <= (#[trigger] deltas@[k]).x <= 0x10_0000_0000_0000
                    && -0x10_0000_0000_0000 <= deltas@[k].y <= 0x10_0000_0000_0000,
                forall|k: int| i <= k < n ==> #[trigger] self.world.animals@[k] == start[k],
                forall|k: int| 0 <= k < i ==> {
                    let a = #[trigger] self.world.animals@[k];
                    let b = start[k];
                    &&& a.position_view() == moved_position(start, k)
                    &&& a.eye_view() == b.eye_view()
                    &&& a.brain_view() == b.brain_view()
                    &&& a.rotation_view() == b.rotation_view()
                    &&& a.speed_view() == b.speed_view()
                    &&& a.hunger_view() == b.hunger_view()
                },
            decreases n - i,
        {
            let p = self.world.animals[i].position;
            let sp = self.world.animals[i].speed;
            let vel = velocity(sp, self.world.animals[i].rotation);
            let d = deltas[i];
            let vx = (d.x + vel.0) as i128;
            let vy = (d.y + vel.1) as i128;
            assert(0 <= vx * vx <= 0x1000_0000_0000_0000_0000_0000_0000 && 0 <= vy * vy <= 0x1000_0000_0000_0000_0000_0000_0000) by (nonlinear_arith)
                requires
                    -0x20_0000_0000_0000 <= vx <= 0x20_0000_0000_0000,
                    -0x20_0000_0000_0000 <= vy <= 0x20_0000_0000_0000,
            ;
            let m = isqrt((vx * vx + vy * vy) as u128) as i128;
            let (wx, wy) = if m > sp as i128 {
                assert(-0x100_0000_0000_0000_0000_0000 <= vx * (sp as i128) <= 0x100_0000_0000_0000_0000_0000
                    && -0x100_0000_0000_0000_0000_0000 <= vy * (sp as i128) <= 0x100_0000_0000_0000_0000_0000) by (nonlinear_arith)
                    requires
                        -0x20_0000_0000_0000 <= vx <= 0x20_0000_0000_0000,
                        -0x20_0000_0000_0000 <= vy <= 0x20_0000_0000_0000,
                        0 <= sp <= 0x8000_0000,
                ;
                let qx = div_floor(vx * (sp as i128), m);
                let qy = div_floor(vy * (sp as i128), m);
                assert(-0x100_0000_0000_0000_0000_0000 <= qx <= 0x100_0000_0000_0000_0000_0000
                    && -0x100_0000_0000_0000_0000_0000 <= qy <= 0x100_0000_0000_0000_0000_0000) by (nonlinear_arith)
                    requires
                        m >= 1,
                        qx as int == (vx * sp) as int / (m as int),
                        qy as int == (vy * sp) as int / (m as int),
                        -0x100_0000_0000_0000_0000_0000 <= vx * sp <= 0x100_0000_0000_0000_0000_0000,
                        -0x100_0000_0000_0000_0000_0000 <= vy * sp <= 0x100_0000_0000_0000_0000_0000,
                ;
                (qx, qy)
            } else {
                (vx, vy)
            };
            let x = mod_floor(p.x as i128 + wx, ONE as i128) as i32;
            let y = mod_floor(p.y as i128 + wy, ONE as i128) as i32;
            self.world.animals[i].position = Point { x, y };
            i += 1;
        }
    }

    /// Each animal looks at the food, and its brain sets its new speed and heading.
    fn calc_brain(&mut self)
        requires
            old(self).wf(),
        ensures
            final(self).wf(),
            final(self).ga_view() == old(self).ga_view(),
            final(self).age_view() == old(self).age_view(),
            final(self).config_view() == old(self).config_view(),
            final(self).world_view().foods_view() == old(self).world_view().foods_view(),
            final(self).world_view().animals_view().len() == old(self).world_view().animals_view().len(),
            forall|i: int| 0 <= i < old(self).world_view().animals_view().len() ==> {
                let a = #[trigger] final(self).world_view().animals_view()[i];
                let b = old(self).world_view().animals_view()[i];
                let t = steered(b, old(self).world_view().foods_view(), old(self).config_view().simulation);
                &&& a.speed_view() == t.0
                &&& a.rotation_view() == t.1
                &&& a.eye_view() == b.eye_view()
                &&& a.brain_view() == b.brain_view()
                &&& a.position_view() == b.position_view()
                &&& a.hunger_view() == b.hunger_view()
            },
    {
        let ghost start = self.world.animals@;
        let c = self.config.simulation;
        let n = self.world.animals.len();
        let mut i: usize = 0;
        while i < n
            invariant
                self.wf(),
                self.world.foods@ == old(self).world.foods@,
                self.age == old(self).age,
                self.config == old(self).config,
                self.ga == old(self).ga,
                c == self.config.simulation,
                start == old(self).world.animals@,
                n == start.len(),
                n == self.world.animals@.len(),
                0 <= i <= n,
                forall|k: int| i <= k < n ==> #[trigger] self.world.animals@[k] == start[k],
                forall|k: int| 0 <= k < i ==> {
                    let a = #[trigger] self.world.animals@[k];
                    let b = start[k];
                    let t = steered(b, self.world.foods@, c);
                    &&& a.speed_view() == t.0
                    &&& a.rotation_view() == t.1
                    &&& a.eye_view() == b.eye_view()
                    &&& a.brain_view() == b.brain_view()
                    &&& a.position_view() == b.position_view()
                    &&& a.hunger_view() == b.hunger_view()
                },
            decreases n - i,
        {
            assert(self.world.animals@[i as int].wf());
            let vision = self.world.animals[i].eye.calc_vision(
                self.world.animals[i].position,
                self.world.animals[i].rotation,
                self.world.foods.as_slice(),
            );
            let inputs = saturate(&vision);
            proof {
                let a = self.world.animals@[i as int];
                let seen = a.eye_view().sees(a.position_view(), a.rotation_view(), self.world.foods@);
                assert(inputs@ =~= as_inputs(seen));
            }
            let out = self.world.animals[i].brain.propagate(inputs);
            let ds = clamp_i64(out[0] as i64, -(c.speed_accel as i64), c.speed_accel as i64);
            let da = clamp_i64(out[1] as i64, -(c.rotation_accel as i64), c.rotation_accel as i64);
            let speed = clamp_i64(self.world.animals[i].speed as i64 + ds, c.speed_min as i64, c.speed_max as i64);
            let rotation = wrap_angle(self.world.animals[i].rotation + da);
            self.world.animals[i].speed = speed as i32;
            self.world.animals[i].rotation = rotation;
            i += 1;
        }
    }

    /// Every animal eats, in order, every food within [`COLLISION_RADIUS`] of
    /// it; an eaten food reappears at once at a random place.
    fn calc_collision(&mut self, rng: &mut StdRng)
        requires
            old(self).wf(),
        ensures
            final(self).wf(),
            final(self).ga_view() == old(self).ga_view(),
            final(self).age_view() == old(self).age_view(),
            final(self).config_view() == old(self).config_view(),
            final(self).world_view().animals_view().len() == old(self).world_view().animals_view().len(),
            forall|i: int| 0 <= i < old(self).world_view().animals_view().len() ==> {
                let a = #[trigger] final(self).world_view().animals_view()[i];
                let b = old(self).world_view().animals_view()[i];
                &&& a.hunger_view() >= b.hunger_view()
                &&& a.eye_view() == b.eye_view()
                &&& a.brain_view() == b.brain_view()
                &&& a.position_view() == b.position_view()
                &&& a.rotation_view() == b.rotation_view()
                &&& a.speed_view() == b.speed_view()
            },
            exists|respawns: Seq<Point>| #[trigger] fed(
                animal_positions(old(self).world_view().animals_view()),
                hungers(old(self).world_view().animals_view()),
                food_positions(old(self).world_view().foods_view()),
                respawns,
                hungers(final(self).world_view().animals_view()),
                food_positions(final(self).world_view().foods_view()),
            ),
    {
        let ghost start = self.world.animals@;
        let ghost pos = animal_positions(start);
        let ghost foods0 = food_positions(self.world.foods@);
        let n = self.world.animals.len();
        let f = self.world.foods.len();
        let ghost mut respawns: Seq<Point> = Seq::empty();
        let mut i: usize = 0;
        proof {
            assert(food_positions(self.world.foods@) =~= eat_all(pos, foods0, respawns, 0).1);
        }
        while i < n
            invariant
                self.wf(),
                self.ga == old(self).ga,
                self.age == old(self).age,
                self.config == old(self).config,
                start == old(self).world.animals@,
                pos == animal_positions(start),
                foods0 == food_positions(old(self).world.foods@),
                n == start.len(),
                n == self.world.animals@.len(),
                f == self.world.foods@.len(),
                f == foods0.len(),
                0 <= i <= n,
                forall|k: int| i <= k < n ==> #[trigger] self.world.animals@[k] == start[k],
                forall|k: int| 0 <= k < i ==> {
                    let a = #[trigger] self.world.animals@[k];
                    let b = start[k];
                    &&& a.hunger_view() >= b.hunger_view()
                    &&& a.hunger_view() == sat_add(b.hunger_view() as int, eat_all(pos, foods0, respawns, i as int).0[k])
                    &&& a.eye_view() == b.eye_view()
                    &&& a.brain_view() == b.brain_view()
                    &&& a.position_view() == b.position_view()
                    &&& a.rotation_view() == b.rotation_view()
                    &&& a.speed_view() == b.speed_view()
                },
                food_positions(self.world.foods@) == eat_all(pos, foods0, respawns, i as int).1,
                respawns.len() == eat_all(pos, foods0, respawns, i as int).2,
                forall|k: int| 0 <= k < respawns.len() ==> (#[trigger] respawns[k]).drawn(),
            decreases n - i,
        {
            let mut j: usize = 0;
            assert(self.world.animals@[i as int].wf());
            let ghost before = self.world.animals@[i as int];
            let ghost base = eat_all(pos, foods0, respawns, i as int);
            proof {
                lemma_meals_are_respawns(pos, foods0, respawns, i as int);
                lemma_eat_all_extend(pos, foods0, respawns, Point { x: 0, y: 0 }, i as int);
            }
            while j < f
                invariant
                    self.wf(),
                    self.ga == old(self).ga,
                    self.age == old(self).age,
                    self.config == old(self).config,
                    start == old(self).world.animals@,
                    pos == animal_positions(start),
                    foods0 == food_positions(old(self).world.foods@),
                    n == start.len(),
                    n == self.world.animals@.len(),
                    f == self.world.foods@.len(),
                    f == foods0.len(),
                    0 <= i < n,
                    0 <= j <= f,
                    before == start[i as int],
                    base == eat_all(pos, foods0, respawns, i as int),
                    base.0.len() == i,
                    base.1.len() == f,
                    base.2 >= 0,
                    forall|k: int| 0 <= k < i ==> #[trigger] base.0[k] >= 0,
                    forall|k: int| i < k < n ==> #[trigger] self.world.animals@[k] == start[k],
                    forall|k: int| 0 <= k < i ==> {
                        let a = #[trigger] self.world.animals@[k];
                        let b = start[k];
                        &&& a.hunger_view() >= b.hunger_view()
                        &&& a.hunger_view() == sat_add(b.hunger_view() as int, base.0[k])
                        &&& a.eye_view() == b.eye_view()
                        &&& a.brain_view() == b.brain_view()
                        &&& a.position_view() == b.position_view()
                        &&& a.rotation_view() == b.rotation_view()
                        &&& a.speed_view() == b.speed_view()
                    },
                    self.world.animals@[i as int].hunger_view() == sat_add(
                        before.hunger_view() as int, eat_row(pos[i as int], base.1, respawns, base.2, j as int).0),
                    eat_row(pos[i as int], base.1, respawns, base.2, j as int).0 >= 0,
                    self.world.animals@[i as int].hunger_view() >= before.hunger_view(),
                    self.world.animals@[i as int].eye_view() == before.eye_view(),
                    self.world.animals@[i as int].brain_view() == before.brain_view(),
                    self.world.animals@[i as int].position_view() == before.position_view(),
                    self.world.animals@[i as int].rotation_view() == before.rotation_view(),
                    self.world.animals@[i as int].speed_view() == before.speed_view(),
                    food_positions(self.world.foods@) == eat_row(pos[i as int], base.1, respawns, base.2, j as int).1,
                    respawns.len() == eat_row(pos[i as int], base.1, respawns, base.2, j as int).2,
                    forall|k: int| 0 <= k < respawns.len() ==> (#[trigger] respawns[k]).drawn(),
                decreases f - j,
            {
                let ghost row = eat_row(pos[i as int], base.1, respawns, base.2, j as int);
                proof {
                    lemma_eat_row_counts(pos[i as int], base.1, respawns, base.2, j as int);
                    assert(food_positions(self.world.foods@)[j as int] == self.world.foods@[j as int].position);
                }
                assert(self.world.foods@[j as int].position.in_world());
                let d2 = distance_squared(self.world.animals[i].position, self.world.foods[j].position);
                if d2 <= COLLISION_RADIUS * COLLISION_RADIUS {
                    let ghost animals0 = self.world.animals@;
                    let h = self.world.animals[i].hunger;
                    if h < u32::MAX {
                        self.world.animals[i].hunger = h + 1;
                    }
                    let spot = Point::random(rng);
                    let ghost old_respawns = respawns;
                    proof {
                        lemma_eat_all_extend(pos, foods0, old_respawns, spot, i as int);
                        lemma_eat_row_start(pos[i as int], base.1, old_respawns, base.2, j as int);
                        lemma_eat_row_extend(pos[i as int], base.1, old_respawns, spot, base.2, j as int);
                        respawns = old_respawns.push(spot);
                        assert(respawns[row.2] == spot);
                    }
                    self.world.foods[j].position = spot;
                    proof {
                        assert(food_positions(self.world.foods@) =~= row.1.update(j as int, spot));
                        assert forall|k: int| 0 <= k < i implies #[trigger] self.world.animals@[k] == animals0[k] by {}
                    }
                } else {
                    proof {
                        lemma_eat_row_start(pos[i as int], base.1, respawns, base.2, j as int + 1);
                    }
                }
                j += 1;
            }
            proof {
                lemma_meals_are_respawns(pos, foods0, respawns, i as int + 1);
                let next = eat_all(pos, foods0, respawns, i as int + 1);
                assert(next.0[i as int] == eat_row(pos[i as int], base.1, respawns, base.2, f as int).0);
                assert forall|k: int| 0 <= k < i implies #[trigger] next.0[k] == base.0[k] by {}
            }
            i += 1;
        }
        proof {
            lemma_meals_are_respawns(pos, foods0, respawns, n as int);
            let hs = hungers(self.world.animals@);
            assert forall|k: int| 0 <= k < n implies #[trigger] hs[k] == sat_add(
                hungers(start)[k] as int, eat_all(pos, foods0, respawns, n as int).0[k]) by {
                assert(self.world.animals@[k].hunger_view() == hs[k]);
            }
            assert(fed(pos, hungers(start), foods0, respawns, hs, food_positions(self.world.foods@)));
        }
    }

    /// The generation boundary: the animals, as (food eaten, genome) pairs,
    /// are bred into a new population of the same size, placed at random; all
    /// food moves to random places; the age restarts. Returns the figures of
    /// the generation that ended.
    fn evolve(&mut self, rng: &mut StdRng) -> (r: Statistics)
        requires
            old(self).world_view().wf(old(self).config_view()),
        ensures
            final(self).wf(),
            final(self).age_view() == 0,
            final(self).config_view() == old(self).config_view(),
            r.describes(hungers(old(self).world_view().animals_view())),
            r.min_fitness * ONE <= r.avg_fitness <= r.max_fitness * ONE,
            forall|i: int| 0 <= i < final(self).world_view().animals_view().len() ==>
                (#[trigger] final(self).world_view().animals_view()[i]).hunger_view() == 0,
            final(self).ga_view() == old(self).ga_view(),
            animals_drawn(final(self).world_view().animals_view()),
            foods_drawn(final(self).world_view().foods_view()),
            forall|i: int| 0 <= i < final(self).world_view().animals_view().len() ==>
                old(self).ga_view().breeds(
                    brains(old(self).world_view().animals_view()),
                    hungers(old(self).world_view().animals_view()),
                    (#[trigger] final(self).world_view().animals_view()[i]).brain_view().genome(),
                ),
    {
        self.age = 0;
        let settings = self.config;
        let ghost start = self.world.animals@;
        let ghost genes = brain_genes(settings.eye.cells as int);
        proof {
            crate::animal::lemma_brain_genes(settings.eye.cells as int);
        }
        let n = self.world.animals.len();
        let mut population: Vec<AnimalIndividual> = Vec::new();
        let mut i: usize = 0;
        while i < n
            invariant
                self.world.wf(settings),
                self.config == settings,
                start == self.world.animals@,
                n == start.len(),
                genes == brain_genes(settings.eye.cells as int),
                genome_len(brain_sizes(settings.eye.cells as int)) == genes,
                0 <= i <= n,
                population@.len() == i,
                forall|k: int| 0 <= k < i ==> (#[trigger] population@[k]).fitness_view() == start[k].hunger_view()
                    && population@[k].genome_view().len() == genes
                    && population@[k].genome_view() == start[k].brain_view().genome(),
            decreases n - i,
        {
            assert(start[i as int].wf());
            population.push(AnimalIndividual::from_animal(&self.world.animals[i]));
            i += 1;
        }
        assert(fitnesses(population@) =~= hungers(start));
        assert(genomes(population@) =~= brains(start));
        let (mut next, stats) = self.ga.evolve(rng, population.as_slice());
        let ghost bred = next@;
        let ghost ga = self.ga;
        let mut animals: Vec<Animal> = Vec::new();
        let mut k: usize = 0;
        while k < n
            invariant
                settings.valid(),
                genes == brain_genes(settings.eye.cells as int),
                0 <= k <= n,
                bred.len() == n,
                next@ == bred.subrange(k as int, n as int),
                animals@.len() == k,
                forall|m: int| 0 <= m < n ==> (#[trigger] bred[m]).genome_view().len() == genes,
                animals_fit(animals@, settings),
                forall|m: int| 0 <= m < k ==> (#[trigger] animals@[m]).hunger_view() == 0,
                animals_drawn(animals@),
                forall|m: int| 0 <= m < k ==> (#[trigger] animals@[m]).brain_view().genome() == bred[m].genome_view(),
            decreases n - k,
        {
            assert(next@[0] == bred[k as int]);
            let child = next.remove(0);
            animals.push(child.into_animal(rng, settings));
            assert(next@ =~= bred.subrange(k as int + 1, n as int));
            k += 1;
        }
        assert forall|m: int| 0 <= m < n implies ga.breeds(brains(start), hungers(start), (#[trigger] animals@[m]).brain_view().genome()) by {
            assert(ga.breeds(genomes(population@), fitnesses(population@), bred[m].genome_view()));
        }
        self.world.animals = animals;
        let f = self.world.foods.len();
        let mut j: usize = 0;
        while j < f
            invariant
                self.world.wf(settings),
                self.config == settings,
                self.age == 0,
                f == self.world.foods@.len(),
                0 <= j <= f,
                forall|m: int| 0 <= m < n ==> (#[trigger] self.world.animals@[m]).hunger_view() == 0,
                n == self.world.animals@.len(),
                self.ga == ga,
                animals_drawn(self.world.animals@),
                forall|m: int| 0 <= m < j ==> (#[trigger] self.world.foods@[m]).position.drawn(),
                forall|m: int| 0 <= m < n ==> ga.breeds(brains(start), hungers(start),
                    (#[trigger] self.world.animals@[m]).brain_view().genome()),
            decreases f - j,
        {
            self.world.foods[j].position = Point::random(rng);
            j += 1;
        }
        stats
    }

    /// One tick: move, look and steer, eat, age. When the age passes the
    /// generation length the population is bred anew and the figures of the
    /// generation that ended are returned; otherwise nothing.
    #[verifier::rlimit(80)]
    pub fn step(&mut self, rng: &mut StdRng) -> (r: Option<Statistics>)
        requires
            old(self).wf(),
        ensures
            final(self).wf(),
            final(self).config_view() == old(self).config_view(),
            r is Some <==> old(self).age_view() + 1 > old(self).config_view().simulation.max_generation,
            r is Some ==> final(self).age_view() == 0,
            r is None ==> final(self).age_view() == old(self).age_view() + 1,
            r is None ==> forall|i: int| 0 <= i < old(self).world_view().animals_view().len() ==> {
                let a = #[trigger] final(self).world_view().animals_view()[i];
                let b = old(self).world_view().animals_view()[i];
                let p = moved_position(old(self).world_view().animals_view(), i);
                let t = steered_from(b, p, old(self).world_view().foods_view(), old(self).config_view().simulation);
                &&& a.position_view() == p
                &&& a.speed_view() == t.0
                &&& a.rotation_view() == t.1
                &&& a.hunger_view() >= b.hunger_view()
                &&& a.brain_view() == b.brain_view()
                &&& a.eye_view() == b.eye_view()
            },
            r is None ==> exists|respawns: Seq<Point>| #[trigger] tick_ate(
                old(self).world_view().animals_view(),
                old(self).world_view().foods_view(),
                respawns,
                hungers(final(self).world_view().animals_view()),
                food_positions(final(self).world_view().foods_view()),
            ),
            r matches Some(s) ==> exists|respawns: Seq<Point>, h: Seq<u32>, fm: Seq<Point>|
                #[trigger] tick_ate(old(self).world_view().animals_view(), old(self).world_view().foods_view(), respawns, h, fm)
                && s.describes(h)
                && forall|i: int| 0 <= i < final(self).world_view().animals_view().len() ==>
                    old(self).ga_view().breeds(
                        brains(old(self).world_view().animals_view()),
                        h,
                        (#[trigger] final(self).world_view().animals_view()[i]).brain_view().genome(),
                    ),
            final(self).ga_view() == old(self).ga_view(),
            final(self).world_view().animals_view().len() == old(self).world_view().animals_view().len(),
            r matches Some(s) ==> s.min_fitness * ONE <= s.avg_fitness <= s.max_fitness * ONE,
            r matches Some(s) ==> exists|h: Seq<u32>| #[trigger] generation_ended(
                old(self).ga_view(),
                old(self).world_view().animals_view(),
                final(self).world_view().animals_view(),
                s,
                h,
            ),
            r is Some ==> forall|i: int| 0 <= i < final(self).world_view().animals_view().len() ==>
                (#[trigger] final(self).world_view().animals_view()[i]).hunger_view() == 0,
    {
        let ghost start = self.world.animals@;
        let ghost foods0 = self.world.foods@;
        self.calc_movement();
        let ghost moved = self.world.animals@;
        self.calc_brain();
        let ghost steer = self.world.animals@;
        self.calc_collision(rng);
        let ghost mid = self.world.animals@;
        let ghost foods_mid = self.world.foods@;
        proof {
            assert(animal_positions(steer) =~= moved_positions(start));
            assert(hungers(steer) =~= hungers(start));
            let respawns = choose|respawns: Seq<Point>| fed(animal_positions(steer), hungers(steer),
                food_positions(foods0), respawns, hungers(mid), food_positions(foods_mid));
            assert(tick_ate(start, foods0, respawns, hungers(mid), food_positions(foods_mid)));
            assert forall|i: int| 0 <= i < start.len() implies {
                let t = steered_from(start[i], moved_position(start, i), foods0, self.config.simulation);
                &&& #[trigger] mid[i].speed_view() == t.0
                &&& mid[i].rotation_view() == t.1
            } by {
                assert(steer[i].speed_view() == steered(moved[i], foods0, self.config.simulation).0);
                assert(moved[i].position_view() == moved_position(start, i));
            }
        }
        self.age = self.age + 1;
        if self.age > self.config.simulation.max_generation {
            let s = self.evolve(rng);
            proof {
                assert(brains(mid) =~= brains(start));
                let h = hungers(mid);
                assert forall|i: int| 0 <= i < h.len() implies #[trigger] h[i] >= start[i].hunger_view() by {
                    assert(mid[i].hunger_view() == h[i]);
                }
                assert(generation_ended(self.ga, start, self.world.animals@, s, h));
            }
            Some(s)
        } else {
            None
        }
    }

    /// Steps until a generation ends, and returns its figures.
    pub fn fast_forward(&mut self, rng: &mut StdRng) -> (r: Statistics)
        requires
            old(self).wf(),
        ensures
            final(self).wf(),
            final(self).config_view() == old(self).config_view(),
            final(self).age_view() == 0,
            final(self).ga_view() == old(self).ga_view(),
            r.min_fitness * ONE <= r.avg_fitness <= r.max_fitness * ONE,
            exists|h: Seq<u32>| #[trigger] generation_ended(
                old(self).ga_view(),
                old(self).world_view().animals_view(),
                final(self).world_view().animals_view(),
                r,
                h,
            ),
            exists|pa: Seq<Animal>, pf: Seq<Food>, respawns: Seq<Point>, h: Seq<u32>, fm: Seq<Point>|
                #[trigger] tick_ate(pa, pf, respawns, h, fm)
                && last_tick(old(self).ga_view(), old(self).world_view().animals_view(), pa,
                    final(self).world_view().animals_view(), r, h),
            forall|i: int| 0 <= i < final(self).world_view().animals_view().len() ==>
                (#[trigger] final(self).world_view().animals_view()[i]).hunger_view() == 0,
    {
        let ghost start = self.world.animals@;
        loop
            invariant
                self.wf(),
                self.config_view() == old(self).config_view(),
                self.ga_view() == old(self).ga_view(),
                start == old(self).world.animals@,
                self.world.animals@.len() == start.len(),
                brains(self.world.animals@) == brains(start),
                forall|i: int| 0 <= i < start.len() ==>
                    #[trigger] self.world.animals@[i].hunger_view() >= start[i].hunger_view(),
            decreases self.config_view().simulation.max_generation - self.age_view(),
        {
            let ghost prev = self.world.animals@;
            let ghost prev_foods = self.world.foods@;
            let r = self.step(rng);
            match r {
                Some(summary) => {
                    proof {
                        let (respawns, h, fm) = choose|respawns: Seq<Point>, h: Seq<u32>, fm: Seq<Point>|
                            tick_ate(prev, prev_foods, respawns, h, fm) && summary.describes(h)
                            && forall|i: int| 0 <= i < self.world.animals@.len() ==>
                                self.ga.breeds(brains(prev), h, (#[trigger] self.world.animals@[i]).brain_view().genome());
                        assert(last_tick(old(self).ga_view(), start, prev, self.world.animals@, summary, h));
                        assert(tick_ate(prev, prev_foods, respawns, h, fm));
                        let h = choose|h: Seq<u32>| generation_ended(self.ga, prev, self.world.animals@, summary, h);
                        assert forall|i: int| 0 <= i < h.len() implies #[trigger] h[i] >= start[i].hunger_view() by {
                            assert(h[i] >= prev[i].hunger_view());
                            assert(prev[i].hunger_view() >= start[i].hunger_view());
                        }
                        assert(generation_ended(self.ga, start, self.world.animals@, summary, h));
                        assert(generation_ended(
                            old(self).ga_view(),
                            old(self).world_view().animals_view(),
                            self.world_view().animals_view(),
                            summary,
                            h,
                        ));
                    }
                    return summary;
                },
                None => {
                    proof {
                        assert(brains(self.world.animals@) =~= brains(prev));
                        assert forall|i: int| 0 <= i < start.len() implies
                            #[trigger] self.world.animals@[i].hunger_view() >= start[i].hunger_view() by {
                            assert(self.world.animals@[i].hunger_view() >= prev[i].hunger_view());
                        }
                    }
                },
            }
        }
    }
}

/// The eye's cells as network inputs.
fn saturate(vision: &Vec<i64>) -> (r: Vec<i32>)
    requires
        forall|k: int| 0 <= k < vision@.len() ==> 0 <= #[trigger] vision@[k],
    ensures
        r@.len() == vision@.len(),
        forall|k: int| 0 <= k < vision@.len() ==> r@[k] == clamp(#[trigger] vision@[k] as int, 0, i32_max()),
{
    let mut r: Vec<i32> = Vec::new();
    let mut k: usize = 0;
    while k < vision.len()
        invariant
            0 <= k <= vision@.len(),
            r@.len() == k,
            forall|m: int| 0 <= m < k ==> r@[m] == clamp(#[trigger] vision@[m] as int, 0, i32_max()),
            forall|m: int| 0 <= m < vision@.len() ==> 0 <= #[trigger] vision@[m],
        decreases vision@.len() - k,
    {
        let v = vision[k];
        r.push(if v > i32::MAX as i64 { i32::MAX } else { v as i32 });
        k += 1;
    }
    r
}

fn clamp_i64(x: i64, lo: i64, hi: i64) -> (r: i64)
    requires
        lo <= hi,
    ensures
        r == clamp(x as int, lo as int, hi as int),
{
    if x < lo {
        lo
    } else if x > hi {
        hi
    } else {
        x
    }
}

} // verus!
