//! A generational genetic algorithm: selection, crossover and mutation are
//! separate roles, each behind a trait, with one default implementation each.

use vstd::prelude::*;
use rand::rngs::StdRng;
use crate::fixed::{ONE, clamp, i32_max, is_isqrt, isqrt, sqrt_floor};
use crate::random::{draw_range, draw_ratio, choose_weighted_index, weight_total};

verus! {

/// The genes of one individual, as fixed-point values.
#[derive(Clone, Debug)]
pub struct Chromosome {
    genes: Vec<i32>,
}

impl View for Chromosome {
    type V = Seq<i32>;

    closed spec fn view(&self) -> Seq<i32> {
        self.genes@
    }
}

impl Chromosome {
    pub fn new(genes: Vec<i32>) -> (r: Chromosome)
        ensures
            r@ == genes@,
    {
        Chromosome { genes }
    }

    pub fn len(&self) -> (r: usize)
        ensures
            r == self@.len(),
    {
        self.genes.len()
    }

    pub fn get(&self, index: usize) -> (r: i32)
        requires
            index < self@.len(),
        ensures
            r == self@[index as int],
    {
        self.genes[index]
    }

    /// The genes, in order.
    pub fn as_slice(&self) -> (r: &[i32])
        ensures
            r@ == self@,
    {
        self.genes.as_slice()
    }

    pub fn into_genes(self) -> (r: Vec<i32>)
        ensures
            r@ == self@,
    {
        self.genes
    }
}

/// What lives in a population: it has a fitness and a chromosome, and can be
/// made again from a chromosome alone.
pub trait Individual: Sized {
    spec fn fitness_view(&self) -> u32;

    spec fn genome_view(&self) -> Seq<i32>;

    fn create(chromosome: Chromosome) -> (r: Self)
        ensures
            r.genome_view() == chromosome@;

    fn fitness(&self) -> (r: u32)
        ensures
            r == self.fitness_view();

    fn chromosome(&self) -> (r: &Chromosome)
        ensures
            r@ == self.genome_view();
}

/// The genomes of a population, in order.
pub open spec fn genomes<I: Individual>(population: Seq<I>) -> Seq<Seq<i32>> {
    population.map_values(|i: I| i.genome_view())
}

/// The fitnesses of a population, in order.
pub open spec fn fitnesses<I: Individual>(population: Seq<I>) -> Seq<u32> {
    population.map_values(|i: I| i.fitness_view())
}

/// `f[0] + ... + f[n - 1]`.
pub open spec fn prefix_sum(f: Seq<u32>, n: int) -> int
    decreases n,
{
    if n <= 0 { 0 } else { prefix_sum(f, n - 1) + f[n - 1] }
}

pub open spec fn total(f: Seq<u32>) -> int {
    prefix_sum(f, f.len() as int)
}

/// The population is small enough for its total fitness to be counted in a `u64`.
pub open spec fn countable(n: int) -> bool {
    0 < n <= u32::MAX
}

pub proof fn lemma_prefix_sum_bounds(f: Seq<u32>, m: int, n: int)
    requires
        0 <= m <= n <= f.len(),
    ensures
        0 <= prefix_sum(f, m) <= prefix_sum(f, n),
        prefix_sum(f, n) <= n * u32::MAX,
    decreases n,
{
    if n > 0 {
        if m < n {
            lemma_prefix_sum_bounds(f, m, n - 1);
        } else {
            lemma_prefix_sum_bounds(f, n - 1, n - 1);
        }
    }
}

/// Picks one member of a non-empty population.
pub trait SelectionMethod {
    /// Member `i` of a population with fitnesses `f` is one this method may pick.
    spec fn picks(&self, f: Seq<u32>, i: int) -> bool;

    fn select<I: Individual>(&self, rng: &mut StdRng, population: &[I]) -> (r: usize)
        requires
            countable(population@.len() as int),
        ensures
            r < population@.len(),
            self.picks(fitnesses(population@), r as int);
}

/// Fitness-proportionate selection: each member is chosen with chance equal to
/// its share of the total fitness; when every fitness is zero, uniformly.
#[derive(Clone, Copy, Debug)]
pub struct RouletteWheelSelection;

impl SelectionMethod for RouletteWheelSelection {
    /// Only a member with some fitness is picked, unless no member has any.
    open spec fn picks(&self, f: Seq<u32>, i: int) -> bool {
        total(f) > 0 ==> f[i] > 0
    }

    fn select<I: Individual>(&self, rng: &mut StdRng, population: &[I]) -> (r: usize) {
        let f = fitness_vec(population);
        let slots = weighted_slots(&f);
        proof {
            let n = f@.len() as int;
            lemma_prefix_sum_bounds(f@, n, n);
            assert(n * u32::MAX <= u32::MAX * u32::MAX) by (nonlinear_arith)
                requires
                    n <= u32::MAX,
            ;
        }
        match choose_weighted_index(rng, slots.as_slice()) {
            Ok(i) => i,
            Err(_) => draw_range(rng, 0, (population.len() - 1) as u64) as usize,
        }
    }
}

/// Each index paired with its fitness as a weight.
fn weighted_slots(f: &Vec<u32>) -> (r: Vec<(usize, u64)>)
    requires
        f@.len() <= u32::MAX,
    ensures
        r@.len() == f@.len(),
        forall|k: int| 0 <= k < r@.len() ==> (#[trigger] r@[k]).0 == k && r@[k].1 == f@[k],
        weight_total(r@) == total(f@),
{
    let mut r: Vec<(usize, u64)> = Vec::new();
    let mut i: usize = 0;
    while i < f.len()
        invariant
            0 <= i <= f@.len(),
            r@.len() == i,
            forall|k: int| 0 <= k < i ==> (#[trigger] r@[k]).0 == k && r@[k].1 == f@[k],
            weight_total(r@) == prefix_sum(f@, i as int),
        decreases f@.len() - i,
    {
        let ghost before = r@;
        r.push((i, f[i] as u64));
        assert(r@.drop_last() =~= before);
        i += 1;
    }
    r
}

fn fitness_vec<I: Individual>(population: &[I]) -> (r: Vec<u32>)
    ensures
        r@ == fitnesses(population@),
{
    let mut r: Vec<u32> = Vec::new();
    let mut i: usize = 0;
    while i < population.len()
        invariant
            0 <= i <= population@.len(),
            r@ =~= fitnesses(population@).take(i as int),
        decreases population@.len() - i,
    {
        r.push(population[i].fitness());
        i += 1;
    }
    r
}

fn total_fitness(f: &Vec<u32>) -> (r: u64)
    requires
        f@.len() <= u32::MAX,
    ensures
        r == total(f@),
{
    let mut i: usize = 0;
    let mut acc: u64 = 0;
    while i < f.len()
        invariant
            0 <= i <= f@.len() <= u32::MAX,
            acc == prefix_sum(f@, i as int),
        decreases f@.len() - i,
    {
        proof {
            lemma_prefix_sum_bounds(f@, i as int + 1, i as int + 1);
            assert((i + 1) * u32::MAX <= u32::MAX * u32::MAX) by (nonlinear_arith)
                requires
                    i + 1 <= u32::MAX,
            ;
        }
        acc = acc + f[i] as u64;
        i += 1;
    }
    acc
}

/// Mixes two parents of equal length into a child of that length.
pub trait CrossoverMethod {
    /// `child` is a crossing of `a` and `b` that this method may give.
    spec fn crosses(&self, a: Seq<i32>, b: Seq<i32>, child: Seq<i32>) -> bool;

    fn crossover(&self, rng: &mut StdRng, parent_a: &Chromosome, parent_b: &Chromosome) -> (r: Chromosome)
        requires
            parent_a@.len() == parent_b@.len(),
        ensures
            r@.len() == parent_a@.len(),
            self.crosses(parent_a@, parent_b@, r@);
}

/// Each gene of the child comes from one parent or the other, on a fair coin.
#[derive(Clone, Copy, Debug)]
pub struct UniformCrossover;

impl UniformCrossover {
    /// The child that takes gene `i` from `parent_a` where `from_a[i]` holds,
    /// else from `parent_b`.
    pub fn cross_with(&self, from_a: &[bool], parent_a: &Chromosome, parent_b: &Chromosome) -> (r: Chromosome)
        requires
            parent_a@.len() == parent_b@.len(),
            from_a@.len() == parent_a@.len(),
        ensures
            r@.len() == parent_a@.len(),
            forall|i: int| 0 <= i < r@.len() ==>
                #[trigger] r@[i] == if from_a@[i] { parent_a@[i] } else { parent_b@[i] },
    {
        let n = parent_a.len();
        let mut genes: Vec<i32> = Vec::new();
        let mut i: usize = 0;
        while i < n
            invariant
                n == parent_a@.len(),
                parent_a@.len() == parent_b@.len(),
                from_a@.len() == n,
                0 <= i <= n,
                genes@.len() == i,
                forall|k: int| 0 <= k < i ==>
                    #[trigger] genes@[k] == if from_a@[k] { parent_a@[k] } else { parent_b@[k] },
            decreases n - i,
        {
            let g = if from_a[i] { parent_a.get(i) } else { parent_b.get(i) };
            genes.push(g);
            i += 1;
        }
        Chromosome::new(genes)
    }
}

impl CrossoverMethod for UniformCrossover {
    /// Every gene of the child is the gene of one parent at the same place.
    open spec fn crosses(&self, a: Seq<i32>, b: Seq<i32>, child: Seq<i32>) -> bool {
        &&& child.len() == a.len()
        &&& forall|i: int| 0 <= i < child.len() ==> #[trigger] child[i] == a[i] || child[i] == b[i]
    }

    fn crossover(&self, rng: &mut StdRng, parent_a: &Chromosome, parent_b: &Chromosome) -> (r: Chromosome) {
        let n = parent_a.len();
        let mut coins: Vec<bool> = Vec::new();
        let mut i: usize = 0;
        while i < n
            invariant
                0 <= i <= n,
                coins@.len() == i,
            decreases n - i,
        {
            coins.push(draw_ratio(rng, 1, 2));
            i += 1;
        }
        self.cross_with(coins.as_slice(), parent_a, parent_b)
    }
}

/// Changes a child in place, keeping its length.
pub trait MutationMethod {
    /// `after` is a mutation of `before` that this method may give.
    spec fn mutates(&self, before: Seq<i32>, after: Seq<i32>) -> bool;

    fn mutate(&self, rng: &mut StdRng, child: &mut Chromosome)
        ensures
            final(child)@.len() == old(child)@.len(),
            self.mutates(old(child)@, final(child)@);
}

/// The gene `g` after a mutation step: unchanged unless `perturb`, else moved by
/// `magnitude * fraction / ONE` down (when `negative`) or up, within `i32`.
pub open spec fn mutated_gene(g: i32, magnitude: u32, negative: bool, perturb: bool, fraction: u32) -> i32 {
    if !perturb {
        g
    } else {
        let step = (magnitude * fraction) / (ONE as int);
        clamp(if negative { g - step } else { g + step }, -i32_max() - 1, i32_max()) as i32
    }
}

/// With every draw in favour of moving, a gene moves whenever the step
/// `magnitude * fraction / ONE` is at least one unit and stays clear of the
/// bounds of `i32`: at full chance and a positive magnitude every gene changes.
pub proof fn lemma_full_chance_moves(g: i32, magnitude: u32, negative: bool, fraction: u32)
    requires
        magnitude * fraction >= ONE,
        -i32_max() - 1 + magnitude <= g <= i32_max() - magnitude,
        fraction < ONE,
    ensures
        mutated_gene(g, magnitude, negative, true, fraction) != g,
{
    let step = (magnitude * fraction) / (ONE as int);
    assert(1 <= step <= magnitude) by (nonlinear_arith)
        requires
            step == (magnitude * fraction) / (ONE as int),
            magnitude * fraction >= ONE,
            fraction < ONE,
    ;
}

/// Each gene is moved with probability `chance / ONE` by up to `magnitude`
/// (both fixed-point), in a random direction.
#[derive(Clone, Copy, Debug)]
pub struct GaussianMutation {
    chance: u32,
    magnitude: u32,
}

impl GaussianMutation {
    #[verifier::type_invariant]
    spec fn inv(&self) -> bool {
        self.chance <= ONE
    }

    pub closed spec fn chance_view(&self) -> u32 {
        self.chance
    }

    pub closed spec fn magnitude_view(&self) -> u32 {
        self.magnitude
    }

    pub fn new(chance: u32, magnitude: u32) -> (r: GaussianMutation)
        requires
            chance <= ONE,
        ensures
            r.chance_view() == chance,
            r.magnitude_view() == magnitude,
    {
        GaussianMutation { chance, magnitude }
    }

    /// One gene after a step with the given draws.
    pub fn mutate_gene(&self, g: i32, negative: bool, perturb: bool, fraction: u32) -> (r: i32)
        ensures
            r == mutated_gene(g, self.magnitude_view(), negative, perturb, fraction),
    {
        if !perturb {
            return g;
        }
        assert((self.magnitude as int) * (fraction as int) <= u32::MAX * u32::MAX) by (nonlinear_arith);
        let step = ((self.magnitude as u128) * (fraction as u128) / (ONE as u128)) as i128;
        let moved: i128 = if negative { g as i128 - step } else { g as i128 + step };
        if moved < i32::MIN as i128 {
            i32::MIN
        } else if moved > i32::MAX as i128 {
            i32::MAX
        } else {
            moved as i32
        }
    }
}

/// `after` is the gene `g` after one step of a mutation with this chance and
/// magnitude: some direction, some fraction below `ONE`, and a decision to
/// move that is never taken at chance zero and always taken at chance `ONE`.
pub open spec fn mutation_step(g: i32, after: i32, chance: u32, magnitude: u32) -> bool {
    exists|negative: bool, perturb: bool, fraction: u32|
        fraction < ONE
        && (chance == 0 ==> !perturb)
        && (chance == ONE ==> perturb)
        && after == #[trigger] mutated_gene(g, magnitude, negative, perturb, fraction)
}

impl MutationMethod for GaussianMutation {
    /// Each gene takes one mutation step of its own.
    open spec fn mutates(&self, before: Seq<i32>, after: Seq<i32>) -> bool {
        &&& after.len() == before.len()
        &&& forall|i: int| 0 <= i < before.len() ==>
            #[trigger] mutation_step(before[i], after[i], self.chance_view(), self.magnitude_view())
    }

    /// Per gene, in this order and whatever the outcome: a fair coin for the
    /// direction, a draw with chance `chance / ONE` for whether to move, and a
    /// fraction in `[0, ONE)` of `magnitude` for how far.
    fn mutate(&self, rng: &mut StdRng, child: &mut Chromosome)
        ensures
            self.chance_view() == 0 || self.magnitude_view() == 0 ==> final(child)@ == old(child)@,
            forall|i: int| 0 <= i < old(child)@.len() ==>
                #[trigger] old(child)@[i] - self.magnitude_view() <= final(child)@[i]
                    <= old(child)@[i] + self.magnitude_view(),
    {
        proof {
            use_type_invariant(self);
        }
        let ghost start = child.genes@;
        let n = child.genes.len();
        let mut i: usize = 0;
        while i < n
            invariant
                0 <= i <= n,
                n == child.genes@.len(),
                start.len() == n,
                self.chance <= ONE,
                forall|k: int| i <= k < n ==> #[trigger] child.genes@[k] == start[k],
                forall|k: int| 0 <= k < i ==>
                    start[k] - self.magnitude <= #[trigger] child.genes@[k] <= start[k] + self.magnitude,
                self.chance == 0 || self.magnitude == 0 ==> forall|k: int| 0 <= k < i ==>
                    #[trigger] child.genes@[k] == start[k],
                forall|k: int| 0 <= k < i ==>
                    #[trigger] mutation_step(start[k], child.genes@[k], self.chance, self.magnitude),
            decreases n - i,
        {
            let negative = draw_ratio(rng, 1, 2);
            let perturb = draw_ratio(rng, self.chance, ONE as u32);
            let fraction = draw_range(rng, 0, (ONE - 1) as u64) as u32;
            let g = self.mutate_gene(child.genes[i], negative, perturb, fraction);
            proof {
                let m = self.magnitude as int;
                let step = (m * fraction) / (ONE as int);
                assert(0 <= step <= m) by (nonlinear_arith)
                    requires
                        step == (m * fraction) / (ONE as int),
                        0 <= fraction < ONE,
                        m >= 0,
                ;
            }
            assert(mutation_step(start[i as int], g, self.chance, self.magnitude));
            child.genes.set(i, g);
            i += 1;
        }
        proof {
            if self.chance == 0 || self.magnitude == 0 {
                assert(child.genes@ =~= start);
            }
        }
    }
}

pub open spec fn min_int(a: int, b: int) -> int {
    if a <= b { a } else { b }
}

pub open spec fn max_int(a: int, b: int) -> int {
    if a >= b { a } else { b }
}

/// The least of a non-empty sequence.
pub open spec fn seq_min(f: Seq<u32>) -> int
    decreases f.len(),
{
    if f.len() <= 1 { f[0] as int } else { min_int(seq_min(f.drop_last()), f.last() as int) }
}

/// The greatest of a non-empty sequence.
pub open spec fn seq_max(f: Seq<u32>) -> int
    decreases f.len(),
{
    if f.len() <= 1 { f[0] as int } else { max_int(seq_max(f.drop_last()), f.last() as int) }
}

/// Every member lies between the least and the greatest, which are members,
/// so the total lies between `n` times each.
pub proof fn lemma_min_max_bound(f: Seq<u32>)
    requires
        f.len() > 0,
    ensures
        forall|i: int| 0 <= i < f.len() ==> seq_min(f) <= #[trigger] f[i] <= seq_max(f),
        exists|i: int| 0 <= i < f.len() && f[i] == seq_max(f),
        f.len() * seq_min(f) <= total(f) <= f.len() * seq_max(f),
    decreases f.len(),
{
    if f.len() == 1 {
        assert(f[0] == seq_max(f));
        assert(prefix_sum(f, 0) == 0);
    } else {
        let g = f.drop_last();
        lemma_min_max_bound(g);
        lemma_prefix_sum_prefix(f, g);
        assert forall|i: int| 0 <= i < f.len() implies seq_min(f) <= #[trigger] f[i] <= seq_max(f) by {
            if i < g.len() {
                assert(f[i] == g[i]);
            }
        }
        let w = choose|i: int| 0 <= i < g.len() && g[i] == seq_max(g);
        if seq_max(g) < f.last() {
            assert(f[f.len() - 1] == seq_max(f));
        } else {
            assert(f[w] == seq_max(f));
        }
        let (n, lo, hi) = (g.len() as int, seq_min(g), seq_max(g));
        assert(n * seq_min(f) <= n * lo && n * hi <= n * seq_max(f)
            && (n + 1) * seq_min(f) == n * seq_min(f) + seq_min(f)
            && (n + 1) * seq_max(f) == n * seq_max(f) + seq_max(f)) by (nonlinear_arith)
            requires
                n >= 0,
                seq_min(f) <= lo,
                hi <= seq_max(f),
        ;
    }
}

proof fn lemma_prefix_sum_prefix(f: Seq<u32>, g: Seq<u32>)
    requires
        f.len() > 0,
        g == f.drop_last(),
    ensures
        total(f) == total(g) + f.last(),
{
    assert forall|k: int| 0 <= k <= g.len() implies prefix_sum(f, k) == prefix_sum(g, k) by {
        lemma_prefix_sum_agree(f, g, k);
    }
}

proof fn lemma_prefix_sum_agree(f: Seq<u32>, g: Seq<u32>, k: int)
    requires
        0 <= k <= g.len(),
        g.len() <= f.len(),
        forall|i: int| 0 <= i < g.len() ==> f[i] == g[i],
    ensures
        prefix_sum(f, k) == prefix_sum(g, k),
    decreases k,
{
    if k > 0 {
        lemma_prefix_sum_agree(f, g, k - 1);
    }
}

/// `f[0]² + ... + f[n - 1]²`.
pub open spec fn square_sum(f: Seq<u32>, n: int) -> int
    decreases n,
{
    if n <= 0 { 0 } else { square_sum(f, n - 1) + f[n - 1] * f[n - 1] }
}

/// `Σ (f[k] - x)²` over the first `n` members.
pub open spec fn deviation(f: Seq<u32>, n: int, x: int) -> int
    decreases n,
{
    if n <= 0 { 0 } else { deviation(f, n - 1, x) + (f[n - 1] - x) * (f[n - 1] - x) }
}

/// `n² ·` the variance of the first `n` members: `n · Σ f² - (Σ f)²`.
pub open spec fn spread(f: Seq<u32>, n: int) -> int {
    n * square_sum(f, n) - prefix_sum(f, n) * prefix_sum(f, n)
}

/// Below this spread the root is taken at full fixed-point precision.
pub const SPREAD_EXACT: u128 = 0x100_0000_0000_0000_0000_0000;

/// `ONE · √v`, rounded down; past [`SPREAD_EXACT`], where `v · ONE²` would not
/// fit in 128 bits, the root is taken first and then scaled.
pub open spec fn spread_root(v: int) -> int {
    if v < SPREAD_EXACT { sqrt_floor(v * ONE * ONE) } else { sqrt_floor(v) * ONE }
}

proof fn lemma_deviation_expands(f: Seq<u32>, n: int, x: int)
    requires
        0 <= n <= f.len(),
    ensures
        deviation(f, n, x) == square_sum(f, n) - 2 * x * prefix_sum(f, n) + n * x * x,
    decreases n,
{
    if n > 0 {
        lemma_deviation_expands(f, n - 1, x);
        let (q, s, y) = (square_sum(f, n - 1), prefix_sum(f, n - 1), f[n - 1] as int);
        assert(square_sum(f, n) == q + y * y);
        assert(prefix_sum(f, n) == s + y);
        assert(deviation(f, n, x) == deviation(f, n - 1, x) + (y - x) * (y - x));
        let (d, d1, q1, s1) = (deviation(f, n - 1, x), deviation(f, n, x), square_sum(f, n), prefix_sum(f, n));
        assert(d1 == q1 - 2 * x * s1 + n * x * x) by (nonlinear_arith)
            requires
                d == q - 2 * x * s + (n - 1) * x * x,
                d1 == d + (y - x) * (y - x),
                q1 == q + y * y,
                s1 == s + y,
        ;
    } else {
        assert(n * x * x == 0 && 2 * x * prefix_sum(f, n) == 0) by (nonlinear_arith)
            requires
                n == 0,
                prefix_sum(f, n) == 0,
        ;
    }
}

proof fn lemma_deviation_nonneg(f: Seq<u32>, n: int, x: int)
    requires
        0 <= n <= f.len(),
    ensures
        deviation(f, n, x) >= 0,
    decreases n,
{
    if n > 0 {
        lemma_deviation_nonneg(f, n - 1, x);
        assert((f[n - 1] - x) * (f[n - 1] - x) >= 0) by (nonlinear_arith);
    }
}

/// The spread is never negative, and is at most `(n · m)²` when no member exceeds `m`.
pub proof fn lemma_spread_bounds(f: Seq<u32>, n: int, m: int)
    requires
        0 <= n <= f.len(),
        forall|k: int| 0 <= k < n ==> #[trigger] f[k] <= m,
    ensures
        0 <= spread(f, n) <= n * square_sum(f, n),
        0 <= square_sum(f, n) <= n * (m * m),
        0 <= prefix_sum(f, n) <= n * m,
    decreases n,
{
    if n > 0 {
        lemma_spread_bounds(f, n - 1, m);
        let (q, s, y) = (square_sum(f, n - 1), prefix_sum(f, n - 1), f[n - 1] as int);
        lemma_deviation_expands(f, n - 1, y);
        lemma_deviation_nonneg(f, n - 1, y);
        let (sp1, sp0, dv) = (spread(f, n), spread(f, n - 1), deviation(f, n - 1, y));
        assert(square_sum(f, n) == q + y * y);
        assert(prefix_sum(f, n) == s + y);
        assert(sp1 == sp0 + dv) by (nonlinear_arith)
            requires
                sp1 == n * (q + y * y) - (s + y) * (s + y),
                sp0 == (n - 1) * q - s * s,
                dv == q - 2 * y * s + (n - 1) * y * y,
        ;
        assert(0 <= y * y <= m * m && (n - 1) * (m * m) + m * m == n * (m * m) && (n - 1) * m + m == n * m) by (nonlinear_arith)
            requires
                0 <= y <= m,
        ;
        assert(0 <= s * s && spread(f, n) <= n * square_sum(f, n)) by (nonlinear_arith)
            requires
                spread(f, n) == n * square_sum(f, n) - (s + y) * (s + y),
        ;
    }
}

/// Fitness figures of one generation.
#[derive(Clone, Copy, Debug)]
pub struct Statistics {
    pub min_fitness: u32,
    pub max_fitness: u32,
    /// The mean fitness, fixed-point and rounded down.
    pub avg_fitness: u64,
    /// The first member with the greatest fitness.
    pub best_index: usize,
    /// The standard deviation of the fitness, fixed-point and rounded down:
    /// `√(n · Σ f² - (Σ f)²) / n` (see [`spread_root`]).
    pub fitness_std: u64,
}

impl Statistics {
    /// These are the figures of a population with fitnesses `f`.
    pub open spec fn describes(&self, f: Seq<u32>) -> bool {
        &&& self.min_fitness == seq_min(f)
        &&& self.max_fitness == seq_max(f)
        &&& self.avg_fitness == (total(f) * ONE) / (f.len() as int)
        &&& self.best_index < f.len()
        &&& f[self.best_index as int] == seq_max(f)
        &&& forall|k: int| 0 <= k < self.best_index ==> #[trigger] f[k] < seq_max(f)
        &&& self.fitness_std == spread_root(spread(f, f.len() as int)) / (f.len() as int)
    }

    pub fn new<I: Individual>(population: &[I]) -> (r: Statistics)
        requires
            countable(population@.len() as int),
        ensures
            r.describes(fitnesses(population@)),
            r.min_fitness * ONE <= r.avg_fitness <= r.max_fitness * ONE,
    {
        let f = fitness_vec(population);
        let ghost fs = f@;
        let n = f.len();
        let mut lo = f[0];
        let mut hi = f[0];
        let mut best: usize = 0;
        let mut i: usize = 1;
        assert(fs.take(1).len() == 1);
        while i < n
            invariant
                fs == f@,
                n == fs.len(),
                1 <= i <= n,
                lo == seq_min(fs.take(i as int)),
                hi == seq_max(fs.take(i as int)),
                best < i,
                fs[best as int] == hi,
                forall|k: int| 0 <= k < best ==> #[trigger] fs[k] < hi,
                forall|k: int| 0 <= k < i ==> #[trigger] fs[k] <= hi,
            decreases n - i,
        {
            assert(fs.take(i as int + 1).drop_last() =~= fs.take(i as int));
            let x = f[i];
            if x < lo {
                lo = x;
            }
            if x > hi {
                hi = x;
                best = i;
            }
            i += 1;
        }
        assert(fs.take(n as int) =~= fs);
        let sum = total_fitness(&f);
        proof {
            lemma_min_max_bound(fs);
            let (t, a, b) = (total(fs), lo as int, hi as int);
            assert(a * ONE <= (t * ONE) / (n as int) <= b * ONE) by (nonlinear_arith)
                requires
                    n * a <= t <= n * b,
                    n > 0,
            ;
            assert(b * ONE <= u32::MAX * ONE) by (nonlinear_arith)
                requires
                    b <= u32::MAX,
            ;
        }
        let avg = ((sum as u128) * (ONE as u128) / (n as u128)) as u64;
        let q = square_total(&f);
        let ghost (ni, si, qi, m) = (n as int, sum as int, q as int, hi as int);
        proof {
            lemma_spread_bounds(fs, ni, m);
            assert(ni * qi <= 0xffff_ffff_ffff_ffff_ffff_ffff_ffff_ffff && si * si <= ni * qi) by (nonlinear_arith)
                requires
                    0 <= qi <= ni * (m * m),
                    0 <= m <= u32::MAX,
                    0 < ni <= u32::MAX,
                    0 <= ni * qi - si * si,
            ;
        }
        let spread_now = (n as u128) * q - (sum as u128) * (sum as u128);
        let ghost v = ni * qi - si * si;
        let root = if spread_now < SPREAD_EXACT {
            assert(spread_now * (ONE * ONE) < 0x1_0000_0000_0000_0000_0000_0000_0000_0000) by (nonlinear_arith)
                requires
                    spread_now < SPREAD_EXACT,
            ;
            let r = isqrt(spread_now * ((ONE * ONE) as u128));
            assert(spread_now == v);
            assert(v * ONE * ONE == v * (ONE * ONE)) by (nonlinear_arith);
            assert(r == spread_root(v));
            r
        } else {
            let r = isqrt(spread_now);
            assert(r * ONE == spread_root(v));
            assert(r * ONE <= 0x1_0000_0000_0000_0000 * ONE) by (nonlinear_arith)
                requires
                    r < 0x1_0000_0000_0000_0000,
            ;
            r * (ONE as u128)
        };
        proof {
            assert(v <= ni * ni * (m * m)) by (nonlinear_arith)
                requires
                    v <= ni * qi,
                    qi <= ni * (m * m),
                    ni > 0,
            ;
            assert(root <= ni * m * ONE) by (nonlinear_arith)
                requires
                    0 <= v <= ni * ni * (m * m),
                    root == spread_root(v),
                    v < SPREAD_EXACT ==> is_isqrt(v * ONE * ONE, sqrt_floor(v * ONE * ONE)),
                    v >= SPREAD_EXACT ==> is_isqrt(v, sqrt_floor(v)),
                    0 <= m,
                    ni > 0,
            ;
            assert((root as int) / ni <= m * ONE) by (nonlinear_arith)
                requires
                    0 <= root <= ni * m * ONE,
                    ni > 0,
            ;
            assert(m * ONE <= u32::MAX * ONE) by (nonlinear_arith)
                requires
                    m <= u32::MAX,
            ;
        }
        let std = (root / (n as u128)) as u64;
        Statistics { min_fitness: lo, max_fitness: hi, avg_fitness: avg, best_index: best, fitness_std: std }
    }
}

fn square_total(f: &Vec<u32>) -> (r: u128)
    requires
        f@.len() <= u32::MAX,
    ensures
        r == square_sum(f@, f@.len() as int),
{
    let mut i: usize = 0;
    let mut acc: u128 = 0;
    proof {
        lemma_spread_bounds(f@, f@.len() as int, u32::MAX as int);
    }
    while i < f.len()
        invariant
            0 <= i <= f@.len() <= u32::MAX,
            acc == square_sum(f@, i as int),
            forall|k: int| 0 <= k < f@.len() ==> #[trigger] f@[k] <= u32::MAX,
        decreases f@.len() - i,
    {
        proof {
            lemma_spread_bounds(f@, i as int + 1, u32::MAX as int);
            assert((i + 1) * (u32::MAX * u32::MAX) <= u32::MAX * (u32::MAX * u32::MAX)) by (nonlinear_arith)
                requires
                    i + 1 <= u32::MAX,
            ;
        }
        let x = f[i] as u128;
        acc = acc + x * x;
        i += 1;
    }
    acc
}

/// Selection, crossover and mutation combined into one generational step.
pub struct GeneticAlgorithm<S, C, M> {
    selection_method: S,
    crossover_method: C,
    mutation_method: M,
}

impl<S: SelectionMethod, C: CrossoverMethod, M: MutationMethod> GeneticAlgorithm<S, C, M> {
    pub fn new(selection_method: S, crossover_method: C, mutation_method: M) -> (r: Self)
        ensures
            r.selection() == selection_method,
            r.crossover() == crossover_method,
            r.mutation() == mutation_method,
    {
        GeneticAlgorithm { selection_method, crossover_method, mutation_method }
    }

    pub closed spec fn selection(&self) -> S {
        self.selection_method
    }

    pub closed spec fn crossover(&self) -> C {
        self.crossover_method
    }

    pub closed spec fn mutation(&self) -> M {
        self.mutation_method
    }

    /// `child` can be bred from a population with genomes `parents` and
    /// fitnesses `f`: two members that selection may pick are crossed, and the
    /// crossing is mutated.
    pub open spec fn breeds(&self, parents: Seq<Seq<i32>>, f: Seq<u32>, child: Seq<i32>) -> bool {
        exists|a: int, b: int, crossed: Seq<i32>|
            #![trigger self.crossover().crosses(parents[a], parents[b], crossed), self.mutation().mutates(crossed, child)]
            0 <= a < parents.len() && 0 <= b < parents.len()
            && self.selection().picks(f, a) && self.selection().picks(f, b)
            && self.crossover().crosses(parents[a], parents[b], crossed)
            && self.mutation().mutates(crossed, child)
    }

    /// The next generation, of the same size: for each slot, two parents are
    /// selected from the unchanged population, crossed and mutated, and the
    /// child is made from the result. The figures are those of the population
    /// given.
    pub fn evolve<I: Individual>(&self, rng: &mut StdRng, population: &[I]) -> (r: (Vec<I>, Statistics))
        requires
            countable(population@.len() as int),
            forall|i: int| 0 <= i < population@.len() ==>
                (#[trigger] population@[i]).genome_view().len() == population@[0].genome_view().len(),
        ensures
            r.0@.len() == population@.len(),
            forall|i: int| 0 <= i < r.0@.len() ==>
                (#[trigger] r.0@[i]).genome_view().len() == population@[0].genome_view().len(),
            forall|i: int| 0 <= i < r.0@.len() ==>
                self.breeds(genomes(population@), fitnesses(population@), (#[trigger] r.0@[i]).genome_view()),
            r.1.describes(fitnesses(population@)),
            r.1.min_fitness * ONE <= r.1.avg_fitness <= r.1.max_fitness * ONE,
    {
        let ghost len = population@[0].genome_view().len();
        let ghost parents = genomes(population@);
        let ghost f = fitnesses(population@);
        let n = population.len();
        let mut next: Vec<I> = Vec::new();
        let mut i: usize = 0;
        while i < n
            invariant
                n == population@.len(),
                countable(n as int),
                len == population@[0].genome_view().len(),
                forall|k: int| 0 <= k < n ==> (#[trigger] population@[k]).genome_view().len() == len,
                0 <= i <= n,
                next@.len() == i,
                forall|k: int| 0 <= k < i ==> (#[trigger] next@[k]).genome_view().len() == len,
                parents == genomes(population@),
                f == fitnesses(population@),
                forall|k: int| 0 <= k < i ==> self.breeds(parents, f, (#[trigger] next@[k]).genome_view()),
            decreases n - i,
        {
            let a = self.selection_method.select(rng, population);
            let b = self.selection_method.select(rng, population);
            let parent_a = population[a].chromosome();
            let parent_b = population[b].chromosome();
            let mut child = self.crossover_method.crossover(rng, parent_a, parent_b);
            let ghost crossed = child@;
            self.mutation_method.mutate(rng, &mut child);
            let ghost bred = child@;
            let member = I::create(child);
            assert(parents[a as int] == parent_a@ && parents[b as int] == parent_b@);
            assert(self.crossover().crosses(parents[a as int], parents[b as int], crossed));
            assert(self.mutation().mutates(crossed, bred));
            assert(self.breeds(parents, f, member.genome_view()));
            next.push(member);
            i += 1;
        }
        let stats = Statistics::new(population);
        (next, stats)
    }
}

} // verus!
