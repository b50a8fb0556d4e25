use evo_flock::{
    AnimalIndividual, Chromosome, CrossoverMethod, GaussianMutation, GeneticAlgorithm, Individual,
    MutationMethod, RouletteWheelSelection, SelectionMethod, Statistics, UniformCrossover, ONE,
};
use rand::rngs::StdRng;
use rand::SeedableRng;
use std::collections::BTreeMap;

const UNIT: i32 = ONE as i32;
const FULL: u32 = ONE as u32;
const HALF: u32 = (ONE / 2) as u32;

fn chromosome(genes: &[i32]) -> Chromosome {
    Chromosome::new(genes.iter().map(|g| g * UNIT).collect())
}

fn mutated(chance: u32, magnitude: u32) -> Vec<i32> {
    let mut rng = StdRng::seed_from_u64(0);
    let mut child = chromosome(&[1, 2, 3, 4, 5]);
    GaussianMutation::new(chance, magnitude).mutate(&mut rng, &mut child);
    child.into_genes()
}

fn unmutated() -> Vec<i32> {
    vec![UNIT, 2 * UNIT, 3 * UNIT, 4 * UNIT, 5 * UNIT]
}

#[test]
fn lib_does_not_change_the_original_chromosome() {
    assert_eq!(mutated(0, 0), unmutated());
}

#[test]
fn lib_does_not_change_the_original_chromosome_given_zero_chance_and_nonzero_coefficient() {
    assert_eq!(mutated(0, FULL), unmutated());
}

#[test]
fn lib_does_not_change_the_original_chromosome_given_half_chance_and_zero_coefficient() {
    assert_eq!(mutated(HALF, 0), unmutated());
}

#[test]
fn slightly_changes_the_original_chromosome() {
    let actual = mutated(HALF, FULL);
    let before = unmutated();
    let changed = actual.iter().zip(before.iter()).filter(|(a, b)| a != b).count();
    assert!(changed > 0);
    for (a, b) in actual.iter().zip(before.iter()) {
        assert!((*a as i64 - *b as i64).abs() <= ONE);
    }
}

#[test]
fn lib_does_not_change_the_original_chromosome_given_max_chance_and_zero_coefficient() {
    assert_eq!(mutated(FULL, 0), unmutated());
}

#[test]
fn entirely_changes_the_original_chromosome() {
    let actual = mutated(FULL, FULL);
    for (a, b) in actual.iter().zip(unmutated().iter()) {
        assert_ne!(a, b);
        assert!((*a as i64 - *b as i64).abs() <= ONE);
    }
}

#[test]
fn mutated_gene_moves_by_the_drawn_fraction() {
    let m = GaussianMutation::new(FULL, FULL);
    assert_eq!(m.mutate_gene(UNIT, false, true, HALF), UNIT + UNIT / 2);
    assert_eq!(m.mutate_gene(UNIT, true, true, HALF), UNIT / 2);
    assert_eq!(m.mutate_gene(UNIT, true, false, HALF), UNIT);
    assert_eq!(m.mutate_gene(i32::MAX, false, true, HALF), i32::MAX);
}

#[test]
fn uniform_crossover() {
    let mut rng = StdRng::seed_from_u64(0);
    let parent_a = Chromosome::new((1..=100).collect());
    let parent_b = Chromosome::new((1..=100).map(|x| -x).collect());
    let child = UniformCrossover.crossover(&mut rng, &parent_a, &parent_b);

    assert_eq!(child.len(), 100);
    let dif_a = child.as_slice().iter().zip(parent_a.as_slice()).filter(|(c, p)| c != p).count();
    let dif_b = child.as_slice().iter().zip(parent_b.as_slice()).filter(|(c, p)| c != p).count();
    assert_eq!(dif_a + dif_b, 100);
    assert!(dif_a >= 35 && dif_a <= 65, "split {} / {}", dif_a, dif_b);
}

#[test]
fn cross_with_takes_each_gene_from_the_chosen_parent() {
    let a = Chromosome::new(vec![1, 2, 3, 4]);
    let b = Chromosome::new(vec![-1, -2, -3, -4]);
    let child = UniformCrossover.cross_with(&[true, false, false, true], &a, &b);
    assert_eq!(child.into_genes(), vec![1, -2, -3, 4]);
}

fn scored(fitness: u32) -> AnimalIndividual {
    AnimalIndividual::new(fitness, Chromosome::new(vec![]))
}

#[test]
fn roulette_parent_selection() {
    let mut rng = StdRng::seed_from_u64(0);
    let population = vec![scored(2), scored(1), scored(4), scored(3)];
    let mut histogram: BTreeMap<u32, i32> = BTreeMap::new();
    for _ in 0..1000 {
        let chosen = RouletteWheelSelection.select(&mut rng, &population);
        *histogram.entry(population[chosen].fitness()).or_insert(0) += 1;
    }
    // Proportional to fitness: about 100, 200, 300 and 400 of 1000.
    for (fitness, count) in histogram.iter() {
        let expected = 100 * *fitness as i32;
        assert!((count - expected).abs() <= 50, "fitness {} chosen {} times", fitness, count);
    }
    assert_eq!(histogram.values().sum::<i32>(), 1000);
}

#[test]
fn roulette_never_picks_a_zero_fitness_member() {
    let mut rng = StdRng::seed_from_u64(7);
    let population = vec![scored(0), scored(5), scored(0)];
    for _ in 0..100 {
        assert_eq!(RouletteWheelSelection.select(&mut rng, &population), 1);
    }
}

#[test]
fn statistics_of_a_population() {
    let population = vec![scored(2), scored(1), scored(4), scored(3), scored(4)];
    let s = Statistics::new(&population);
    assert_eq!(s.min_fitness, 1);
    assert_eq!(s.max_fitness, 4);
    assert_eq!(s.avg_fitness, (14 * ONE / 5) as u64);
    assert_eq!(s.best_index, 2);
    // n·Σf² - (Σf)² = 5·46 - 14² = 34, and √34 / 5 ≈ 1.1662
    assert_eq!(s.fitness_std, 6114196 / 5);
}

#[test]
fn statistics_of_equal_fitness_have_no_spread() {
    let s = Statistics::new(&vec![scored(3), scored(3), scored(3)]);
    assert_eq!((s.min_fitness, s.max_fitness, s.best_index), (3, 3, 0));
    assert_eq!(s.avg_fitness, 3 * ONE as u64);
    assert_eq!(s.fitness_std, 0);
}

#[test]
fn genetic_algorithm() {
    let steps: i32 = 10;
    let mut rng = StdRng::seed_from_u64(0);
    let ga = GeneticAlgorithm::new(
        RouletteWheelSelection,
        UniformCrossover,
        GaussianMutation::new(HALF, HALF),
    );
    let individual = |genes: &[i32]| {
        let c = chromosome(genes);
        let fitness = c.as_slice().iter().map(|g| (*g / UNIT) as u32).sum();
        AnimalIndividual::new(fitness, c)
    };
    let mut population = vec![
        individual(&[0, 0, 0]),
        individual(&[1, 1, 1]),
        individual(&[1, 2, 1]),
        individual(&[1, 2, 4]),
    ];
    let first = Statistics::new(&population);
    assert_eq!((first.min_fitness, first.max_fitness, first.best_index), (0, 7, 3));

    for _ in 0..steps {
        let (next, stats) = ga.evolve(&mut rng, &population);
        assert!(stats.min_fitness as u64 * ONE as u64 <= stats.avg_fitness);
        assert!(stats.avg_fitness <= stats.max_fitness as u64 * ONE as u64);
        population = next;
    }

    assert_eq!(population.len(), 4);
    for member in population.iter() {
        assert_eq!(member.chromosome().len(), 3);
        assert_eq!(member.fitness(), 0);
    }
}

#[test]
fn evolve_keeps_the_population_size() {
    let mut rng = StdRng::seed_from_u64(3);
    let ga = GeneticAlgorithm::new(RouletteWheelSelection, UniformCrossover, GaussianMutation::new(HALF, FULL));
    for n in 1..6u32 {
        let population: Vec<AnimalIndividual> =
            (0..n).map(|i| AnimalIndividual::new(i, chromosome(&[i as i32, 1, 2, 3]))).collect();
        let (next, stats) = ga.evolve(&mut rng, &population);
        assert_eq!(next.len(), n as usize);
        assert_eq!(stats.min_fitness, 0);
        assert_eq!(stats.max_fitness, n - 1);
        assert!(stats.min_fitness as u64 * ONE as u64 <= stats.avg_fitness);
        assert!(stats.avg_fitness <= stats.max_fitness as u64 * ONE as u64);
    }
}
