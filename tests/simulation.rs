use evo_flock::{Config, Simulation, ONE, TURN};
use rand::rngs::StdRng;
use rand::SeedableRng;

fn short_config(max_generation: usize) -> Config {
    let mut config = Config::default();
    config.simulation.max_generation = max_generation;
    config
}

#[test]
fn test_default_toml() {
    let config = Config::default();
    assert_eq!(config.world.num_animals, 40);
    assert_eq!(config.world.num_foods, 60);
    assert_eq!(config.eye.cells, 10);
    assert_eq!(config.simulation.max_generation, 2000);
}

#[test]
fn new_simulation_fills_the_world() {
    let mut rng = StdRng::seed_from_u64(0);
    let sim = Simulation::random(&mut rng, Config::default());
    assert_eq!(sim.age(), 0);
    assert_eq!(sim.world().animals().len(), 40);
    assert_eq!(sim.world().foods().len(), 60);
    for animal in sim.world().animals() {
        let p = animal.position();
        assert!(p.x >= 0 && (p.x as i64) < ONE && p.y >= 0 && (p.y as i64) < ONE);
        assert!(animal.rotation() >= 0 && animal.rotation() < TURN);
        assert_eq!(animal.hunger(), 0);
    }
}

#[test]
fn step_reports_only_at_the_generation_boundary() {
    let mut rng = StdRng::seed_from_u64(1);
    let mut sim = Simulation::random(&mut rng, short_config(3));
    for age in 1..=3 {
        assert!(sim.step(&mut rng).is_none());
        assert_eq!(sim.age(), age);
    }
    let stats = sim.step(&mut rng).expect("a generation ends after its last step");
    assert_eq!(sim.age(), 0);
    assert!(stats.min_fitness as u64 * ONE as u64 <= stats.avg_fitness);
    assert!(stats.avg_fitness <= stats.max_fitness as u64 * ONE as u64);
    assert_eq!(sim.world().animals().len(), 40);
    assert!(sim.world().animals().iter().all(|a| a.hunger() == 0));
}

#[test]
fn fast_forward_runs_one_generation() {
    let mut rng = StdRng::seed_from_u64(2);
    let mut sim = Simulation::random(&mut rng, short_config(5));
    sim.step(&mut rng);
    let stats = sim.fast_forward(&mut rng);
    assert_eq!(sim.age(), 0);
    assert!(stats.best_index < 40);
    assert!(stats.min_fitness <= stats.max_fitness);
    assert_eq!(sim.world().foods().len(), 60);
}

#[test]
fn speeds_stay_within_bounds() {
    let mut rng = StdRng::seed_from_u64(6);
    let config = short_config(50);
    let mut sim = Simulation::random(&mut rng, config);
    for _ in 0..20 {
        sim.step(&mut rng);
        for animal in sim.world().animals() {
            assert!(animal.speed() >= config.simulation.speed_min);
            assert!(animal.speed() <= config.simulation.speed_max);
        }
    }
}

#[test]
fn same_seed_same_run() {
    let run = |seed: u64| {
        let mut rng = StdRng::seed_from_u64(seed);
        let mut sim = Simulation::random(&mut rng, short_config(4));
        let stats = sim.fast_forward(&mut rng);
        let positions: Vec<(i32, i32)> =
            sim.world().animals().iter().map(|a| (a.position().x, a.position().y)).collect();
        (stats.min_fitness, stats.max_fitness, stats.avg_fitness, positions)
    };
    assert_eq!(run(8), run(8));
}
