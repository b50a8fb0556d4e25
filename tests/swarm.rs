use evo_flock::{Point, Swarm, Vector2, ONE};
use rand::rngs::StdRng;
use rand::SeedableRng;

#[test]
fn inertia_rises_with_the_spread_of_fitness() {
    assert_eq!(Swarm::calc_inertia(ONE as u64, 0), 419430);
    assert_eq!(Swarm::calc_inertia(ONE as u64, ONE as u64), 734003);
    assert_eq!(Swarm::calc_inertia(2 * ONE as u64, ONE as u64), 419430 + 314573 / 2);
}

#[test]
fn inertia_with_zero_best_fitness_is_defined() {
    assert_eq!(Swarm::calc_inertia(0, 0), 419430);
    assert_eq!(Swarm::calc_inertia(0, ONE as u64), 734003);
}

#[test]
fn pull_scales_by_one_and_a_half() {
    let v = Vector2 { x: ONE, y: -ONE / 2 };
    assert_eq!(Swarm::pull(ONE, v), Vector2 { x: 3 * ONE / 2, y: -3 * ONE / 4 });
    assert_eq!(Swarm::pull(-ONE, v), Vector2 { x: -3 * ONE / 2, y: 3 * ONE / 4 });
    assert_eq!(Swarm::pull(0, v), Vector2 { x: 0, y: 0 });
}

#[test]
fn random_pulls_stay_within_their_weight() {
    let mut rng = StdRng::seed_from_u64(12);
    let current = Point::new(ONE as i32 / 2, ONE as i32 / 4);
    let best = Point::new(ONE as i32 / 4, ONE as i32 / 2);
    let mut seen = std::collections::BTreeSet::new();
    for _ in 0..50 {
        let s = Swarm::calc_social(&mut rng, best, current);
        assert!(s.x.abs() <= 3 * ONE / 4 + 1 && s.y.abs() <= 3 * ONE / 8 + 1);
        let c = Swarm::calc_cognition(&mut rng, best, current);
        assert!(c.x.abs() <= 3 * ONE / 8 + 1 && c.y.abs() <= 3 * ONE / 8 + 1);
        seen.insert(s.x);
    }
    assert!(seen.len() > 1);
}
