use evo_flock::{Config, Eye, Food, Point, Simulation, Vector2, ONE, TURN};
use rand::rngs::StdRng;
use rand::SeedableRng;

const UNIT: f64 = ONE as f64;

fn fx(x: f64) -> i32 {
    (x * UNIT).round() as i32
}

fn units(turns: f64) -> i64 {
    (turns * TURN as f64).round() as i64
}

fn render(vision: &[i64]) -> String {
    vision
        .iter()
        .map(|&cell| {
            if cell >= fx(0.7) as i64 {
                '#'
            } else if cell >= fx(0.3) as i64 {
                '+'
            } else if cell > 0 {
                '.'
            } else {
                ' '
            }
        })
        .collect()
}

fn look(fov_range: f64, fov_turns: f64, x: f64, y: f64, rotation_turns: f64, foods: &[(f64, f64)]) -> String {
    let eye = Eye::new(fx(fov_range), units(fov_turns) as i32, 13);
    let foods: Vec<Food> = foods.iter().map(|&(fx_, fy)| Food::new(Point::new(fx(fx_), fx(fy)))).collect();
    let rotation = units(rotation_turns).rem_euclid(TURN);
    render(&eye.calc_vision(Point::new(fx(x), fx(y)), rotation, &foods))
}

#[test]
fn eye_sees_food_ahead_in_the_central_cell() {
    // Facing a quarter turn (towards -x), the food at the left edge is straight ahead.
    assert_eq!(look(1.0, 1.0, 0.5, 0.5, 0.25, &[(0.0, 0.5)]), "      +      ");
}

#[test]
fn eye_rotation_moves_the_lit_cell() {
    let cases = [
        (0.0, "         +   "),
        (0.125, "        +    "),
        (0.25, "      +      "),
        (0.375, "    +        "),
        (0.5, "   +         "),
        (0.625, " +           "),
        (0.75, "            +"),
        (0.875, "           + "),
        (1.0, "         +   "),
        (1.125, "        +    "),
        (1.25, "      +      "),
    ];
    for (rotation, expected) in cases {
        assert_eq!(look(1.0, 1.0, 0.5, 0.5, rotation, &[(0.0, 0.5)]), expected, "rotation {}", rotation);
    }
}

#[test]
fn eye_range_is_exclusive() {
    // The food is half a unit behind the eye, which faces it.
    let food = [(0.5, 0.0)];
    assert_eq!(look(1.0, 0.25, 0.5, 0.5, 0.5, &food), "      +      ");
    assert_eq!(look(0.8, 0.25, 0.5, 0.5, 0.5, &food), "      +      ");
    assert_eq!(look(0.6, 0.25, 0.5, 0.5, 0.5, &food), "      .      ");
    assert_eq!(look(0.5, 0.25, 0.5, 0.5, 0.5, &food), "             ");
    assert_eq!(look(0.3, 0.25, 0.5, 0.5, 0.5, &food), "             ");
}

#[test]
fn eye_sees_food_on_the_far_edge_of_the_world() {
    // The food lies at y = 1.0, half a unit straight ahead.
    let food = [(0.5, 1.0)];
    assert_eq!(look(1.0, 0.25, 0.5, 0.5, 0.0, &food), "      +      ");
    assert_eq!(look(0.9, 0.25, 0.5, 0.5, 0.0, &food), "      +      ");
    assert_eq!(look(0.8, 0.25, 0.5, 0.5, 0.0, &food), "      +      ");
    assert_eq!(look(0.7, 0.25, 0.5, 0.5, 0.0, &food), "      .      ");
    assert_eq!(look(0.6, 0.25, 0.5, 0.5, 0.0, &food), "      .      ");
    for range in [0.5, 0.4, 0.3, 0.2, 0.1] {
        assert_eq!(look(range, 0.25, 0.5, 0.5, 0.0, &food), "             ");
    }
}

#[test]
fn eye_skips_food_outside_the_field_of_view() {
    // Facing +y with a quarter-turn field of view, food straight behind is unseen.
    assert_eq!(look(1.0, 0.25, 0.5, 0.5, 0.0, &[(0.5, 0.1)]), "             ");
}

#[test]
fn eye_sums_food_in_one_cell() {
    let eye = Eye::new(ONE as i32, (TURN / 4) as i32, 1);
    let foods = vec![Food::new(Point::new(fx(0.5), fx(0.75))), Food::new(Point::new(fx(0.5), fx(0.75)))];
    let vision = eye.calc_vision(Point::new(fx(0.5), fx(0.5)), 0, &foods);
    assert_eq!(vision, vec![2 * (ONE - ONE / 4)]);
}

#[test]
fn empty_world_is_dark() {
    let eye = Eye::default();
    assert_eq!(eye.cells(), 10);
    assert_eq!(eye.calc_vision(Point::new(0, 0), 0, &[]), vec![0; 10]);
}

#[test]
fn test_basics() {
    let v1 = Point::new(fx(1.0), 0);
    let v2 = Point::new(0, fx(1.0));
    let v3 = Point::new(v1.x + v2.x, v1.y + v2.y);
    assert_eq!(v3, Point::new(fx(1.0), fx(1.0)));
}

fn lone_config() -> Config {
    let mut config = Config::default();
    config.world.num_animals = 1;
    config.world.num_foods = 5;
    config
}

#[test]
fn lone_animal_feels_no_flock() {
    let mut rng = StdRng::seed_from_u64(4);
    let sim = Simulation::random(&mut rng, lone_config());
    let world = sim.world();
    assert_eq!(world.animals().len(), 1);
    assert_eq!(world.calc_coherence(0), Vector2 { x: 0, y: 0 });
    assert_eq!(world.calc_separation(0), Vector2 { x: 0, y: 0 });
    assert_eq!(world.calc_alignment(0), Vector2 { x: 0, y: 0 });
}

#[test]
fn flocking_forces_of_two_animals_point_at_each_other() {
    let mut config = Config::default();
    config.world.num_animals = 2;
    let mut rng = StdRng::seed_from_u64(9);
    let sim = Simulation::random(&mut rng, config);
    let world = sim.world();
    let a = world.animals()[0].position();
    let b = world.animals()[1].position();
    let c = world.calc_coherence(0);
    assert_eq!(c.x, ((b.x as i64 - a.x as i64) as f64 / 100.0).floor() as i64);
    assert_eq!(c.y, ((b.y as i64 - a.y as i64) as f64 / 100.0).floor() as i64);
}
