//! The resolved parameters of a simulation, in fixed point (see [`crate::fixed`])
//! and angle units (see [`crate::angle`]).

use vstd::prelude::*;
use crate::fixed::ONE;
use crate::angle::EIGHTH_TURN;
use crate::animal::brain_genes;

verus! {

#[derive(Clone, Copy, Debug)]
pub struct SimulationConfig {
    pub speed_max: i32,
    pub speed_min: i32,
    pub speed_accel: i32,
    /// Largest turn per step, in angle units.
    pub rotation_accel: i32,
    /// Chance that a gene mutates, out of `ONE`.
    pub mutation_chance: u32,
    pub mutation_weight: u32,
    /// Steps in one generation.
    pub max_generation: usize,
}

#[derive(Clone, Copy, Debug)]
pub struct WorldConfig {
    pub num_animals: usize,
    pub num_foods: usize,
}

#[derive(Clone, Copy, Debug)]
pub struct AnimalConfig {
    /// Speed of a newly made animal.
    pub speed: i32,
}

#[derive(Clone, Copy, Debug)]
pub struct EyeConfig {
    pub fov_range: i32,
    /// Width of the field of view, in angle units.
    pub fov_angle: i32,
    pub cells: usize,
}

#[derive(Clone, Copy, Debug)]
pub struct Config {
    pub simulation: SimulationConfig,
    pub eye: EyeConfig,
    pub world: WorldConfig,
    pub animal: AnimalConfig,
}

impl EyeConfig {
    pub open spec fn valid(&self) -> bool {
        &&& self.fov_range > 0
        &&& self.fov_angle > 0
        &&& 0 < self.cells
    }
}

impl Config {
    /// Geometry is positive, the brain's genome can be held in memory, speeds
    /// are not negative with the minimum below the maximum, accelerations are
    /// not negative, the mutation chance is a probability, the generation
    /// length leaves room to count one more step, and the population is
    /// non-empty and small enough for its total fitness to fit a `u64`.
    pub open spec fn valid(&self) -> bool {
        &&& self.eye.valid()
        &&& brain_genes(self.eye.cells as int) <= usize::MAX
        &&& 0 <= self.simulation.speed_min <= self.simulation.speed_max
        &&& 0 <= self.simulation.speed_accel
        &&& 0 <= self.simulation.rotation_accel
        &&& self.simulation.mutation_chance <= ONE
        &&& self.simulation.max_generation < usize::MAX
        &&& 0 < self.world.num_animals <= u32::MAX
        &&& self.world.num_foods <= 0x100_0000_0000
        &&& 0 <= self.animal.speed
    }
}

impl Default for SimulationConfig {
    /// Speeds between 0.0001 and 0.0025 of the world per step, speed change up
    /// to 0.05 and turns up to an eighth of a turn per step, a 1% mutation
    /// chance with weight 0.3, generations of 2000 steps.
    fn default() -> (r: Self)
        ensures
            r.speed_max == 2621 && r.speed_min == 105 && r.speed_accel == 52429,
            r.rotation_accel == EIGHTH_TURN,
            r.mutation_chance == 10486 && r.mutation_weight == 314573,
            r.max_generation == 2000,
    {
        SimulationConfig {
            speed_max: 2621,
            speed_min: 105,
            speed_accel: 52429,
            rotation_accel: EIGHTH_TURN as i32,
            mutation_chance: 10486,
            mutation_weight: 314573,
            max_generation: 2000,
        }
    }
}

impl Default for WorldConfig {
    fn default() -> (r: Self)
        ensures
            r.num_animals == 40 && r.num_foods == 60,
    {
        WorldConfig { num_animals: 40, num_foods: 60 }
    }
}

impl Default for AnimalConfig {
    /// 0.002 of the world per step.
    fn default() -> (r: Self)
        ensures
            r.speed == 2097,
    {
        AnimalConfig { speed: 2097 }
    }
}

impl Default for EyeConfig {
    /// Half the world's width of range, about 0.39 of a turn (π²/4 radians)
    /// of view, ten cells.
    fn default() -> (r: Self)
        ensures
            r.fov_range == 524288 && r.fov_angle == 25736 && r.cells == 10,
    {
        EyeConfig { fov_range: 524288, fov_angle: 25736, cells: 10 }
    }
}

impl Default for Config {
    fn default() -> (r: Self)
        ensures
            r.valid(),
            r.simulation.max_generation == 2000,
            r.world.num_animals == 40 && r.world.num_foods == 60,
            r.eye.cells == 10,
    {
        Config {
            simulation: SimulationConfig::default(),
            eye: EyeConfig::default(),
            world: WorldConfig::default(),
            animal: AnimalConfig::default(),
        }
    }
}

} // verus!
