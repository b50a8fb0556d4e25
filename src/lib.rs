//! An evolving flock: agents sense food through a segmented eye, steer with a
//! small feed-forward network, move under flocking forces and are bred by a
//! genetic algorithm that rewards the food they ate.
//!
//! All quantities are fixed-point integers (see [`fixed`]) and angles are
//! counted in [`angle::TURN`] units per full turn, so every stage is exact and
//! reproducible under a seeded random source.

pub mod fixed;
pub mod angle;
pub mod random;
pub mod network;
pub mod ga;
pub mod config;
pub mod food;
pub mod eye;
pub mod animal;
pub mod animal_individual;
pub mod world;
pub mod simulation;
pub mod swarm;

pub use fixed::ONE;
pub use angle::TURN;
pub use network::{LayerTopology, Network};
pub use ga::{
    Chromosome, CrossoverMethod, GaussianMutation, GeneticAlgorithm, Individual, MutationMethod,
    RouletteWheelSelection, SelectionMethod, Statistics, UniformCrossover,
};
pub use config::{AnimalConfig, Config, EyeConfig, SimulationConfig, WorldConfig};
pub use food::{Food, Point};
pub use eye::Eye;
pub use animal::Animal;
pub use animal_individual::AnimalIndividual;
pub use world::{Vector2, World};
pub use simulation::Simulation;
pub use swarm::Swarm;
