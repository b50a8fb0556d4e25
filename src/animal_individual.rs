//! Animals as members of the genetic algorithm's population.

use vstd::prelude::*;
use rand::rngs::StdRng;
use crate::animal::{Animal, brain_genes};
use crate::config::Config;
use crate::ga::{Chromosome, Individual};

verus! {

/// An animal reduced to what evolution needs: the food it ate and its genome.
#[derive(Debug)]
pub struct AnimalIndividual {
    fitness: u32,
    chromosome: Chromosome,
}

impl AnimalIndividual {
    /// A member that ate `fitness` food and carries `chromosome`.
    pub fn new(fitness: u32, chromosome: Chromosome) -> (r: AnimalIndividual)
        ensures
            r.fitness_view() == fitness,
            r.genome_view() == chromosome@,
    {
        AnimalIndividual { fitness, chromosome }
    }

    pub fn from_animal(animal: &Animal) -> (r: AnimalIndividual)
        ensures
            r.fitness_view() == animal.hunger_view(),
            r.genome_view() == animal.brain_view().genome(),
    {
        AnimalIndividual { fitness: animal.hunger(), chromosome: animal.as_chromosome() }
    }

    /// A new animal with this genome, at a random place and heading.
    pub fn into_animal(self, rng: &mut StdRng, settings: Config) -> (r: Animal)
        requires
            settings.valid(),
            self.genome_view().len() == brain_genes(settings.eye.cells as int),
        ensures
            r.wf(),
            r.eye_view().range_view() == settings.eye.fov_range,
            r.eye_view().angle_view() == settings.eye.fov_angle,
            r.eye_view().cells_view() == settings.eye.cells,
            r.brain_view().genome() == self.genome_view(),
            r.speed_view() == settings.animal.speed,
            r.hunger_view() == 0,
            r.position_view().drawn(),
    {
        Animal::from_chromosome(rng, settings, self.chromosome)
    }
}

impl Individual for AnimalIndividual {
    closed spec fn fitness_view(&self) -> u32 {
        self.fitness
    }

    closed spec fn genome_view(&self) -> Seq<i32> {
        self.chromosome@
    }

    /// A newborn has eaten nothing yet.
    fn create(chromosome: Chromosome) -> (r: Self) {
        AnimalIndividual { fitness: 0, chromosome }
    }

    fn fitness(&self) -> (r: u32) {
        self.fitness
    }

    fn chromosome(&self) -> (r: &Chromosome) {
        &self.chromosome
    }
}

} // verus!
