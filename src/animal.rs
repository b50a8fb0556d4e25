//! An animal: an eye, a brain, a place, a heading, a speed and the food it ate.

use vstd::prelude::*;
use rand::rngs::StdRng;
use crate::fixed::ONE;
use crate::angle::{TURN, sin_spec, cos_spec, sin_fx, cos_fx};
use crate::fixed::div_floor;
use crate::config::Config;
use crate::eye::Eye;
use crate::food::Point;
use crate::ga::Chromosome;
use crate::network::{LayerTopology, Network, genome_len, sizes_of, layer_offset, layer_genes};
use crate::random::draw_range;

verus! {

/// Layer sizes of the brain of an animal whose eye has `cells` cells: the
/// cells in, a hidden layer twice as wide, and speed and turn out.
pub open spec fn brain_sizes(cells: int) -> Seq<usize> {
    seq![cells as usize, (2 * cells) as usize, 2usize]
}

/// Genes in the brain of an animal whose eye has `cells` cells: each hidden
/// neuron has a bias and a weight per cell, each output neuron a bias and a
/// weight per hidden neuron.
pub open spec fn brain_genes(cells: int) -> int {
    2 * cells * (1 + cells) + 2 * (1 + 2 * cells)
}

pub proof fn lemma_brain_genes(cells: int)
    requires
        0 < cells,
        brain_genes(cells) <= usize::MAX,
    ensures
        genome_len(brain_sizes(cells)) == brain_genes(cells),
        2 * cells < brain_genes(cells),
{
    let s = brain_sizes(cells);
    assert(layer_offset(s, 0) == 0);
    assert(layer_offset(s, 1) == layer_offset(s, 0) + layer_genes(s, 0));
    assert(layer_offset(s, 2) == layer_offset(s, 1) + layer_genes(s, 1));
    assert(2 * cells <= 2 * cells * (1 + cells)) by (nonlinear_arith)
        requires
            0 < cells,
    ;
    assert(s[1] == 2 * cells);
    assert(s[0] == cells);
}

/// The distance an animal covers in one step, before flocking: its speed along
/// its heading (the forward axis `(0, 1)` turned by `rotation`).
pub open spec fn velocity_spec(speed: int, rotation: int) -> (int, int) {
    ((-(speed * sin_spec(rotation))) / (ONE as int), (speed * cos_spec(rotation)) / (ONE as int))
}

pub fn velocity(speed: i32, rotation: i64) -> (r: (i64, i64))
    requires
        0 <= speed,
        0 <= rotation < TURN,
    ensures
        (r.0 as int, r.1 as int) == velocity_spec(speed as int, rotation as int),
        -0x8000_0000 <= r.0 <= 0x8000_0000,
        -0x8000_0000 <= r.1 <= 0x8000_0000,
{
    let s = sin_fx(rotation);
    let c = cos_fx(rotation);
    let sp = speed as i64;
    assert(-0x8000_0000 * ONE <= sp * s <= 0x8000_0000 * ONE && -0x8000_0000 * ONE <= sp * c <= 0x8000_0000 * ONE) by (nonlinear_arith)
        requires
            0 <= sp <= 0x8000_0000,
            -ONE <= s <= ONE,
            -ONE <= c <= ONE,
    ;
    let x = div_floor(-(sp * s) as i128, ONE as i128);
    let y = div_floor((sp * c) as i128, ONE as i128);
    assert(-0x8000_0000 <= x <= 0x8000_0000 && -0x8000_0000 <= y <= 0x8000_0000) by (nonlinear_arith)
        requires
            -0x8000_0000 * ONE <= sp * s <= 0x8000_0000 * ONE,
            -0x8000_0000 * ONE <= sp * c <= 0x8000_0000 * ONE,
            x == (-(sp * s)) / (ONE as int),
            y == (sp * c) / (ONE as int),
    ;
    (x as i64, y as i64)
}

pub fn brain_topology(cells: usize) -> (r: Vec<LayerTopology>)
    requires
        0 < cells,
        brain_genes(cells as int) <= usize::MAX,
    ensures
        sizes_of(r@) == brain_sizes(cells as int),
{
    proof {
        lemma_brain_genes(cells as int);
    }
    let r = vec![
        LayerTopology { neurons: cells },
        LayerTopology { neurons: 2 * cells },
        LayerTopology { neurons: 2 },
    ];
    assert(sizes_of(r@) =~= brain_sizes(cells as int));
    r
}

#[derive(Debug)]
pub struct Animal {
    pub(crate) eye: Eye,
    pub(crate) brain: Network,
    pub(crate) position: Point,
    /// Heading, in angle units.
    pub(crate) rotation: i64,
    pub(crate) speed: i32,
    /// Food eaten in this generation.
    pub(crate) hunger: u32,
}

impl Animal {
    pub open(crate) spec fn eye_view(&self) -> Eye {
        self.eye
    }

    pub open(crate) spec fn brain_view(&self) -> Network {
        self.brain
    }

    pub open(crate) spec fn position_view(&self) -> Point {
        self.position
    }

    pub open(crate) spec fn rotation_view(&self) -> int {
        self.rotation as int
    }

    pub open(crate) spec fn speed_view(&self) -> int {
        self.speed as int
    }

    pub open(crate) spec fn hunger_view(&self) -> u32 {
        self.hunger
    }

    /// The brain fits the eye, and place, heading and speed are in range.
    pub open spec fn wf(&self) -> bool {
        &&& self.eye_view().valid()
        &&& self.brain_view().wf()
        &&& self.brain_view().sizes() == brain_sizes(self.eye_view().cells_view())
        &&& self.position_view().in_world()
        &&& 0 <= self.rotation_view() < TURN
        &&& 0 <= self.speed_view()
    }

    /// An animal with a random brain, made as [`Animal::from_chromosome`] makes one.
    pub fn random(rng: &mut StdRng, settings: Config) -> (r: Animal)
        requires
            settings.valid(),
        ensures
            r.wf(),
            r.eye_view().range_view() == settings.eye.fov_range,
            r.eye_view().angle_view() == settings.eye.fov_angle,
            r.eye_view().cells_view() == settings.eye.cells,
            r.speed_view() == settings.animal.speed,
            r.hunger_view() == 0,
            r.position_view().drawn(),
    {
        let eye = Eye::config_new(settings);
        let topology = brain_topology(settings.eye.cells);
        proof {
            lemma_brain_genes(settings.eye.cells as int);
        }
        let brain = Network::random(rng, topology.as_slice());
        Self::new(rng, settings, eye, brain)
    }

    /// An animal at a random place and heading, at the configured speed.
    fn new(rng: &mut StdRng, settings: Config, eye: Eye, brain: Network) -> (r: Animal)
        requires
            settings.valid(),
            eye.valid(),
            brain.wf(),
            brain.sizes() == brain_sizes(eye.cells_view()),
        ensures
            r.wf(),
            r.eye_view() == eye,
            r.brain_view() == brain,
            r.speed_view() == settings.animal.speed,
            r.hunger_view() == 0,
            r.position_view().drawn(),
    {
        let position = Point::random(rng);
        let rotation = draw_range(rng, 0, (TURN - 1) as u64) as i64;
        Animal { eye, brain, position, rotation, speed: settings.animal.speed, hunger: 0 }
    }

    /// The genome of the animal's brain.
    pub fn as_chromosome(&self) -> (r: Chromosome)
        ensures
            r@ == self.brain_view().genome(),
    {
        Chromosome::new(self.brain.weights())
    }

    /// An animal whose brain is built from `chromosome`, at a random place and heading.
    pub fn from_chromosome(rng: &mut StdRng, settings: Config, chromosome: Chromosome) -> (r: Animal)
        requires
            settings.valid(),
            chromosome@.len() == brain_genes(settings.eye.cells as int),
        ensures
            r.wf(),
            r.eye_view().range_view() == settings.eye.fov_range,
            r.eye_view().angle_view() == settings.eye.fov_angle,
            r.eye_view().cells_view() == settings.eye.cells,
            r.brain_view().genome() == chromosome@,
            r.speed_view() == settings.animal.speed,
            r.hunger_view() == 0,
            r.position_view().drawn(),
    {
        let eye = Eye::config_new(settings);
        let topology = brain_topology(settings.eye.cells);
        proof {
            lemma_brain_genes(settings.eye.cells as int);
        }
        let brain = Network::from_weights(topology.as_slice(), chromosome.into_genes());
        Self::new(rng, settings, eye, brain)
    }

    pub fn position(&self) -> (r: Point)
        ensures
            r == self.position_view(),
    {
        self.position
    }

    /// Heading, in angle units.
    pub fn rotation(&self) -> (r: i64)
        ensures
            r == self.rotation_view(),
    {
        self.rotation
    }

    pub fn speed(&self) -> (r: i32)
        ensures
            r == self.speed_view(),
    {
        self.speed
    }

    /// Food eaten in this generation.
    pub fn hunger(&self) -> (r: u32)
        ensures
            r == self.hunger_view(),
    {
        self.hunger
    }
}

} // verus!
