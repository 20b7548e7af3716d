//! A creature seen by the genetic algorithm: its brain's genome and the
//! number of meals as fitness.

use crate::creature::{brain_sizes, brain_topology, Creature};
use crate::genetic::{Chromosome, Individual};
use crate::network::{network_params, param_count, shaped, sizes, Network};
use vstd::prelude::*;

verus! {

pub struct CreatureIndividual {
    chromosome: Chromosome,
    fitness: u32,
}

impl CreatureIndividual {
    /// An individual with the given genome and fitness.
    pub fn new(chromosome: Chromosome, fitness: u32) -> (r: CreatureIndividual)
        ensures
            r.genes_of() == chromosome@,
            r.fitness_of() == fitness,
    {
        CreatureIndividual { chromosome, fitness }
    }

    /// The creature's genome, with its meals as fitness.
    pub fn from_creature(creature: &Creature) -> (r: CreatureIndividual)
        ensures
            r.genes_of() == network_params(creature.brain@),
            r.fitness_of() == creature.eat,
    {
        CreatureIndividual {
            chromosome: Chromosome::from_vec(creature.brain.get_params()),
            fitness: creature.eat,
        }
    }

    /// The creature brain that has this genome.
    pub fn into_brain(&self) -> (r: Network)
        requires
            self.genes_of().len() == param_count(brain_sizes()),
        ensures
            shaped(r@, brain_sizes()),
            network_params(r@) == self.genes_of(),
    {
        let topology = brain_topology();
        assert(sizes(topology@).len() == topology@.len());
        let layers = topology.as_slice();
        assert(layers@ == topology@);
        Network::from_params(layers, self.chromosome.duplicate().into_vec())
    }
}

impl Individual for CreatureIndividual {
    closed spec fn fitness_of(&self) -> u32 {
        self.fitness
    }

    closed spec fn genes_of(&self) -> Seq<i32> {
        self.chromosome@
    }

    fn fitness(&self) -> (r: u32) {
        self.fitness
    }

    fn chromosome(&self) -> (r: &Chromosome) {
        &self.chromosome
    }

    fn create(chromosome: Chromosome) -> (r: CreatureIndividual) {
        CreatureIndividual { chromosome, fitness: 0 }
    }
}

} // verus!
