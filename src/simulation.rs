//! The evolution loop: run a world for a fixed number of ticks, then breed
//! the next generation from the creatures' brains, keeping the best brain.

use crate::creature::{brain_sizes, Creature, MAX_EXTENT};
use crate::creature_individual::CreatureIndividual;
use crate::genetic::{
    any_fit, bred_from, descends, fitness_total, within, GenericAlgorithm, GussianMutation,
    Individual, MutationMethod, RouletteWheelSelection, UniformCrossover,
};
use crate::fixed::ONE;
use crate::network::{
    lemma_network_params_len, network_params, network_within, param_count, shaped, Network,
};
use crate::world::{in_margin, World, POPULATION_SIZE};
use rand_chacha::ChaCha8Rng;
use vstd::prelude::*;

verus! {

/// Ticks in one generation.
pub const MAX_GENERATION_AGE: u64 = 3500;

/// Food items in the world.
pub const FOOD_NUMBER: u32 = 20;

/// Chance that a gene mutates: 0.01.
pub const MUTATION_CHANCE: u32 = 10_486;

/// Largest move of a mutated gene: 0.2.
pub const MUTATION_COEFF: u32 = 209_715;

/// Index of the creature that ate the most; the first of them on a tie.
pub open spec fn best_of(cs: Seq<Creature>) -> int
    decreases cs.len(),
{
    if cs.len() <= 1 {
        0
    } else {
        let b = best_of(cs.drop_last());
        if cs.last().eat > cs[b].eat {
            cs.len() - 1
        } else {
            b
        }
    }
}

proof fn lemma_best_of(cs: Seq<Creature>)
    requires
        cs.len() > 0,
    ensures
        0 <= best_of(cs) < cs.len(),
        forall|j: int| 0 <= j < cs.len() ==> (#[trigger] cs[j]).eat <= cs[best_of(cs)].eat,
        forall|j: int| 0 <= j < best_of(cs) ==> (#[trigger] cs[j]).eat < cs[best_of(cs)].eat,
    decreases cs.len(),
{
    if cs.len() > 1 {
        lemma_best_of(cs.drop_last());
        let d = cs.drop_last();
        assert forall|j: int| 0 <= j < cs.len() - 1 implies cs[j] == d[j] by {}
    }
}

/// The genome and meals of each creature, in order.
pub fn extract(creatures: &Vec<Creature>) -> (r: Vec<CreatureIndividual>)
    ensures
        r@.len() == creatures@.len(),
        forall|i: int|
            0 <= i < r@.len() ==> (#[trigger] r@[i]).genes_of() == network_params(
                creatures@[i].brain@,
            ) && r@[i].fitness_of() == creatures@[i].eat,
{
    let mut population: Vec<CreatureIndividual> = Vec::new();
    let mut i: usize = 0;
    while i < creatures.len()
        invariant
            i <= creatures@.len(),
            population@.len() == i,
            forall|q: int|
                0 <= q < i ==> (#[trigger] population@[q]).genes_of() == network_params(
                    creatures@[q].brain@,
                ) && population@[q].fitness_of() == creatures@[q].eat,
        decreases creatures@.len() - i,
    {
        population.push(CreatureIndividual::from_creature(&creatures[i]));
        i = i + 1;
    }
    population
}

/// Index of the creature that ate the most, the first of them on a tie.
pub fn best_creature(creatures: &Vec<Creature>) -> (r: usize)
    requires
        creatures@.len() > 0,
    ensures
        r == best_of(creatures@),
{
    let mut best: usize = 0;
    let mut i: usize = 1;
    while i < creatures.len()
        invariant
            1 <= i <= creatures@.len(),
            best == best_of(creatures@.take(i as int)),
            best < i,
        decreases creatures@.len() - i,
    {
        proof {
            let t = creatures@.take(i + 1);
            assert(t.drop_last() =~= creatures@.take(i as int));
            lemma_best_of(creatures@.take(i as int));
        }
        if creatures[i].eat > creatures[best].eat {
            best = i;
        }
        i = i + 1;
    }
    assert(creatures@.take(i as int) =~= creatures@);
    best
}

/// Smallest, largest and total fitness of a population.
pub fn fitness_summary(population: &Vec<CreatureIndividual>) -> (r: (u32, u32, u64))
    requires
        population@.len() > 0,
        population@.len() <= u32::MAX,
    ensures
        exists|i: int| 0 <= i < population@.len() && (#[trigger] population@[i]).fitness_of() == r.0,
        exists|i: int| 0 <= i < population@.len() && (#[trigger] population@[i]).fitness_of() == r.1,
        forall|i: int|
            0 <= i < population@.len() ==> r.0 <= (#[trigger] population@[i]).fitness_of() <= r.1,
        r.2 == fitness_total(population@),
{
    let mut min = population[0].fitness();
    let mut max = min;
    let mut total: u64 = 0;
    let mut i: usize = 0;
    while i < population.len()
        invariant
            population@.len() <= u32::MAX,
            i <= population@.len(),
            exists|k: int| 0 <= k < population@.len() && (#[trigger] population@[k]).fitness_of() == min,
            exists|k: int| 0 <= k < population@.len() && (#[trigger] population@[k]).fitness_of() == max,
            forall|k: int| 0 <= k < i ==> min <= (#[trigger] population@[k]).fitness_of() <= max,
            min <= population@[0].fitness_of() <= max,
            total == fitness_total(population@.take(i as int)),
            total <= i * 0xffff_ffff,
        decreases population@.len() - i,
    {
        let f = population[i].fitness();
        assert(population@.take(i + 1).drop_last() =~= population@.take(i as int));
        if f < min {
            min = f;
        }
        if f > max {
            max = f;
        }
        assert((i + 1) * 0xffff_ffff <= 0xffff_ffff * 0xffff_ffff) by (nonlinear_arith)
            requires
                i < 0xffff_ffff,
        ;
        total = total + f as u64;
        i = i + 1;
    }
    assert(population@.take(i as int) =~= population@);
    (min, max, total)
}

proof fn lemma_fitness_bound(population: Seq<CreatureIndividual>, bound: int)
    requires
        forall|i: int| 0 <= i < population.len() ==> (#[trigger] population[i]).fitness_of() <= bound,
    ensures
        fitness_total(population) <= population.len() * bound,
    decreases population.len(),
{
    if population.len() > 0 {
        let d = population.drop_last();
        assert forall|i: int| 0 <= i < d.len() implies (#[trigger] d[i]).fitness_of() <= bound by {
            assert(d[i] == population[i]);
        }
        lemma_fitness_bound(d, bound);
        assert(d.len() * bound + bound == population.len() * bound) by (nonlinear_arith)
            requires
                d.len() + 1 == population.len(),
        ;
    }
}

/// Some creature ate.
pub open spec fn any_ate(cs: Seq<Creature>) -> bool {
    exists|k: int| 0 <= k < cs.len() && (#[trigger] cs[k]).eat > 0
}

/// `genome` was bred from creatures `a` and `b` (both of which ate, when any
/// creature did): it has a brain's genome length, and each gene is within
/// `bound` of the same gene of `a`'s brain or of `b`'s.
pub open spec fn bred_from_creatures(genome: Seq<i32>, cs: Seq<Creature>, a: int, b: int, bound: int) -> bool {
    &&& 0 <= a < cs.len()
    &&& 0 <= b < cs.len()
    &&& any_ate(cs) ==> cs[a].eat > 0 && cs[b].eat > 0
    &&& genome.len() == param_count(brain_sizes())
    &&& forall|k: int|
        0 <= k < genome.len() ==> within(
            #[trigger] genome[k] as int,
            network_params(cs[a].brain@)[k] as int,
            bound,
        ) || within(genome[k] as int, network_params(cs[b].brain@)[k] as int, bound)
}

/// `genome` was bred from two creatures of the generation.
pub open spec fn bred_from_generation(genome: Seq<i32>, cs: Seq<Creature>, bound: int) -> bool {
    exists|a: int, b: int| #[trigger] bred_from_creatures(genome, cs, a, b, bound)
}

/// `new` is the generation after `old`: a fresh world of the same size and
/// population and `FOOD_NUMBER` food items in the interior, no meal eaten;
/// its creatures but the last have brains bred from `old`'s creatures, and
/// the last has the brain of `old`'s best creature, unchanged.
pub open spec fn next_generation(new: World, old: World) -> bool {
    &&& new.age == 0
    &&& new.width == old.width
    &&& new.height == old.height
    &&& new.creatures@.len() == old.creatures@.len()
    &&& new.foods@.len() == FOOD_NUMBER
    &&& forall|k: int|
        0 <= k < new.foods@.len() ==> in_margin(
            (#[trigger] new.foods@[k]).position,
            new.width as int,
            new.height as int,
        )
    &&& forall|i: int| 0 <= i < new.creatures@.len() ==> (#[trigger] new.creatures@[i]).eat == 0
    &&& new.creatures@.last().brain@ == old.creatures@[best_of(old.creatures@)].brain@
    &&& forall|i: int|
        0 <= i < new.creatures@.len() - 1 ==> bred_from_generation(
            network_params((#[trigger] new.creatures@[i]).brain@),
            old.creatures@,
            MUTATION_COEFF as int,
        )
}

pub struct Simulation {
    pub world: World,
    pub genetic_algorithm: GenericAlgorithm<
        RouletteWheelSelection,
        UniformCrossover,
        GussianMutation,
    >,
    pub width: i64,
    pub height: i64,
    pub evolution_epoch: u64,
    pub rng: ChaCha8Rng,
}

impl Simulation {
    /// The world has the simulation's size, its full population and food,
    /// and is within its generation's ticks; the mutation is the one set up
    /// at construction.
    pub open spec fn wf(&self) -> bool {
        &&& self.world.wf()
        &&& self.world.width == self.width
        &&& self.world.height == self.height
        &&& self.world.creatures@.len() == POPULATION_SIZE
        &&& self.world.foods@.len() == FOOD_NUMBER
        &&& self.world.age <= MAX_GENERATION_AGE
        &&& self.genetic_algorithm.mutation().chance() == MUTATION_CHANCE
        &&& self.genetic_algorithm.mutation().coeff() == MUTATION_COEFF
    }

    /// A first generation of `POPULATION_SIZE` creatures with random brains
    /// and `FOOD_NUMBER` food items, on a world of the given size.
    pub fn new(width: i64, height: i64, rng: ChaCha8Rng) -> (r: Simulation)
        requires
            0 < width <= MAX_EXTENT,
            0 < height <= MAX_EXTENT,
        ensures
            r.wf(),
            r.width == width,
            r.height == height,
            r.evolution_epoch == 0,
            r.world.age == 0,
            forall|k: int|
                0 <= k < r.world.foods@.len() ==> in_margin(
                    (#[trigger] r.world.foods@[k]).position,
                    width as int,
                    height as int,
                ),
            forall|i: int|
                0 <= i < POPULATION_SIZE ==> network_within(
                    (#[trigger] r.world.creatures@[i]).brain@,
                    ONE as int,
                ) && r.world.creatures@[i].eat == 0,
    {
        let mut rng = rng;
        let world = World::new(width, height, None, FOOD_NUMBER, &mut rng);
        Simulation {
            world,
            genetic_algorithm: GenericAlgorithm::new(
                RouletteWheelSelection,
                UniformCrossover,
                GussianMutation::new(MUTATION_CHANCE, MUTATION_COEFF),
            ),
            width,
            height,
            evolution_epoch: 0,
            rng,
        }
    }

    /// Generations evolved so far.
    pub fn evolution_epoch(&self) -> (r: u64)
        ensures
            r == self.evolution_epoch,
    {
        self.evolution_epoch
    }

    /// Advances the world one tick; once the generation has run all its
    /// ticks, replaces it by the next generation instead, bred from its
    /// creatures, with the best creature's brain carried over unchanged as the
    /// last member.
    pub fn update(&mut self)
        requires
            old(self).wf(),
        ensures
            final(self).wf(),
            final(self).width == old(self).width,
            final(self).height == old(self).height,
            old(self).world.age < MAX_GENERATION_AGE ==> {
                &&& final(self).world.ticked_from(old(self).world)
                &&& final(self).evolution_epoch == old(self).evolution_epoch
            },
            old(self).world.age >= MAX_GENERATION_AGE ==> {
                &&& next_generation(final(self).world, old(self).world)
                &&& old(self).evolution_epoch < u64::MAX ==> final(self).evolution_epoch == old(
                    self,
                ).evolution_epoch + 1
            },
    {
        if self.world.age >= MAX_GENERATION_AGE {
            self.evolve();
            if self.evolution_epoch < u64::MAX {
                self.evolution_epoch = self.evolution_epoch + 1;
            }
        } else {
            self.world.update(&mut self.rng);
        }
    }

    /// Replaces the world by the next generation: the children bred from the
    /// current creatures, and the best creature's brain as it is.
    fn evolve(&mut self)
        requires
            old(self).wf(),
        ensures
            final(self).wf(),
            final(self).width == old(self).width,
            final(self).height == old(self).height,
            final(self).evolution_epoch == old(self).evolution_epoch,
            next_generation(final(self).world, old(self).world),
    {
        let ghost cs = self.world.creatures@;
        let population = extract(&self.world.creatures);
        let best = best_creature(&self.world.creatures);
        proof {
            lemma_best_of(cs);
            let bound = MAX_GENERATION_AGE * FOOD_NUMBER;
            assert forall|i: int| 0 <= i < population@.len() implies (#[trigger] population@[i]).fitness_of()
                <= bound by {
                assert(cs[i].eat <= self.world.age * self.world.foods@.len());
                assert(self.world.age * self.world.foods@.len() <= 70_000) by (nonlinear_arith)
                    requires
                        self.world.age <= 3500,
                        self.world.foods@.len() == 20,
                ;
            }
            lemma_fitness_bound(population@, bound);
            assert forall|p: int| 0 <= p < population@.len() implies (#[trigger] population@[p]).genes_of().len()
                == param_count(brain_sizes()) by {
                assert(cs[p].wf());
                lemma_network_params_len(cs[p].brain@, brain_sizes());
            }
            if any_ate(cs) {
                let k = choose|k: int| 0 <= k < cs.len() && (#[trigger] cs[k]).eat > 0;
                assert(population@[k].fitness_of() > 0);
            }
            if any_fit(population@) {
                let k = choose|k: int|
                    0 <= k < population@.len() && (#[trigger] population@[k]).fitness_of() > 0;
                assert(cs[k].eat > 0);
            }
        }
        let children = self.genetic_algorithm.evolve(&mut self.rng, &population);
        let ghost drift = self.genetic_algorithm.drift();
        assert(drift == MUTATION_COEFF);
        assert forall|c: int| 0 <= c < children@.len() implies (#[trigger] children@[c]).genes_of().len()
            == param_count(brain_sizes()) by {
            assert(descends(children@[c].genes_of(), population@, drift, any_fit(population@)));
            assert(population@[0].genes_of().len() == param_count(brain_sizes()));
        }
        let mut brains: Vec<Network> = Vec::new();
        let mut i: usize = 0;
        while i < children.len()
            invariant
                i <= children@.len(),
                brains@.len() == i,
                children@.len() == POPULATION_SIZE - 1,
                cs.len() == POPULATION_SIZE,
                population@.len() == cs.len(),
                drift == MUTATION_COEFF,
                any_fit(population@) == any_ate(cs),
                forall|p: int|
                    0 <= p < population@.len() ==> (#[trigger] population@[p]).genes_of()
                        == network_params(cs[p].brain@) && population@[p].fitness_of() == cs[p].eat,
                forall|c: int|
                    0 <= c < children@.len() ==> (#[trigger] children@[c]).genes_of().len()
                        == param_count(brain_sizes()) && descends(
                        children@[c].genes_of(),
                        population@,
                        drift,
                        any_fit(population@),
                    ),
                forall|q: int| 0 <= q < i ==> shaped((#[trigger] brains@[q])@, brain_sizes()),
                forall|q: int|
                    0 <= q < i ==> bred_from_generation(
                        network_params((#[trigger] brains@[q])@),
                        cs,
                        MUTATION_COEFF as int,
                    ),
            decreases children@.len() - i,
        {
            let brain = children[i].into_brain();
            proof {
                let child = children@[i as int];
                let (a, b) = choose|a: int, b: int|
                    #[trigger] bred_from(
                        child.genes_of(),
                        population@,
                        a,
                        b,
                        drift,
                        any_fit(population@),
                    );
                assert(bred_from_creatures(network_params(brain@), cs, a, b, MUTATION_COEFF as int));
            }
            brains.push(brain);
            i = i + 1;
        }
        let elite = self.world.creatures[best].brain.duplicate();
        assert(cs[best as int].wf());
        brains.push(elite);
        self.world = World::new(self.width, self.height, Some(brains), FOOD_NUMBER, &mut self.rng);
    }
}

} // verus!
