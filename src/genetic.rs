//! A genetic algorithm over flat genomes: fitness-proportionate selection,
//! uniform crossover and random mutation, as pluggable strategies.

use crate::fixed::ONE;
use crate::random::{choose_weighted, gen_ratio, unit_fraction, weight_total, Weighted};
use rand_chacha::ChaCha8Rng;
use vstd::prelude::*;

verus! {

/// A genome: the ordered genes of one individual.
#[derive(Debug)]
pub struct Chromosome {
    genes: Vec<i32>,
}

impl View for Chromosome {
    type V = Seq<i32>;

    closed spec fn view(&self) -> Seq<i32> {
        self.genes@
    }
}

impl Chromosome {
    /// The chromosome holding these genes, in order.
    pub fn from_vec(genes: Vec<i32>) -> (r: Chromosome)
        ensures
            r@ == genes@,
    {
        Chromosome { genes }
    }

    /// The genes, in order.
    pub fn into_vec(self) -> (r: Vec<i32>)
        ensures
            r@ == self@,
    {
        self.genes
    }

    pub fn len(&self) -> (r: usize)
        ensures
            r == self@.len(),
    {
        self.genes.len()
    }

    /// The genes, in order, as a slice.
    pub fn iter(&self) -> (r: &[i32])
        ensures
            r@ == self@,
    {
        self.genes.as_slice()
    }

    /// The gene at `index`.
    pub fn index(&self, index: usize) -> (r: i32)
        requires
            index < self@.len(),
        ensures
            r == self@[index as int],
    {
        self.genes[index]
    }

    /// Replaces the gene at `index`.
    pub fn set(&mut self, index: usize, gene: i32)
        requires
            index < old(self)@.len(),
        ensures
            final(self)@ == old(self)@.update(index as int, gene),
    {
        self.genes.set(index, gene);
    }

    /// A chromosome with the same genes.
    pub fn duplicate(&self) -> (r: Chromosome)
        ensures
            r@ == self@,
    {
        let genes = self.genes.clone();
        assert(genes@ =~= self.genes@);
        Chromosome { genes }
    }
}

/// A member of the population: a fitness and a chromosome.
pub trait Individual: Sized {
    spec fn fitness_of(&self) -> u32;

    spec fn genes_of(&self) -> Seq<i32>;

    fn fitness(&self) -> (r: u32)
        ensures
            r == self.fitness_of(),
    ;

    fn chromosome(&self) -> (r: &Chromosome)
        ensures
            r@ == self.genes_of(),
    ;

    fn create(chromosome: Chromosome) -> (r: Self)
        ensures
            r.genes_of() == chromosome@,
            r.fitness_of() == 0,
    ;
}

/// Sum of the fitnesses of a population.
pub open spec fn fitness_total<I: Individual>(population: Seq<I>) -> int
    decreases population.len(),
{
    if population.len() == 0 {
        0
    } else {
        fitness_total(population.drop_last()) + population.last().fitness_of()
    }
}

/// Some individual has a fitness above zero.
pub open spec fn any_fit<I: Individual>(population: Seq<I>) -> bool {
    exists|k: int| 0 <= k < population.len() && (#[trigger] population[k]).fitness_of() > 0
}

/// Chooses the index of one parent in a population.
pub trait SelectionMethod {
    fn select<I: Individual>(&self, rng: &mut ChaCha8Rng, population: &Vec<I>) -> (r: usize)
        requires
            population@.len() > 0,
            population@.len() <= u32::MAX,
            fitness_total(population@) <= u32::MAX,
        ensures
            r < population@.len(),
            any_fit(population@) ==> population@[r as int].fitness_of() > 0,
    ;
}

/// Roulette-wheel selection: each individual is picked with chance
/// proportional to its fitness. When every fitness is zero, each is picked
/// with the same chance.
#[derive(Clone, Copy, Debug)]
pub struct RouletteWheelSelection;

impl SelectionMethod for RouletteWheelSelection {
    fn select<I: Individual>(&self, rng: &mut ChaCha8Rng, population: &Vec<I>) -> (r: usize) {
        let n = population.len();
        let mut items: Vec<Weighted> = Vec::new();
        let mut flat: Vec<Weighted> = Vec::new();
        let mut i: usize = 0;
        while i < n
            invariant
                n == population@.len(),
                n <= u32::MAX,
                i <= n,
                items@.len() == i,
                flat@.len() == i,
                forall|k: int|
                    0 <= k < i ==> (#[trigger] items@[k]).index == k && items@[k].weight
                        == population@[k].fitness_of(),
                forall|k: int|
                    0 <= k < i ==> (#[trigger] flat@[k]).index == k && flat@[k].weight == 1,
                weight_total(items@) == fitness_total(population@.take(i as int)),
                weight_total(flat@) == i,
            decreases n - i,
        {
            let f = population[i].fitness();
            let ghost (before, before_flat) = (items@, flat@);
            items.push(Weighted { index: i, weight: f });
            flat.push(Weighted { index: i, weight: 1 });
            assert(items@.drop_last() =~= before);
            assert(flat@.drop_last() =~= before_flat);
            assert(population@.take(i + 1).drop_last() =~= population@.take(i as int));
            i = i + 1;
        }
        assert(population@.take(n as int) =~= population@);
        proof {
            if any_fit(population@) {
                let k = choose|k: int|
                    0 <= k < population@.len() && (#[trigger] population@[k]).fitness_of() > 0;
                assert(items@[k].weight > 0);
            }
        }
        match choose_weighted(rng, &items) {
            Some(r) => r,
            None => {
                assert(flat@[0].weight > 0);
                match choose_weighted(rng, &flat) {
                    Some(r) => r,
                    None => 0,
                }
            },
        }
    }
}

/// Builds a child chromosome from two parents of the same length.
pub trait CrossoverMethod {
    fn crossover(&self, rng: &mut ChaCha8Rng, parent_a: &Chromosome, parent_b: &Chromosome) -> (r:
        Chromosome)
        requires
            parent_a@.len() == parent_b@.len(),
        ensures
            r@.len() == parent_a@.len(),
            forall|k: int|
                0 <= k < r@.len() ==> #[trigger] r@[k] == parent_a@[k] || r@[k] == parent_b@[k],
    ;
}

/// Uniform crossover: each gene comes from either parent with equal chance.
#[derive(Clone, Copy, Debug)]
pub struct UniformCrossover;

impl UniformCrossover {
    /// The child that takes gene `k` from `parent_a` where `from_a[k]` holds
    /// and from `parent_b` elsewhere.
    pub fn cross_by(parent_a: &Chromosome, parent_b: &Chromosome, from_a: &Vec<bool>) -> (r:
        Chromosome)
        requires
            parent_a@.len() == parent_b@.len(),
            from_a@.len() == parent_a@.len(),
        ensures
            r@.len() == parent_a@.len(),
            forall|k: int|
                0 <= k < r@.len() ==> #[trigger] r@[k] == if from_a@[k] {
                    parent_a@[k]
                } else {
                    parent_b@[k]
                },
    {
        let n = parent_a.len();
        let mut genes: Vec<i32> = Vec::new();
        let mut k: usize = 0;
        while k < n
            invariant
                n == parent_a@.len() == parent_b@.len() == from_a@.len(),
                k <= n,
                genes@.len() == k,
                forall|q: int|
                    0 <= q < k ==> #[trigger] genes@[q] == if from_a@[q] {
                        parent_a@[q]
                    } else {
                        parent_b@[q]
                    },
            decreases n - k,
        {
            let g = if from_a[k] {
                parent_a.index(k)
            } else {
                parent_b.index(k)
            };
            genes.push(g);
            k = k + 1;
        }
        Chromosome { genes }
    }
}

impl CrossoverMethod for UniformCrossover {
    fn crossover(&self, rng: &mut ChaCha8Rng, parent_a: &Chromosome, parent_b: &Chromosome) -> (r:
        Chromosome) {
        let n = parent_a.len();
        let mut from_a: Vec<bool> = Vec::new();
        let mut k: usize = 0;
        while k < n
            invariant
                k <= n,
                from_a@.len() == k,
            decreases n - k,
        {
            from_a.push(gen_ratio(rng, 1, 2));
            k = k + 1;
        }
        UniformCrossover::cross_by(parent_a, parent_b, &from_a)
    }
}

/// Changes the genes of a child chromosome in place.
pub trait MutationMethod {
    /// The mutation leaves every chromosome as it is.
    spec fn leaves_unchanged(&self) -> bool;

    /// The most a gene moves in one mutation.
    spec fn step_bound(&self) -> int;

    /// One mutation may turn the gene `gene` into `mutated`.
    spec fn may_become(&self, gene: i32, mutated: i32) -> bool;

    fn mutate(&self, rng: &mut ChaCha8Rng, child: &mut Chromosome)
        ensures
            final(child)@.len() == old(child)@.len(),
            self.leaves_unchanged() ==> final(child)@ == old(child)@,
            forall|k: int|
                0 <= k < old(child)@.len() ==> -self.step_bound() <= #[trigger] final(child)@[k]
                    - old(child)@[k] <= self.step_bound(),
            forall|k: int|
                0 <= k < old(child)@.len() ==> self.may_become(
                    old(child)@[k],
                    #[trigger] final(child)@[k],
                ),
    ;
}

/// Random jitter: each gene, with probability `chance`, moves by
/// `coeff * u` up or down with equal chance, `u` uniform in `[0, 1)`; the
/// result is capped to what a gene can hold.
#[derive(Clone, Copy, Debug)]
pub struct GussianMutation {
    chance: u32,
    coeff: u32,
}

/// The gene after one draw: unchanged unless `mutates`; else moved by
/// `coeff * u` (fixed point, truncated) up or down, capped to the range of
/// `i32`.
pub open spec fn mutated_gene(gene: int, coeff: int, mutates: bool, up: bool, u: int) -> int {
    if !mutates {
        gene
    } else {
        let step = coeff * u / (ONE as int);
        let moved = if up {
            gene + step
        } else {
            gene - step
        };
        if moved < i32::MIN {
            i32::MIN as int
        } else if moved > i32::MAX {
            i32::MAX as int
        } else {
            moved
        }
    }
}

impl GussianMutation {
    /// A mutation with probability `chance` (fixed point, at most `ONE`) and
    /// coefficient `coeff` (fixed point).
    pub fn new(chance: u32, coeff: u32) -> (r: GussianMutation)
        requires
            chance <= ONE,
        ensures
            r.chance() == chance,
            r.coeff() == coeff,
    {
        GussianMutation { chance, coeff }
    }

    #[verifier::type_invariant]
    spec fn chance_is_probability(&self) -> bool {
        self.chance <= ONE
    }

    pub closed spec fn chance(&self) -> u32 {
        self.chance
    }

    pub closed spec fn coeff(&self) -> u32 {
        self.coeff
    }

    /// One gene after the draws: whether it mutates, which way, and the
    /// fraction `u` of the coefficient it moves by.
    pub fn mutate_gene(&self, gene: i32, mutates: bool, up: bool, u: i64) -> (r: i32)
        requires
            0 <= u < ONE,
        ensures
            r == mutated_gene(gene as int, self.coeff() as int, mutates, up, u as int),
            -(self.coeff() as int) <= r - gene <= self.coeff(),
    {
        if !mutates {
            return gene;
        }
        assert(0 <= (self.coeff as int) * u <= 0xffff_ffff * ONE) by (nonlinear_arith)
            requires
                0 <= u < ONE,
                self.coeff <= 0xffff_ffff,
        ;
        let step: i64 = (self.coeff as i64) * u / ONE;
        assert(0 <= step <= self.coeff) by (nonlinear_arith)
            requires
                0 <= u < ONE,
                step == (self.coeff as int) * u / (ONE as int),
        ;
        let g = gene as i64;
        let moved: i64 = if up {
            g + step
        } else {
            g - step
        };
        if moved < i32::MIN as i64 {
            i32::MIN
        } else if moved > i32::MAX as i64 {
            i32::MAX
        } else {
            moved as i32
        }
    }
}

impl MutationMethod for GussianMutation {
    open spec fn leaves_unchanged(&self) -> bool {
        self.chance() == 0 || self.coeff() == 0
    }

    open spec fn step_bound(&self) -> int {
        self.coeff() as int
    }

    /// Some draws turn `gene` into `mutated`, and none mutates when the
    /// chance is zero.
    open spec fn may_become(&self, gene: i32, mutated: i32) -> bool {
        exists|mutates: bool, up: bool, u: int|
            0 <= u < ONE && (self.chance() == 0 ==> !mutates) && mutated == #[trigger] mutated_gene(
                gene as int,
                self.coeff() as int,
                mutates,
                up,
                u,
            )
    }

    fn mutate(&self, rng: &mut ChaCha8Rng, child: &mut Chromosome) {
        proof {
            use_type_invariant(self);
        }
        let n = child.genes.len();
        let ghost start = child@;
        let mut k: usize = 0;
        while k < n
            invariant
                n == child@.len() == start.len(),
                k <= n,
                self.chance <= ONE,
                forall|q: int| k <= q < n ==> #[trigger] child@[q] == start[q],
                forall|q: int|
                    0 <= q < k ==> -self.coeff <= #[trigger] child@[q] - start[q] <= self.coeff,
                forall|q: int| 0 <= q < k ==> self.may_become(start[q], #[trigger] child@[q]),
                self.chance == 0 || self.coeff == 0 ==> child@ == start,
            decreases n - k,
        {
            let mutates = gen_ratio(rng, self.chance, ONE as u32);
            let (up, u) = if mutates {
                let up = gen_ratio(rng, 1, 2);
                (up, unit_fraction(rng))
            } else {
                (false, 0)
            };
            let g = self.mutate_gene(child.genes[k], mutates, up, u);
            proof {
                assert(mutated_gene(start[k as int] as int, self.coeff as int, mutates, up, u as int)
                    == g);
                assert(self.may_become(start[k as int], g));
                if self.coeff == 0 {
                    assert(0 * (u as int) / (ONE as int) == 0);
                    assert(g == start[k as int]);
                }
            }
            let ghost before = child@;
            child.genes.set(k, g);
            assert forall|q: int| 0 <= q < k + 1 implies self.may_become(
                start[q],
                #[trigger] child@[q],
            ) by {
                if q < k {
                    assert(child@[q] == before[q]);
                }
            }
            k = k + 1;
        }
        assert(self.chance == 0 || self.coeff == 0 ==> child@ =~= start);
    }
}

/// Every individual's chromosome has the length of the first one's.
pub open spec fn same_length<I: Individual>(population: Seq<I>) -> bool {
    forall|p: int|
        0 <= p < population.len() ==> (#[trigger] population[p]).genes_of().len()
            == population[0].genes_of().len()
}

/// `x` lies within `bound` of `y`.
pub open spec fn within(x: int, y: int, bound: int) -> bool {
    -bound <= x - y <= bound
}

/// `child` was bred from members `a` and `b` (both fit when `fit_only`
/// holds): it has their length, and each of its genes is within `bound` of
/// the same gene of `a` or of `b`.
pub open spec fn bred_from<I: Individual>(
    child: Seq<i32>,
    population: Seq<I>,
    a: int,
    b: int,
    bound: int,
    fit_only: bool,
) -> bool {
    &&& 0 <= a < population.len()
    &&& 0 <= b < population.len()
    &&& fit_only ==> population[a].fitness_of() > 0 && population[b].fitness_of() > 0
    &&& child.len() == population[0].genes_of().len()
    &&& forall|k: int|
        0 <= k < child.len() ==> within(#[trigger] child[k] as int, population[a].genes_of()[k] as int, bound)
            || within(child[k] as int, population[b].genes_of()[k] as int, bound)
}

/// `child` was bred from two members of the population.
pub open spec fn descends<I: Individual>(
    child: Seq<i32>,
    population: Seq<I>,
    bound: int,
    fit_only: bool,
) -> bool {
    exists|a: int, b: int| #[trigger] bred_from(child, population, a, b, bound, fit_only)
}

/// The three strategies of a genetic algorithm.
pub struct GenericAlgorithm<S, C, M> {
    select_method: S,
    crossover_method: C,
    mutation_method: M,
}

impl<S: SelectionMethod, C: CrossoverMethod, M: MutationMethod> GenericAlgorithm<S, C, M> {
    pub fn new(select_method: S, crossover_method: C, mutation_method: M) -> (r: Self)
        ensures
            r.mutation() == mutation_method,
    {
        GenericAlgorithm { select_method, crossover_method, mutation_method }
    }

    pub closed spec fn mutation(&self) -> M {
        self.mutation_method
    }

    /// How far a child's gene may lie from the parent gene it was taken from.
    pub open spec fn drift(&self) -> int {
        if self.mutation().leaves_unchanged() {
            0
        } else {
            self.mutation().step_bound()
        }
    }

    /// One less child than the population has members: for each, two parents
    /// are selected (they may be the same), crossed over, and the child is
    /// mutated. The caller completes the next generation with its elite.
    pub fn evolve<I: Individual>(&self, rng: &mut ChaCha8Rng, population: &Vec<I>) -> (r: Vec<I>)
        requires
            population@.len() > 0,
            population@.len() <= u32::MAX,
            fitness_total(population@) <= u32::MAX,
            same_length(population@),
        ensures
            r@.len() == population@.len() - 1,
            forall|c: int|
                0 <= c < r@.len() ==> descends(
                    (#[trigger] r@[c]).genes_of(),
                    population@,
                    self.drift(),
                    any_fit(population@),
                ),
            forall|c: int| 0 <= c < r@.len() ==> (#[trigger] r@[c]).fitness_of() == 0,
    {
        let ghost pop = population@;
        let ghost fit_only = any_fit(pop);
        let n = population.len();
        let mut children: Vec<I> = Vec::new();
        let mut c: usize = 0;
        while c < n - 1
            invariant
                pop == population@,
                fit_only == any_fit(pop),
                n == pop.len() > 0,
                n <= u32::MAX,
                fitness_total(pop) <= u32::MAX,
                same_length(pop),
                c <= n - 1,
                children@.len() == c,
                forall|q: int|
                    0 <= q < c ==> descends(
                        (#[trigger] children@[q]).genes_of(),
                        pop,
                        self.drift(),
                        fit_only,
                    ),
                forall|q: int| 0 <= q < c ==> (#[trigger] children@[q]).fitness_of() == 0,
            decreases n - 1 - c,
        {
            let a = self.select_method.select(rng, population);
            let b = self.select_method.select(rng, population);
            let parent_a = population[a].chromosome();
            let parent_b = population[b].chromosome();
            assert(pop[a as int].genes_of().len() == pop[b as int].genes_of().len());
            let mut child = self.crossover_method.crossover(rng, parent_a, parent_b);
            let ghost crossed = child@;
            self.mutation_method.mutate(rng, &mut child);
            proof {
                let g = child@;
                assert forall|k: int| 0 <= k < g.len() implies within(
                    #[trigger] g[k] as int,
                    pop[a as int].genes_of()[k] as int,
                    self.drift(),
                ) || within(g[k] as int, pop[b as int].genes_of()[k] as int, self.drift()) by {
                    assert(crossed[k] == parent_a@[k] || crossed[k] == parent_b@[k]);
                }
                assert(bred_from(g, pop, a as int, b as int, self.drift(), fit_only));
            }
            let ghost before = children@;
            children.push(I::create(child));
            assert forall|q: int| 0 <= q < c + 1 implies descends(
                (#[trigger] children@[q]).genes_of(),
                pop,
                self.drift(),
                fit_only,
            ) by {
                if q < c {
                    assert(children@[q] == before[q]);
                }
            }
            assert forall|q: int| 0 <= q < c + 1 implies (#[trigger] children@[q]).fitness_of()
                == 0 by {
                if q < c {
                    assert(children@[q] == before[q]);
                }
            }
            c = c + 1;
        }
        children
    }
}

} // verus!
