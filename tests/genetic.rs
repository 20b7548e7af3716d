use evolution_sim::creature_individual::CreatureIndividual;
use evolution_sim::fixed::ONE;
use evolution_sim::genetic::{
    Chromosome, CrossoverMethod, GenericAlgorithm, GussianMutation, Individual, MutationMethod,
    RouletteWheelSelection, SelectionMethod, UniformCrossover,
};
use rand::SeedableRng;
use rand_chacha::ChaCha8Rng;
use std::collections::BTreeMap;

fn fx(v: f32) -> i32 {
    (v as f64 * ONE as f64).round() as i32
}

fn fl(v: i32) -> f64 {
    v as f64 / ONE as f64
}

fn chromosome(genes: &[f32]) -> Chromosome {
    Chromosome::from_vec(genes.iter().map(|g| fx(*g)).collect())
}

fn individual(genes: &[f32]) -> CreatureIndividual {
    let fitness = genes.iter().sum::<f32>().max(0.0) as u32;
    CreatureIndividual::new(chromosome(genes), fitness)
}

fn with_fitness(fitness: u32) -> CreatureIndividual {
    CreatureIndividual::new(Chromosome::from_vec(vec![]), fitness)
}

fn mutated(chance: f32, coeff: f32) -> Vec<i32> {
    let mut rng = ChaCha8Rng::from_seed(Default::default());
    let mut child = chromosome(&[1.0, 2.0, 3.0, 4.0, 5.0]);
    GussianMutation::new(fx(chance) as u32, fx(coeff) as u32).mutate(&mut rng, &mut child);
    child.into_vec()
}

fn assert_close(actual: &[i32], expected: &[f32]) {
    assert_eq!(actual.len(), expected.len());
    for (a, e) in actual.iter().zip(expected.iter()) {
        assert!(
            (fl(*a) - *e as f64).abs() <= 1e-5,
            "{:?} against {:?}",
            actual.iter().map(|v| fl(*v)).collect::<Vec<f64>>(),
            expected
        );
    }
}

#[test]
fn genetic_algorithm() {
    let mut rng = ChaCha8Rng::from_seed(Default::default());
    let ga = GenericAlgorithm::new(
        RouletteWheelSelection,
        UniformCrossover,
        GussianMutation::new(fx(0.5) as u32, fx(2.0) as u32),
    );
    let parents = vec![
        vec![1.0, 1.0, 1.0, 1.0, 1.0],
        vec![1.0, 2.0, 2.0, 1.0, 1.0],
        vec![1.0, 3.0, 1.0, 1.0, 1.0],
        vec![2.0, 3.0, 2.0, 1.0, 1.0],
        vec![1.0, 1.0, 2.0, 3.0, 3.0],
    ];
    let population: Vec<CreatureIndividual> = parents.iter().map(|genes| individual(genes)).collect();
    let children = ga.evolve(&mut rng, &population);
    // One child fewer: the caller adds the elite.
    assert_eq!(children.len(), 4);
    for child in &children {
        let genes = child.chromosome().iter();
        assert_eq!(genes.len(), 5);
        for (k, gene) in genes.iter().enumerate() {
            assert!(parents.iter().any(|p| (fl(*gene) - p[k] as f64).abs() <= 2.0));
        }
    }
    let mut population = population;
    for _ in 0..3 {
        let mut next = ga.evolve(&mut rng, &population);
        let best = population.iter().max_by_key(|i| i.fitness()).unwrap();
        next.push(CreatureIndividual::new(best.chromosome().duplicate(), best.fitness()));
        population = next;
    }
    assert_eq!(population.len(), 5);
}

#[test]
fn uniform_crossover() {
    let mut rng = ChaCha8Rng::from_seed(Default::default());
    let parent_a = Chromosome::from_vec((1..=100).map(|n| n * ONE as i32).collect());
    let parent_b = Chromosome::from_vec((1..=100).map(|n| -n * ONE as i32).collect());
    let child = UniformCrossover.crossover(&mut rng, &parent_a, &parent_b);
    let same_a = child.iter().iter().zip(parent_a.iter()).filter(|(c, p)| c == p).count();
    let same_b = child.iter().iter().zip(parent_b.iter()).filter(|(c, p)| c == p).count();
    assert_eq!(same_a, 51);
    assert_eq!(same_b, 49);
}

#[test]
fn uniform_crossover_is_balanced_over_many_seeds() {
    let parent_a = Chromosome::from_vec((1..=100).collect());
    let parent_b = Chromosome::from_vec((1..=100).map(|n| -n).collect());
    let mut from_a = [0u32; 100];
    for seed in 0..200u64 {
        let mut rng = ChaCha8Rng::seed_from_u64(seed);
        let child = UniformCrossover.crossover(&mut rng, &parent_a, &parent_b);
        for (k, gene) in child.iter().iter().enumerate() {
            assert!(*gene == parent_a.index(k) || *gene == parent_b.index(k));
            if *gene == parent_a.index(k) {
                from_a[k] += 1;
            }
        }
    }
    let total: u32 = from_a.iter().sum();
    assert!(9_000 <= total && total <= 11_000, "{}", total);
    assert!(from_a.iter().all(|n| 60 <= *n && *n <= 140), "{:?}", from_a);
}

#[test]
fn lib_no_change_on_original_chromosome() {
    assert_close(&mutated(0.0, 0.0), &[1.0, 2.0, 3.0, 4.0, 5.0]);
}

#[test]
fn no_change_with_zero_chance_and_nonzero_coeff() {
    assert_close(&mutated(0.0, 2.0), &[1.0, 2.0, 3.0, 4.0, 5.0]);
}

#[test]
fn no_change_with_half_chance_and_zero_coeff() {
    assert_close(&mutated(0.5, 0.0), &[1.0, 2.0, 3.0, 4.0, 5.0]);
}

#[test]
fn slightly_change_on_original_chromosome() {
    assert_close(&mutated(0.5, 2.0), &[1.0, 2.0, 3.8975005, 3.9868004, 5.8504343]);
}

#[test]
fn no_change_with_max_chance_and_zero_coeff() {
    assert_close(&mutated(1.0, 0.0), &[1.0, 2.0, 3.0, 4.0, 5.0]);
}

#[test]
fn entirely_change_on_original_chromosome() {
    assert_close(&mutated(1.0, 2.0), &[-0.8181261, 1.5351684, 3.8975005, 4.19795, 6.4452357]);
}

#[test]
fn mutation_saturates_at_gene_range() {
    let mut rng = ChaCha8Rng::seed_from_u64(3);
    let start = i32::MAX - 10;
    let mut child = Chromosome::from_vec(vec![start; 20]);
    GussianMutation::new(ONE as u32, 1 << 31).mutate(&mut rng, &mut child);
    assert!(child.iter().iter().any(|g| *g == i32::MAX));
    assert!(child.iter().iter().any(|g| *g < start));
    assert!(child.iter().iter().all(|g| *g == i32::MAX || *g < start));
}

#[test]
fn roulette_wheel_selection() {
    let mut rng = ChaCha8Rng::from_seed(Default::default());
    let population = vec![
        with_fitness(3),
        with_fitness(4),
        with_fitness(1),
        with_fitness(2),
    ];
    let mut actual_histogram = BTreeMap::new();
    for _ in 0..1000 {
        let selected = RouletteWheelSelection.select(&mut rng, &population);
        *actual_histogram.entry(population[selected].fitness() as i32).or_insert(0) += 1;
    }
    let count = |fitness: i32| *actual_histogram.get(&fitness).unwrap_or(&0);
    assert_eq!(count(1) + count(2) + count(3) + count(4), 1000);
    assert!(count(4) > count(3), "{:?}", actual_histogram);
    assert!(count(3) > count(2), "{:?}", actual_histogram);
    assert!(count(2) > count(1), "{:?}", actual_histogram);
}

#[test]
fn roulette_wheel_selection_follows_the_stream() {
    // The counts this seed gives for these weights.
    let mut rng = ChaCha8Rng::from_seed(Default::default());
    let population = vec![with_fitness(3), with_fitness(4), with_fitness(1), with_fitness(2)];
    let mut actual_histogram = BTreeMap::new();
    for _ in 0..1000 {
        let selected = RouletteWheelSelection.select(&mut rng, &population);
        *actual_histogram.entry(population[selected].fitness()).or_insert(0) += 1;
    }
    let expected_histogram = BTreeMap::from_iter([(1, 95), (2, 183), (3, 300), (4, 422)]);
    assert_eq!(actual_histogram, expected_histogram);
}

#[test]
fn roulette_wheel_never_picks_zero_fitness() {
    let mut rng = ChaCha8Rng::seed_from_u64(11);
    let population = vec![
        with_fitness(0),
        with_fitness(5),
        with_fitness(0),
    ];
    for _ in 0..200 {
        assert_eq!(RouletteWheelSelection.select(&mut rng, &population), 1);
    }
}

#[test]
fn roulette_wheel_is_uniform_when_all_fitness_is_zero() {
    let mut rng = ChaCha8Rng::seed_from_u64(5);
    let population: Vec<CreatureIndividual> = (0..4).map(|_| with_fitness(0)).collect();
    let mut counts = [0u32; 4];
    for _ in 0..4000 {
        counts[RouletteWheelSelection.select(&mut rng, &population)] += 1;
    }
    assert!(counts.iter().all(|c| 800 <= *c && *c <= 1200), "{:?}", counts);
}

#[test]
fn mutate_gene_moves_by_the_drawn_fraction() {
    let mutation = GussianMutation::new(ONE as u32 / 2, 2 * ONE as u32);
    assert_eq!(mutation.mutate_gene(fx(1.0), false, true, ONE as i64 / 2), fx(1.0));
    assert_eq!(mutation.mutate_gene(fx(1.0), true, true, ONE as i64 / 2), fx(2.0));
    assert_eq!(mutation.mutate_gene(fx(1.0), true, false, ONE as i64 / 4), fx(0.5));
    assert_eq!(mutation.mutate_gene(i32::MAX - 1, true, true, ONE as i64 / 2), i32::MAX);
}

#[test]
fn chromosome_gene_setter() {
    let mut chromosome = chromosome(&[1.0, 2.0, 3.0]);
    chromosome.set(1, fx(-4.0));
    assert_eq!(chromosome.into_vec(), vec![fx(1.0), fx(-4.0), fx(3.0)]);
}

#[test]
fn cross_by_follows_the_choices() {
    let parent_a = chromosome(&[1.0, 2.0, 3.0]);
    let parent_b = chromosome(&[-1.0, -2.0, -3.0]);
    let child = UniformCrossover::cross_by(&parent_a, &parent_b, &vec![true, false, true]);
    assert_eq!(child.into_vec(), vec![fx(1.0), fx(-2.0), fx(3.0)]);
}

fn refit(genes: Chromosome) -> CreatureIndividual {
    let fitness = genes.iter().iter().map(|g| (*g).max(0) as u64).sum::<u64>() / ONE as u64;
    CreatureIndividual::new(genes, fitness as u32)
}

#[test]
fn genetic_algorithm_with_elite_over_many_rounds() {
    let mut rng = ChaCha8Rng::from_seed(Default::default());
    let ga = GenericAlgorithm::new(
        RouletteWheelSelection,
        UniformCrossover,
        GussianMutation::new(fx(0.5) as u32, fx(2.0) as u32),
    );
    let mut population: Vec<CreatureIndividual> = [
        [1.0, 1.0, 1.0, 1.0, 1.0],
        [1.0, 2.0, 2.0, 1.0, 1.0],
        [1.0, 3.0, 1.0, 1.0, 1.0],
        [2.0, 3.0, 2.0, 1.0, 1.0],
        [1.0, 1.0, 2.0, 3.0, 3.0],
    ]
    .iter()
    .map(|genes| refit(chromosome(genes)))
    .collect();
    for _ in 0..100 {
        let children = ga.evolve(&mut rng, &population);
        let mut best = 0;
        for (i, individual) in population.iter().enumerate() {
            if individual.fitness() > population[best].fitness() {
                best = i;
            }
        }
        let elite = population[best].chromosome().duplicate();
        let mut next: Vec<CreatureIndividual> =
            children.iter().map(|c| refit(c.chromosome().duplicate())).collect();
        next.push(refit(elite));
        population = next;
    }
    let actual: Vec<Vec<i32>> =
        population.iter().map(|i| i.chromosome().iter().to_vec()).collect();
    // What this crate gives for the seed; the genes drift upwards, towards
    // fitter chromosomes.
    let expected: Vec<Vec<i32>> = vec![
        vec![29282512, 22156690, 31428214, 12545818, 13591008],
        vec![29649848, 21230288, 30513476, 14097696, 14142206],
        vec![34575548, 20805824, 25906446, 12101134, 16101312],
        vec![33750286, 23342054, 26560398, 11103932, 14142206],
        vec![34575548, 21696874, 26560398, 12401398, 14142206],
    ];
    assert_eq!(actual, expected);
}
