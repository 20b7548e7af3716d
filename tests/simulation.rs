use evolution_sim::creature_individual::CreatureIndividual;
use evolution_sim::fixed::ONE;
use evolution_sim::simulation::{
    best_creature, extract, fitness_summary, Simulation, FOOD_NUMBER, MAX_GENERATION_AGE,
};
use evolution_sim::world::{World, POPULATION_SIZE};
use evolution_sim::genetic::{Chromosome, Individual};
use rand::SeedableRng;
use rand_chacha::ChaCha8Rng;

#[test]
fn best_brain_survives_the_generation_boundary() {
    let mut sim = Simulation::new(400 * ONE, 300 * ONE, ChaCha8Rng::seed_from_u64(21));
    for _ in 0..MAX_GENERATION_AGE {
        sim.update();
    }
    assert_eq!(sim.world.age, MAX_GENERATION_AGE);
    let best = best_creature(&sim.world.creatures);
    let eaten: Vec<u32> = sim.world.creatures.iter().map(|c| c.eat).collect();
    assert!(eaten.iter().all(|e| *e <= eaten[best]));
    assert!(eaten[..best].iter().all(|e| *e < eaten[best]));
    let elite = sim.world.creatures[best].brain.get_params();
    sim.update();
    assert_eq!(sim.evolution_epoch(), 1);
    assert_eq!(sim.world.age, 0);
    assert_eq!(sim.world.creatures.len(), POPULATION_SIZE);
    assert_eq!(sim.world.creatures.last().unwrap().brain.get_params(), elite);
    assert!(sim.world.creatures.iter().all(|c| c.eat == 0));
}

#[test]
fn world_keeps_its_food() {
    let mut rng = ChaCha8Rng::seed_from_u64(5);
    let mut world = World::new(200 * ONE, 200 * ONE, None, FOOD_NUMBER, &mut rng);
    assert_eq!(world.creatures.len(), POPULATION_SIZE);
    for _ in 0..300 {
        assert!(!world.update(&mut rng));
        assert_eq!(world.foods.len(), FOOD_NUMBER as usize);
    }
    assert_eq!(world.age, 300);
    assert!(world.creatures.iter().all(|c| 0 <= c.position.x && c.position.x < 200 * ONE));
    assert!(world.creatures.iter().all(|c| 0 <= c.position.y && c.position.y < 200 * ONE));
}

#[test]
fn extracts_genomes_and_meals() {
    let mut rng = ChaCha8Rng::seed_from_u64(6);
    let mut world = World::new(100 * ONE, 100 * ONE, None, 3, &mut rng);
    world.creatures[2].eat = 7;
    let population = extract(&world.creatures);
    assert_eq!(population.len(), POPULATION_SIZE);
    assert_eq!(population[2].fitness(), 7);
    assert_eq!(population[0].chromosome().iter(), world.creatures[0].brain.get_params().as_slice());
    let brain = population[4].into_brain();
    assert_eq!(brain.get_params(), world.creatures[4].brain.get_params());
}

#[test]
fn first_best_wins_ties() {
    let mut rng = ChaCha8Rng::seed_from_u64(8);
    let mut world = World::new(100 * ONE, 100 * ONE, None, 3, &mut rng);
    world.creatures[3].eat = 4;
    world.creatures[7].eat = 4;
    assert_eq!(best_creature(&world.creatures), 3);
}

#[test]
fn summary_of_fitness() {
    let population: Vec<CreatureIndividual> = [3, 9, 1, 5]
        .iter()
        .map(|f| CreatureIndividual::new(Chromosome::from_vec(vec![]), *f))
        .collect();
    assert_eq!(fitness_summary(&population), (1, 9, 18));
}
