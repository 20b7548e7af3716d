use evolution_sim::creature::{brain_topology, Creature, MAX_EAT, MOUTH_POSITION};
use evolution_sim::fixed::{cos, mul_fixed, sin, HALF_PI, ONE};
use evolution_sim::food::{Food, Point};
use evolution_sim::network::Network;
use rand::SeedableRng;
use rand_chacha::ChaCha8Rng;

fn still_brain() -> Network {
    Network::from_params(&brain_topology(), vec![0; 76])
}

#[test]
fn straight_line_when_the_brain_is_still() {
    let mut rng = ChaCha8Rng::seed_from_u64(9);
    let (width, height) = (200 * ONE, 150 * ONE);
    let heading = HALF_PI / 3;
    let speed = 3 * ONE;
    let start = Point::new(190 * ONE, 20 * ONE);
    let mut creature = Creature::new(start, heading, speed, &mut rng, Some(still_brain()));
    let foods = vec![Food::new(Point::new(170 * ONE, 10 * ONE))];
    let k: i64 = 10;
    for _ in 0..k {
        creature.move_for_foods(&foods, width, height);
        assert_eq!(creature.rotation, heading);
        assert_eq!(creature.speed, speed);
    }
    let step_x = mul_fixed(speed, sin(heading));
    let step_y = -mul_fixed(speed, cos(heading));
    assert_eq!(creature.position.x, (start.x + k * step_x).rem_euclid(width));
    assert_eq!(creature.position.y, (start.y + k * step_y).rem_euclid(height));
    // Against real trigonometry: ten steps of 3 at thirty degrees.
    let real_x = (190.0 + 30.0 * (std::f64::consts::PI / 6.0).sin()) % 200.0;
    let real_y = (20.0 - 30.0 * (std::f64::consts::PI / 6.0).cos()).rem_euclid(150.0);
    assert!((creature.position.x as f64 / ONE as f64 - real_x).abs() < 0.1);
    assert!((creature.position.y as f64 / ONE as f64 - real_y).abs() < 0.1);
    // The creature went past the right edge and came back on the left.
    assert!(creature.position.x < start.x);
}

#[test]
fn turns_and_speed_are_limited() {
    let mut rng = ChaCha8Rng::seed_from_u64(2);
    let mut creature =
        Creature::new(Point::new(50 * ONE, 50 * ONE), 0, 5 * ONE, &mut rng, Some(still_brain()));
    creature.move_body(&vec![100 * ONE as i32, 100 * ONE as i32], 100 * ONE, 100 * ONE);
    assert_eq!(creature.rotation, 2_196_132);
    assert_eq!(creature.speed, 7 * ONE);
    creature.move_body(&vec![0, 100 * ONE as i32], 100 * ONE, 100 * ONE);
    creature.move_body(&vec![0, 100 * ONE as i32], 100 * ONE, 100 * ONE);
    assert_eq!(creature.speed, 10 * ONE);
    creature.move_body(&vec![0, -100 * ONE as i32], 100 * ONE, 100 * ONE);
    assert_eq!(creature.speed, 8 * ONE);
}

#[test]
fn eats_food_at_its_mouth() {
    let mut rng = ChaCha8Rng::seed_from_u64(4);
    let mut creature =
        Creature::new(Point::new(100 * ONE, 100 * ONE), 0, ONE, &mut rng, Some(still_brain()));
    let at_mouth = Food::new(Point::new(100 * ONE, 100 * ONE - MOUTH_POSITION));
    let far = Food::new(Point::new(300 * ONE, 300 * ONE));
    assert!(!creature.eat(&far));
    assert_eq!(creature.eat, 0);
    assert!(creature.eat(&at_mouth));
    assert!(creature.eat(&at_mouth));
    assert_eq!(creature.eat, 2);
    assert_eq!(creature.color_intensity(), 2 * ONE / MAX_EAT as i64);
}

#[test]
fn random_brain_when_none_is_given() {
    let mut rng = ChaCha8Rng::seed_from_u64(4);
    let creature = Creature::new(Point::new(ONE, ONE), 0, ONE, &mut rng, None);
    let params = creature.brain.get_params();
    assert_eq!(params.len(), 76);
    assert!(params.iter().any(|p| *p != 0));
}

#[test]
fn heading_is_not_wrapped() {
    let mut rng = ChaCha8Rng::seed_from_u64(12);
    let start = 3 * evolution_sim::fixed::PI;
    let mut creature =
        Creature::new(Point::new(50 * ONE, 50 * ONE), start, 5 * ONE, &mut rng, Some(still_brain()));
    assert_eq!(creature.rotation, start);
    creature.move_body(&vec![100 * ONE as i32, 0], 100 * ONE, 100 * ONE);
    assert_eq!(creature.rotation, start + 2_196_132);
    // Three half turns and a bit point like a half turn and a bit.
    let mut other =
        Creature::new(Point::new(50 * ONE, 50 * ONE), evolution_sim::fixed::PI, 5 * ONE, &mut rng, Some(still_brain()));
    other.move_body(&vec![100 * ONE as i32, 0], 100 * ONE, 100 * ONE);
    assert!((other.position.x - creature.position.x).abs() <= 2);
    assert!((other.position.y - creature.position.y).abs() <= 2);
}
