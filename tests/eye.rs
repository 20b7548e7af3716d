use evolution_sim::eye::Eye;
use evolution_sim::fixed::{HALF_PI, ONE, PI};
use evolution_sim::food::{Food, Point};

fn fx(v: f32) -> i64 {
    (v as f64 * ONE as f64).round() as i64
}

fn food(x: f32, y: f32) -> Food {
    Food::new(Point::new(fx(x), fx(y)))
}

fn human_readable(vision: &[i32]) -> String {
    vision
        .iter()
        .map(|cell| {
            let v = *cell as f64 / ONE as f64;
            if v >= 0.7 {
                "#"
            } else if v >= 0.3 {
                "+"
            } else if v > 0.0 {
                "."
            } else {
                " "
            }
        })
        .collect::<Vec<&str>>()
        .join("")
}

#[test]
fn food_at_distance_zero_adds_one() {
    let eye = Eye::new(fx(10.0), fx(4.0), 13);
    let vision = eye.process_vision(Point::new(fx(5.0), fx(5.0)), 0, &vec![food(5.0, 5.0)]);
    let mut expected = vec![0; 13];
    expected[6] = ONE as i32;
    assert_eq!(vision, expected);
}

#[test]
fn food_beyond_range_adds_nothing() {
    let eye = Eye::new(fx(10.0), fx(4.0), 13);
    let vision = eye.process_vision(Point::new(fx(5.0), fx(5.0)), 0, &vec![food(5.0, 16.0)]);
    assert_eq!(vision, vec![0; 13]);
}

#[test]
fn food_on_the_edges_of_the_field_of_view() {
    let eye = Eye::new(fx(10.0), 2 * HALF_PI, 13);
    let observer = Point::new(fx(5.0), fx(5.0));
    let left = eye.process_vision(observer, 0, &vec![food(0.0, 5.0)]);
    let mut expected = vec![0; 13];
    expected[12] = ONE as i32 / 2;
    assert_eq!(left, expected);
    let right = eye.process_vision(observer, 0, &vec![food(10.0, 5.0)]);
    let mut expected = vec![0; 13];
    expected[0] = ONE as i32 / 2;
    assert_eq!(right, expected);
}

#[test]
fn food_behind_is_not_seen() {
    let eye = Eye::new(fx(10.0), HALF_PI, 13);
    let vision = eye.process_vision(Point::new(fx(5.0), fx(5.0)), 0, &vec![food(5.0, 0.0)]);
    assert_eq!(vision, vec![0; 13]);
}

#[test]
fn energies_accumulate_in_a_cell() {
    let eye = Eye::new(fx(10.0), fx(4.0), 13);
    let foods = vec![food(5.0, 5.0), food(5.0, 5.0), food(5.0, 10.0)];
    let vision = eye.process_vision(Point::new(fx(5.0), fx(5.0)), 0, &foods);
    assert_eq!(vision[6], 2 * ONE as i32 + ONE as i32 / 2);
}

#[test]
fn vision_is_independent_of_food_order() {
    let eye = Eye::new(fx(10.0), fx(5.0), 9);
    let observer = Point::new(fx(5.0), fx(5.0));
    let foods = vec![food(1.0, 2.0), food(7.0, 9.0), food(5.5, 8.0), food(9.0, 1.0)];
    let mut reversed = foods.clone();
    reversed.reverse();
    assert_eq!(
        eye.process_vision(observer, fx(0.3), &foods),
        eye.process_vision(observer, fx(0.3), &reversed)
    );
}

#[test]
fn heading_turns_the_view() {
    let eye = Eye::new(fx(10.0), fx(1.0), 5);
    let observer = Point::new(fx(5.0), fx(5.0));
    let foods = vec![food(5.0, 0.0)];
    assert_eq!(human_readable(&eye.process_vision(observer, 0, &foods)), "     ");
    assert_eq!(human_readable(&eye.process_vision(observer, PI, &foods)), "  +  ");
    assert_eq!(human_readable(&eye.process_vision(observer, -PI, &foods)), "  +  ");
    assert_eq!(human_readable(&eye.process_vision(observer, PI + 2 * 3 * PI, &foods)), "  +  ");
}

fn fov_case(fov_angle: f32, expected_vision: &str) -> Option<String> {
    let eye = Eye::new(fx(10.0), fx(fov_angle), 13);
    let foods = vec![
        food(0.0, 0.0),
        food(0.0, 3.33),
        food(0.0, 6.66),
        food(0.0, 10.0),
        food(10.0, 0.0),
        food(10.0, 3.33),
        food(10.0, 6.66),
        food(10.0, 10.0),
    ];
    let rotation = fx(3.0 * std::f32::consts::FRAC_PI_2);
    let vision = eye.process_vision(Point::new(fx(5.0), fx(5.0)), rotation, &foods);
    let actual = human_readable(&vision);
    if actual == expected_vision {
        None
    } else {
        Some(format!("fov {}: {:?} against {:?}", fov_angle, actual, expected_vision))
    }
}

#[test]
fn fov_angles_test() {
    let pi = std::f32::consts::PI;
    // Half pi and three halves of pi are left out: there some food lies
    // exactly on the edge of the field of view, where rounding decides.
    let failures: Vec<String> = [
        fov_case(0.25 * pi, " +         + "),
        fov_case(0.75 * pi, "  . +   + .  "),
        fov_case(1.00 * pi, "   . + + .   "),
        fov_case(1.25 * pi, "   . + + .   "),
        fov_case(1.75 * pi, ".   .+ +.   ."),
        fov_case(2.00 * pi, "+.  .+ +.  .+"),
    ]
    .into_iter()
    .flatten()
    .collect();
    assert!(failures.is_empty(), "{:#?}", failures);
}

#[test]
fn default_eye() {
    let eye = Eye::default();
    assert_eq!(eye.cells(), 5);
}

#[test]
fn food_inside_the_range_near_its_edge_adds_energy() {
    let eye = Eye::new(14_829_105, 2 * 823_549, 13);
    let observer = Point::new(100, 100);
    let vision = eye.process_vision(observer, 0, &vec![Food::new(Point::new(90, 110))]);
    assert!(vision[12] > 0, "{:?}", vision);
    assert!(vision[..12].iter().all(|v| *v == 0), "{:?}", vision);
}

#[test]
fn fov_cases_with_food_on_the_edge() {
    // Here some food lies exactly on the edge of the field of view; these are
    // the cells this fixed-point sensor gives.
    let pi = std::f32::consts::PI;
    assert_eq!(fov_case(0.50 * pi, "   +     +   "), None);
    assert_eq!(fov_case(1.50 * pi, ".   .+ +.   ."), None);
}
