use evolution_sim::fixed::{atan2, cos, isqrt, mul_fixed, sin, HALF_PI, ONE, PI};

fn to_real(v: i64) -> f64 {
    v as f64 / ONE as f64
}

#[test]
fn sine_and_cosine_are_close_to_the_real_ones() {
    for step in -40..=40 {
        let angle = step * PI / 20;
        let a = to_real(angle);
        assert!((to_real(sin(angle)) - a.sin()).abs() < 0.002, "sin {}", a);
        if angle.abs() <= PI {
            assert!((to_real(cos(angle)) - a.cos()).abs() < 0.002, "cos {}", a);
        }
    }
    assert!((sin(HALF_PI) - ONE).abs() <= 1);
    assert_eq!(sin(0), 0);
    assert_eq!(sin(PI), 0);
}

#[test]
fn arctangent_is_close_to_the_real_one() {
    for (y, x) in [(1.0, 1.0), (1.0, -1.0), (-1.0, -1.0), (0.3, 2.0), (-5.0, 0.5), (0.0, -1.0)] {
        let r = atan2((y * ONE as f64) as i128, (x * ONE as f64) as i128);
        assert!((to_real(r) - f64::atan2(y, x)).abs() < 0.006, "atan2({}, {})", y, x);
    }
    assert_eq!(atan2(0, 0), 0);
    assert_eq!(atan2(0, -5), PI);
}

#[test]
fn integer_square_root() {
    assert_eq!(isqrt(0), 0);
    assert_eq!(isqrt(99), 9);
    assert_eq!(isqrt(100), 10);
    assert_eq!(isqrt(u128::MAX), u64::MAX);
}

#[test]
fn fixed_point_product_truncates_toward_zero() {
    assert_eq!(mul_fixed(3 * ONE, ONE / 2), 3 * ONE / 2);
    assert_eq!(mul_fixed(3, ONE / 2), 1);
    assert_eq!(mul_fixed(3, -ONE / 2), -1);
}
