//! Fixed-point arithmetic and the integer geometry built on it.
//!
//! A real value `v` is held as the integer `v * ONE`; angles are radians held
//! the same way.

use vstd::prelude::*;

verus! {

/// The fixed-point unit: the real value 1.0, as twenty binary places.
pub const ONE: i64 = 1_048_576;

/// Pi radians, rounded to the fixed-point unit.
pub const PI: i64 = 3_294_199;

/// Two pi radians: one full turn.
pub const TWO_PI: i64 = 6_588_398;

/// Half pi radians: a quarter turn.
pub const HALF_PI: i64 = 1_647_099;

/// Second coefficient of the arctangent approximation on [0, 1]
/// (`atan(t) ~ t * pi / 4 + 0.273 * t * (1 - t)`).
pub const ATAN_K: i64 = 286_261;

/// Real division of a fixed-point product by `ONE`, truncated toward zero.
pub open spec fn scale_down(v: int) -> int {
    if v >= 0 {
        v / ONE as int
    } else {
        -((-v) / ONE as int)
    }
}

/// Bhaskara's approximation of `sin(x)` for `0 <= x <= PI`.
pub open spec fn bhaskara(x: int) -> int {
    let y = x * (PI - x);
    (16 * y * ONE) / (5 * PI * PI - 4 * y)
}

/// Fixed-point sine of an angle in `[-2 PI, 2 PI]`.
pub open spec fn sin_spec(x: int) -> int {
    let r = if x > PI {
        x - TWO_PI
    } else if x < -PI {
        x + TWO_PI
    } else {
        x
    };
    if r >= 0 {
        bhaskara(r)
    } else {
        -bhaskara(-r)
    }
}

/// Fixed-point cosine of an angle in `[-3 PI / 2, 3 PI / 2]`.
pub open spec fn cos_spec(x: int) -> int {
    sin_spec(x + HALF_PI)
}

/// Approximation of `atan(a / b)` for `0 <= a <= b`, `b > 0`.
pub open spec fn atan_octant(a: int, b: int) -> int {
    let t = a * ONE / b;
    t * PI / (4 * ONE) + ATAN_K * t * (ONE - t) / (ONE * ONE)
}

pub open spec fn abs(v: int) -> int {
    if v < 0 {
        -v
    } else {
        v
    }
}

/// Fixed-point angle of the point `(x, y)` from the positive x axis,
/// counter-clockwise, in `(-PI, PI]`; zero for the origin.
pub open spec fn atan2_spec(y: int, x: int) -> int {
    let ax = abs(x);
    let ay = abs(y);
    if ax == 0 && ay == 0 {
        0
    } else {
        let r = if ay <= ax {
            atan_octant(ay, ax)
        } else {
            HALF_PI - atan_octant(ax, ay)
        };
        let r2 = if x < 0 {
            PI - r
        } else {
            r
        };
        if y < 0 {
            -r2
        } else {
            r2
        }
    }
}

/// Floor of the square root.
pub open spec fn is_isqrt(n: int, r: int) -> bool {
    0 <= r && r * r <= n < (r + 1) * (r + 1)
}

proof fn lemma_bhaskara_bounds(x: int)
    requires
        0 <= x <= PI,
    ensures
        0 <= bhaskara(x) <= ONE,
{
    let y = x * (PI - x);
    let p = PI as int;
    assert(0 <= y) by (nonlinear_arith)
        requires
            0 <= x <= p,
            y == x * (p - x),
    ;
    assert(4 * y <= p * p) by (nonlinear_arith)
        requires
            y == x * (p - x),
    ;
    let num = 16 * y * ONE;
    let den = 5 * p * p - 4 * y;
    assert(p * p == 10_851_747_051_601);
    assert(den > 0);
    assert(num >= 0) by (nonlinear_arith)
        requires
            y >= 0,
            num == 16 * y * ONE,
    ;
    assert(num <= ONE * den);
    assert(num / den <= ONE) by (nonlinear_arith)
        requires
            num <= ONE * den,
            den > 0,
            num >= 0,
    ;
    assert(num / den >= 0) by (nonlinear_arith)
        requires
            den > 0,
            num >= 0,
    ;
}

proof fn lemma_atan_octant_bounds(a: int, b: int)
    requires
        0 <= a <= b,
        b > 0,
    ensures
        0 <= atan_octant(a, b) <= HALF_PI,
{
    let t = a * ONE / b;
    assert(0 <= t <= ONE) by (nonlinear_arith)
        requires
            0 <= a <= b,
            b > 0,
            t == a * ONE / b,
    ;
    let t1 = t * PI / (4 * ONE);
    assert(0 <= t1 <= 823_550) by (nonlinear_arith)
        requires
            0 <= t <= ONE,
            t1 == t * PI / (4 * ONE),
    ;
    let t2 = ATAN_K * t * (ONE - t) / (ONE * ONE);
    assert(0 <= t2 <= ATAN_K) by (nonlinear_arith)
        requires
            0 <= t <= ONE,
            t2 == ATAN_K * t * (ONE - t) / (ONE * ONE),
    ;
}

/// Fixed-point sine, by Bhaskara's approximation.
pub fn sin(x: i64) -> (r: i64)
    requires
        -TWO_PI <= x <= TWO_PI,
    ensures
        r == sin_spec(x as int),
        -ONE <= r <= ONE,
{
    let r: i64 = if x > PI {
        x - TWO_PI
    } else if x < -PI {
        x + TWO_PI
    } else {
        x
    };
    let a: i64 = if r >= 0 {
        r
    } else {
        -r
    };
    proof {
        lemma_bhaskara_bounds(a as int);
    }
    let a128 = a as i128;
    assert(0 <= (a as int) * (PI - a) <= (PI as int) * (PI as int)) by (nonlinear_arith)
        requires
            0 <= a <= PI,
    ;
    let y: i128 = a128 * (PI as i128 - a128);
    let num: i128 = 16 * y * (ONE as i128);
    let den: i128 = 5 * (PI as i128) * (PI as i128) - 4 * y;
    let b = (num / den) as i64;
    if r >= 0 {
        b
    } else {
        -b
    }
}

/// Fixed-point cosine, as the sine a quarter turn ahead.
pub fn cos(x: i64) -> (r: i64)
    requires
        -PI - HALF_PI <= x <= PI + HALF_PI,
    ensures
        r == cos_spec(x as int),
        -ONE <= r <= ONE,
{
    sin(x + HALF_PI)
}

fn atan_octant_exec(a: u128, b: u128) -> (r: i64)
    requires
        a <= b,
        b > 0,
        b <= u64::MAX,
    ensures
        r == atan_octant(a as int, b as int),
        0 <= r <= HALF_PI,
{
    proof {
        lemma_atan_octant_bounds(a as int, b as int);
    }
    assert(a * (ONE as int) <= b * (ONE as int)) by (nonlinear_arith)
        requires
            a <= b,
    ;
    let t: u128 = a * (ONE as u128) / b;
    assert(t <= ONE) by (nonlinear_arith)
        requires
            a <= b,
            b > 0,
            t == (a as int) * (ONE as int) / (b as int),
    ;
    let t1: u128 = t * (PI as u128) / (4 * (ONE as u128));
    let t2: u128 = (ATAN_K as u128) * t * ((ONE as u128) - t) / ((ONE as u128) * (ONE as u128));
    assert(t2 <= ATAN_K) by (nonlinear_arith)
        requires
            t <= ONE,
            t2 == ATAN_K * t * (ONE - t) / (ONE * ONE),
    ;
    assert(t1 <= PI) by (nonlinear_arith)
        requires
            t <= ONE,
            t1 == t * PI / (4 * ONE),
    ;
    (t1 + t2) as i64
}

/// Fixed-point angle of the point `(x, y)`, as [`atan2_spec`] states it.
pub fn atan2(y: i128, x: i128) -> (r: i64)
    requires
        -u64::MAX <= x <= u64::MAX,
        -u64::MAX <= y <= u64::MAX,
    ensures
        r == atan2_spec(y as int, x as int),
        -PI <= r <= PI,
{
    let ax: u128 = if x < 0 {
        (-x) as u128
    } else {
        x as u128
    };
    let ay: u128 = if y < 0 {
        (-y) as u128
    } else {
        y as u128
    };
    if ax == 0 && ay == 0 {
        return 0;
    }
    let r: i64 = if ay <= ax {
        atan_octant_exec(ay, ax)
    } else {
        HALF_PI - atan_octant_exec(ax, ay)
    };
    let r2: i64 = if x < 0 {
        PI - r
    } else {
        r
    };
    if y < 0 {
        -r2
    } else {
        r2
    }
}

/// Integer square root: the largest `r` with `r * r <= n`.
pub fn isqrt(n: u128) -> (r: u64)
    ensures
        is_isqrt(n as int, r as int),
{
    let mut lo: u128 = 0;
    let mut hi: u128 = 0x1_0000_0000_0000_0000;
    assert(n < hi * hi);
    while hi - lo > 1
        invariant
            lo < hi <= 0x1_0000_0000_0000_0000,
            lo * lo <= n < hi * hi,
        decreases hi - lo,
    {
        let mid: u128 = lo + (hi - lo) / 2;
        assert(mid * mid <= 0xffff_ffff_ffff_ffff * 0xffff_ffff_ffff_ffff) by (nonlinear_arith)
            requires
                mid < 0x1_0000_0000_0000_0000,
        ;
        if mid * mid <= n {
            lo = mid;
        } else {
            hi = mid;
        }
    }
    assert(hi == lo + 1);
    lo as u64
}

/// Fixed-point product `a * b / ONE`, truncated toward zero.
pub fn mul_fixed(a: i64, b: i64) -> (r: i64)
    requires
        -i64::MAX <= a,
        -ONE <= b <= ONE,
    ensures
        r == scale_down(a * b),
        -abs(a as int) <= r <= abs(a as int),
{
    let ghost m = i64::MAX as int;
    assert(-m * ONE <= (a as int) * (b as int) <= m * ONE) by (nonlinear_arith)
        requires
            -ONE <= b <= ONE,
            -m <= a <= m,
    ;
    let p: i128 = (a as i128) * (b as i128);
    assert((p as int) / (ONE as int) <= m) by (nonlinear_arith)
        requires
            p <= m * ONE,
    ;
    assert((-p as int) / (ONE as int) <= m) by (nonlinear_arith)
        requires
            -p <= m * ONE,
    ;
    let ghost aa = abs(a as int);
    assert(-aa * ONE <= p <= aa * ONE) by (nonlinear_arith)
        requires
            -ONE <= b <= ONE,
            aa == (if a < 0 { -a } else { a as int }),
            p == a * b,
    ;
    if p >= 0 {
        assert((p as int) / (ONE as int) <= aa) by (nonlinear_arith)
            requires
                0 <= p <= aa * ONE,
        ;
        (p / (ONE as i128)) as i64
    } else {
        assert((-p as int) / (ONE as int) <= aa) by (nonlinear_arith)
            requires
                0 <= -p <= aa * ONE,
        ;
        -((-p) / (ONE as i128)) as i64
    }
}

} // verus!
