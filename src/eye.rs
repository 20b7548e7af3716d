//! The vision sensor: food within range and field of view, binned by
//! direction into cells, closer food weighing more.

use crate::fixed::{atan2, atan2_spec, isqrt, is_isqrt, ONE, PI, TWO_PI};
use crate::food::{Food, Point};
use crate::random::{wrap, wrap_spec};
use vstd::prelude::*;

verus! {

/// Range of the default sensor.
pub const FOV_RANGE: i64 = 20_971_520;

/// Width of the default sensor's field of view: ninety radians, wider than a
/// full turn, so the default sensor sees all around.
pub const FOV_ANGLE: i64 = 94_371_840;

/// Cells of the default sensor.
pub const CELLS: usize = 5;

/// A vision sensor: how far it sees, how wide (radians, fixed point), and
/// into how many cells it divides its field of view.
pub struct Eye {
    fov_range: i64,
    fov_angle: i64,
    cells: usize,
}

/// An angle brought into `(-2 PI, 2 PI)` by whole turns, keeping its sign.
pub open spec fn reduce_angle(a: int) -> int {
    if a >= 0 {
        a % (TWO_PI as int)
    } else {
        -((-a) % (TWO_PI as int))
    }
}

/// Direction of `food` seen from `position`, measured from the y axis, less
/// the observer's heading, brought into `[-PI, PI]`. The arctangent is the
/// fixed-point approximation of [`atan2_spec`], within about 0.006 radians of
/// the real one, so a food item within that much of a cell edge may fall in
/// the neighbouring cell.
pub open spec fn food_angle(position: Point, rotation: int, food: Point) -> int {
    let a = atan2_spec(-(food.x - position.x), food.y - position.y);
    wrap_spec(a - reduce_angle(rotation), -PI as int, PI as int)
}

pub open spec fn dist_sq(position: Point, food: Point) -> int {
    (food.x - position.x) * (food.x - position.x) + (food.y - position.y) * (food.y - position.y)
}

/// The floor of the distance from `position` to `food`.
pub open spec fn distance(position: Point, food: Point) -> int {
    choose|r: int| is_isqrt(dist_sq(position, food), r)
}

/// Every natural number has an integer square root.
proof fn lemma_isqrt_exists(n: int)
    requires
        n >= 0,
    ensures
        exists|r: int| #[trigger] is_isqrt(n, r),
    decreases n,
{
    if n == 0 {
        assert(is_isqrt(0, 0));
    } else {
        lemma_isqrt_exists(n - 1);
        let r = choose|r: int| #[trigger] is_isqrt(n - 1, r);
        if (r + 1) * (r + 1) <= n {
            assert((r + 1) * (r + 1) == n);
            assert(n < (r + 2) * (r + 2)) by (nonlinear_arith)
                requires
                    0 <= r,
                    (r + 1) * (r + 1) == n,
            ;
            assert(is_isqrt(n, r + 1));
        } else {
            assert(is_isqrt(n, r));
        }
    }
}

/// The floor of the distance to a food item in range is at most the range,
/// and below it when the food lies strictly inside.
proof fn lemma_distance_in_range(position: Point, food: Point, range: int)
    requires
        range > 0,
        dist_sq(position, food) <= range * range,
    ensures
        0 <= distance(position, food) <= range,
        dist_sq(position, food) < range * range ==> distance(position, food) < range,
{
    let dx = food.x - position.x;
    let dy = food.y - position.y;
    assert(dist_sq(position, food) >= 0) by (nonlinear_arith)
        requires
            dist_sq(position, food) == dx * dx + dy * dy,
    ;
    lemma_isqrt_exists(dist_sq(position, food));
    let d = distance(position, food);
    assert(is_isqrt(dist_sq(position, food), d));
    if d > range {
        assert(d * d > range * range) by (nonlinear_arith)
            requires
                d > range > 0,
        ;
    }
    if dist_sq(position, food) < range * range && d >= range {
        assert(d * d >= range * range) by (nonlinear_arith)
            requires
                d >= range > 0,
        ;
    }
}

/// `value` capped to the range of `i32`.
pub open spec fn add_capped(value: int, energy: int) -> i32 {
    if value + energy > i32::MAX {
        i32::MAX
    } else {
        (value + energy) as i32
    }
}

/// The angle less whole turns, keeping its sign: within `(-2 PI, 2 PI)`.
pub fn reduce_turns(a: i64) -> (r: i64)
    ensures
        r == reduce_angle(a as int),
        -TWO_PI < r < TWO_PI,
        -PI <= a <= PI ==> r == a,
{
    if a >= 0 {
        a % TWO_PI
    } else {
        -((-(a as i128)) % (TWO_PI as i128)) as i64
    }
}

impl Eye {
    #[verifier::type_invariant]
    spec fn positive(&self) -> bool {
        self.fov_range > 0 && self.fov_angle > 0 && self.cells > 0
    }

    pub closed spec fn range(&self) -> int {
        self.fov_range as int
    }

    pub closed spec fn angle(&self) -> int {
        self.fov_angle as int
    }

    pub closed spec fn cell_count(&self) -> nat {
        self.cells as nat
    }

    /// A sensor seeing `fov_range` far, `fov_angle` wide, with `cells` cells.
    pub fn new(fov_range: i64, fov_angle: i64, cells: usize) -> (r: Eye)
        requires
            fov_range > 0,
            fov_angle > 0,
            cells > 0,
        ensures
            r.range() == fov_range,
            r.angle() == fov_angle,
            r.cell_count() == cells,
    {
        Eye { fov_range, fov_angle, cells }
    }

    /// How far the sensor sees: above zero.
    pub fn fov_range(&self) -> (r: i64)
        ensures
            r == self.range(),
            r > 0,
    {
        proof {
            use_type_invariant(self);
        }
        self.fov_range
    }

    /// How wide the sensor sees: above zero.
    pub fn fov_angle(&self) -> (r: i64)
        ensures
            r == self.angle(),
            r > 0,
    {
        proof {
            use_type_invariant(self);
        }
        self.fov_angle
    }

    pub fn cells(&self) -> (r: usize)
        ensures
            r == self.cell_count(),
            r > 0,
    {
        proof {
            use_type_invariant(self);
        }
        self.cells
    }

    /// The food lies within range and within the field of view.
    pub open spec fn sees(&self, position: Point, rotation: int, food: Point) -> bool {
        let a = food_angle(position, rotation, food);
        &&& dist_sq(position, food) <= self.range() * self.range()
        &&& -self.angle() <= 2 * a <= self.angle()
    }

    /// The cell of a direction in the field of view: the angle mapped from
    /// `[-angle / 2, angle / 2]` onto `[0, cells)`, truncated, the upper edge
    /// kept in the last cell.
    pub open spec fn cell_of(&self, a: int) -> int {
        let c = (2 * a + self.angle()) * self.cell_count() / (2 * self.angle());
        if c > self.cell_count() - 1 {
            self.cell_count() - 1
        } else {
            c
        }
    }

    /// What a food item adds to its cell: 1 at distance zero, falling
    /// linearly to 0 at the edge of the range, rounded up so that a food item
    /// inside the range adds something.
    pub open spec fn energy(&self, position: Point, food: Point) -> int {
        ((self.range() - distance(position, food)) * ONE + self.range() - 1) / self.range()
    }

    /// The stimulus vector `before` with the food item `food` added.
    pub open spec fn add_food(&self, before: Seq<i32>, position: Point, rotation: int, food: Food) -> Seq<i32> {
        let f = food.position;
        if self.sees(position, rotation, f) {
            let c = self.cell_of(food_angle(position, rotation, f));
            before.update(c, add_capped(before[c] as int, self.energy(position, f)))
        } else {
            before
        }
    }

    /// The stimulus of each cell for the given food items.
    pub open spec fn vision(&self, position: Point, rotation: int, foods: Seq<Food>) -> Seq<i32>
        decreases foods.len(),
    {
        if foods.len() == 0 {
            Seq::new(self.cell_count(), |i: int| 0i32)
        } else {
            self.add_food(
                self.vision(position, rotation, foods.drop_last()),
                position,
                rotation,
                foods.last(),
            )
        }
    }

    proof fn lemma_cell_of(&self, a: int)
        requires
            self.angle() > 0,
            self.cell_count() > 0,
            -self.angle() <= 2 * a <= self.angle(),
        ensures
            0 <= self.cell_of(a) < self.cell_count(),
    {
        let n = (2 * a + self.angle()) * self.cell_count();
        assert(0 <= n) by (nonlinear_arith)
            requires
                0 <= 2 * a + self.angle(),
                n == (2 * a + self.angle()) * self.cell_count(),
        ;
        assert(0 <= n / (2 * self.angle())) by (nonlinear_arith)
            requires
                0 <= n,
                self.angle() > 0,
        ;
    }

    proof fn lemma_vision_len(&self, position: Point, rotation: int, foods: Seq<Food>)
        requires
            self.angle() > 0,
            self.cell_count() > 0,
        ensures
            self.vision(position, rotation, foods).len() == self.cell_count(),
        decreases foods.len(),
    {
        if foods.len() > 0 {
            self.lemma_vision_len(position, rotation, foods.drop_last());
            let f = foods.last().position;
            if self.sees(position, rotation, f) {
                self.lemma_cell_of(food_angle(position, rotation, f));
            }
        }
    }

    proof fn lemma_add_food_commutes(
        &self,
        v: Seq<i32>,
        position: Point,
        rotation: int,
        f: Food,
        g: Food,
    )
        requires
            self.range() > 0,
            self.angle() > 0,
            self.cell_count() > 0,
            v.len() == self.cell_count(),
        ensures
            self.add_food(self.add_food(v, position, rotation, f), position, rotation, g)
                == self.add_food(self.add_food(v, position, rotation, g), position, rotation, f),
    {
        let (pf, pg) = (f.position, g.position);
        if self.sees(position, rotation, pf) {
            self.lemma_energy_bounds(position, pf);
            self.lemma_cell_of(food_angle(position, rotation, pf));
        }
        if self.sees(position, rotation, pg) {
            self.lemma_energy_bounds(position, pg);
            self.lemma_cell_of(food_angle(position, rotation, pg));
        }
        let left = self.add_food(self.add_food(v, position, rotation, f), position, rotation, g);
        let right = self.add_food(self.add_food(v, position, rotation, g), position, rotation, f);
        if self.sees(position, rotation, pf) && self.sees(position, rotation, pg) {
            let cf = self.cell_of(food_angle(position, rotation, pf));
            let cg = self.cell_of(food_angle(position, rotation, pg));
            if cf == cg {
                let a = v[cf] as int;
                let ef = self.energy(position, pf);
                let eg = self.energy(position, pg);
                assert(add_capped(add_capped(a, ef) as int, eg) == add_capped(
                    add_capped(a, eg) as int,
                    ef,
                ));
            }
            assert(left =~= right);
        } else {
            assert(left =~= right);
        }
    }

    /// Adding the food items in another order, with one item moved to the
    /// end, gives the same vision.
    proof fn lemma_move_to_end(&self, position: Point, rotation: int, s: Seq<Food>, i: int)
        requires
            self.range() > 0,
            self.angle() > 0,
            self.cell_count() > 0,
            0 <= i < s.len(),
        ensures
            self.vision(position, rotation, s) == self.vision(
                position,
                rotation,
                s.remove(i).push(s[i]),
            ),
        decreases s.len(),
    {
        if i == s.len() - 1 {
            assert(s.remove(i).push(s[i]) =~= s);
        } else {
            let t = s.drop_last();
            let y = s.last();
            let x = s[i];
            assert(t[i] == x);
            self.lemma_move_to_end(position, rotation, t, i);
            assert(t.remove(i).push(t[i]).drop_last() =~= t.remove(i));
            self.lemma_vision_len(position, rotation, t.remove(i));
            let v = self.vision(position, rotation, t.remove(i));
            assert(self.vision(position, rotation, s) == self.add_food(
                self.vision(position, rotation, t),
                position,
                rotation,
                y,
            ));
            assert(self.vision(position, rotation, t) == self.add_food(v, position, rotation, x));
            self.lemma_add_food_commutes(
                self.vision(position, rotation, t.remove(i)),
                position,
                rotation,
                x,
                y,
            );
            assert(t.remove(i).push(y) =~= s.remove(i));
            assert(s.remove(i).push(x).drop_last() =~= s.remove(i));
            assert(s.remove(i).drop_last() =~= t.remove(i));
            assert(s.remove(i).last() == y);
            assert(self.vision(position, rotation, s.remove(i)) == self.add_food(
                v,
                position,
                rotation,
                y,
            ));
            assert(self.vision(position, rotation, s.remove(i).push(x)) == self.add_food(
                self.vision(position, rotation, s.remove(i)),
                position,
                rotation,
                x,
            ));
        }
    }

    /// Vision does not depend on the order of the food items: two lists
    /// holding the same items, as many times each, give the same vision.
    pub proof fn lemma_vision_order(
        &self,
        position: Point,
        rotation: int,
        foods: Seq<Food>,
        other: Seq<Food>,
    )
        requires
            self.range() > 0,
            self.angle() > 0,
            self.cell_count() > 0,
            foods.to_multiset() == other.to_multiset(),
        ensures
            self.vision(position, rotation, foods) == self.vision(position, rotation, other),
        decreases foods.len(),
    {
        broadcast use vstd::seq_lib::group_to_multiset_ensures;
        broadcast use vstd::multiset::group_multiset_axioms;

        if foods.len() == 0 {
            assert(foods.to_multiset().len() == 0);
            assert(other.to_multiset().len() == other.len());
            assert(other.len() == 0);
        } else {
            let t = foods.drop_last();
            let x = foods.last();
            assert(t.push(x) =~= foods);
            assert(other.to_multiset().count(x) > 0);
            assert(other.contains(x));
            let i = choose|i: int| 0 <= i < other.len() && other[i] == x;
            assert(other.remove(i).to_multiset() =~= t.to_multiset());
            self.lemma_vision_order(position, rotation, t, other.remove(i));
            self.lemma_move_to_end(position, rotation, other, i);
            assert(other.remove(i).push(x).drop_last() =~= other.remove(i));
        }
    }

    proof fn lemma_energy_bounds(&self, position: Point, food: Point)
        requires
            self.range() > 0,
            dist_sq(position, food) <= self.range() * self.range(),
        ensures
            0 <= self.energy(position, food) <= ONE,
            dist_sq(position, food) < self.range() * self.range() ==> self.energy(position, food)
                >= 1,
    {
        lemma_distance_in_range(position, food, self.range());
        let d = distance(position, food);
        let r = self.range();
        assert(0 <= ((r - d) * ONE + r - 1) / r <= ONE) by (nonlinear_arith)
            requires
                0 <= d <= r,
                r > 0,
        ;
        if d < r {
            assert(((r - d) * ONE + r - 1) / r >= 1) by (nonlinear_arith)
                requires
                    0 <= d < r,
            ;
        }
    }

    /// Edges of the field of view: a direction on either edge falls in the
    /// first or the last cell, and every seen direction in a cell of the
    /// vector; a food item beyond the range adds nothing; a seen food item at
    /// distance zero adds exactly 1 to its cell, and every seen food item
    /// strictly inside the range adds at least the smallest unit.
    pub proof fn lemma_vision_edges(
        &self,
        position: Point,
        rotation: int,
        foods: Seq<Food>,
        food: Food,
    )
        requires
            self.range() > 0,
            self.angle() > 0,
            self.cell_count() > 0,
        ensures
            2 * food_angle(position, rotation, food.position) == self.angle() ==> self.cell_of(
                food_angle(position, rotation, food.position),
            ) == self.cell_count() - 1,
            2 * food_angle(position, rotation, food.position) == -self.angle() ==> self.cell_of(
                food_angle(position, rotation, food.position),
            ) == 0,
            self.sees(position, rotation, food.position) ==> 0 <= self.cell_of(
                food_angle(position, rotation, food.position),
            ) < self.cell_count(),
            dist_sq(position, food.position) > self.range() * self.range() ==> self.vision(
                position,
                rotation,
                foods.push(food),
            ) == self.vision(position, rotation, foods),
            food.position == position && self.sees(position, rotation, food.position) ==> ({
                let before = self.vision(position, rotation, foods);
                let c = self.cell_of(food_angle(position, rotation, food.position));
                self.vision(position, rotation, foods.push(food)) == before.update(
                    c,
                    add_capped(before[c] as int, ONE as int),
                )
            }),
            self.sees(position, rotation, food.position) ==> 0 <= self.energy(
                position,
                food.position,
            ) <= ONE,
            self.sees(position, rotation, food.position) && dist_sq(position, food.position)
                < self.range() * self.range() ==> self.energy(position, food.position) >= 1,
    {
        if self.sees(position, rotation, food.position) {
            self.lemma_energy_bounds(position, food.position);
        }
        let n = self.cell_count() as int;
        let w = self.angle();
        assert(foods.push(food).drop_last() =~= foods);
        assert((2 * w) * n / (2 * w) == n) by (nonlinear_arith)
            requires
                w > 0,
        ;
        assert(0 * n / (2 * w) == 0) by (nonlinear_arith)
            requires
                w > 0,
        ;
        let a = food_angle(position, rotation, food.position);
        if self.sees(position, rotation, food.position) {
            self.lemma_cell_of(a);
        }
        if food.position == position {
            let (dx, dy) = (food.position.x - position.x, food.position.y - position.y);
            assert(dx == 0 && dy == 0);
            assert(dx * dx + dy * dy == 0) by (nonlinear_arith)
                requires
                    dx == 0,
                    dy == 0,
            ;
            assert(dist_sq(position, food.position) == 0);
            assert(is_isqrt(0, 0));
            let d = distance(position, food.position);
            assert(is_isqrt(0, d));
            assert(d == 0) by (nonlinear_arith)
                requires
                    0 <= d,
                    d * d <= 0,
            ;
            assert((self.range() * ONE + self.range() - 1) / self.range() == ONE) by (
            nonlinear_arith)
                requires
                    self.range() > 0,
            ;
        }
    }

    /// The stimulus vector: for each food item in range and in the field of
    /// view, its energy added to the cell of its direction.
    pub fn process_vision(&self, position: Point, rotation: i64, foods: &Vec<Food>) -> (r: Vec<
        i32,
    >)
        ensures
            r@ == self.vision(position, rotation as int, foods@),
            r@.len() == self.cell_count(),
    {
        proof {
            use_type_invariant(self);
        }
        let mut vision: Vec<i32> = Vec::new();
        let mut c: usize = 0;
        while c < self.cells
            invariant
                c <= self.cells,
                vision@ =~= Seq::new(c as nat, |i: int| 0i32),
            decreases self.cells - c,
        {
            vision.push(0);
            c = c + 1;
        }
        let reduced = reduce_turns(rotation);
        let range = self.fov_range as i128;
        let mut i: usize = 0;
        while i < foods.len()
            invariant
                i <= foods.len(),
                self.fov_range > 0 && self.fov_angle > 0 && self.cells > 0,
                reduced == reduce_angle(rotation as int),
                -TWO_PI < reduced < TWO_PI,
                range == self.fov_range,
                vision@ == self.vision(position, rotation as int, foods@.take(i as int)),
            decreases foods.len() - i,
        {
            let ghost before = vision@;
            proof {
                self.lemma_vision_len(position, rotation as int, foods@.take(i as int));
                assert(foods@.take(i + 1).drop_last() =~= foods@.take(i as int));
            }
            let f = foods[i].position;
            let dx: i128 = f.x as i128 - position.x as i128;
            let dy: i128 = f.y as i128 - position.y as i128;
            let ax: u128 = if dx < 0 {
                (-dx) as u128
            } else {
                dx as u128
            };
            let ay: u128 = if dy < 0 {
                (-dy) as u128
            } else {
                dy as u128
            };
            assert(ax * ax == dx * dx && ay * ay == dy * dy) by (nonlinear_arith)
                requires
                    ax == (if dx < 0 { -(dx as int) } else { dx as int }),
                    ay == (if dy < 0 { -(dy as int) } else { dy as int }),
            ;
            assert(ax * ax < 0x1_0000_0000_0000_0000_0000_0000_0000_0000) by (nonlinear_arith)
                requires
                    ax < 0x1_0000_0000_0000_0000,
            ;
            assert(ay * ay < 0x1_0000_0000_0000_0000_0000_0000_0000_0000) by (nonlinear_arith)
                requires
                    ay < 0x1_0000_0000_0000_0000,
            ;
            let ghost r2 = (self.fov_range as int) * (self.fov_range as int);
            assert(r2 < 0x4000_0000_0000_0000_0000_0000_0000_0000) by (nonlinear_arith)
                requires
                    0 < self.fov_range <= i64::MAX,
                    r2 == (self.fov_range as int) * (self.fov_range as int),
            ;
            let sq = (ax * ax).checked_add(ay * ay);
            let in_range = match sq {
                Some(d2) => d2 <= (range * range) as u128,
                None => false,
            };
            if in_range {
                let d2 = sq.unwrap();
                let a = atan2(-dx, dy);
                let angle = wrap(a - reduced, -PI, PI);
                assert(angle == food_angle(position, rotation as int, f));
                let twice = 2 * (angle as i128);
                if -(self.fov_angle as i128) <= twice && twice <= self.fov_angle as i128 {
                    let dist = isqrt(d2);
                    assert(dist as int == distance(position, f)) by {
                        assert(is_isqrt(dist_sq(position, f), dist as int));
                        let other = distance(position, f);
                        assert(is_isqrt(dist_sq(position, f), other));
                        if other < dist {
                            assert((other + 1) * (other + 1) <= (dist as int) * (dist as int))
                                by (nonlinear_arith)
                                requires
                                    0 <= other < dist,
                            ;
                        } else if other > dist {
                            assert((dist + 1) * (dist + 1) <= other * other) by (nonlinear_arith)
                                requires
                                    0 <= dist < other,
                            ;
                        }
                    }
                    assert(dist <= self.fov_range) by {
                        if dist > self.fov_range {
                            assert((dist as int) * (dist as int) > (self.fov_range as int) * (
                            self.fov_range as int)) by (nonlinear_arith)
                                requires
                                    dist > self.fov_range > 0,
                            ;
                        }
                    }
                    let energy: i128 = ((range - dist as i128) * (ONE as i128) + range - 1) / range;
                    assert(0 <= energy <= ONE) by (nonlinear_arith)
                        requires
                            0 <= range - dist <= range,
                            range > 0,
                            energy == ((range - dist) * ONE + range - 1) as int / (range as int),
                    ;
                    let fov = self.fov_angle as u128;
                    let cells = self.cells as u128;
                    let offset = (twice + self.fov_angle as i128) as u128;
                    assert(0 <= offset * cells <= 2 * fov * cells) by (nonlinear_arith)
                        requires
                            0 <= offset <= 2 * fov,
                            cells > 0,
                    ;
                    assert(2 * fov * cells < 0x1_0000_0000_0000_0000 * 0xffff_ffff_ffff_ffff)
                        by (nonlinear_arith)
                        requires
                            0 < fov < 0x8000_0000_0000_0000,
                            0 < cells <= 0xffff_ffff_ffff_ffff,
                    ;
                    let raw: u128 = offset * cells / (2 * fov);
                    assert(raw <= cells) by (nonlinear_arith)
                        requires
                            offset * cells <= 2 * fov * cells,
                            fov > 0,
                            raw == offset * cells / (2 * fov),
                    ;
                    let cell: usize = if raw > cells - 1 {
                        self.cells - 1
                    } else {
                        raw as usize
                    };
                    assert(cell == self.cell_of(angle as int));
                    let old = vision[cell];
                    let sum: i64 = old as i64 + energy as i64;
                    let next: i32 = if sum > i32::MAX as i64 {
                        i32::MAX
                    } else {
                        sum as i32
                    };
                    vision.set(cell, next);
                }
            }
            i = i + 1;
        }
        proof {
            assert(foods@.take(foods@.len() as int) =~= foods@);
            self.lemma_vision_len(position, rotation as int, foods@);
        }
        vision
    }
}

impl Default for Eye {
    fn default() -> (r: Eye)
        ensures
            r.range() == FOV_RANGE,
            r.angle() == FOV_ANGLE,
            r.cell_count() == CELLS,
    {
        Eye::new(FOV_RANGE, FOV_ANGLE, CELLS)
    }
}

} // verus!
