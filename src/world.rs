//! One generation's world: the creatures, the food, and the tick counter.

use crate::creature::{
    brain_sizes, can_reach, glide, heading_angle, inside, lemma_straight_line, step_x, step_y,
    torus, Creature, MAX_EXTENT, ROTATION_ACCEL, SPEED_MAX, SPEED_MIN,
};
use crate::food::{Food, Point};
use crate::network::{network_output, network_within, shaped, Network};
use crate::fixed::{ONE, TWO_PI};
use crate::random::unit_fraction;
use rand_chacha::ChaCha8Rng;
use vstd::prelude::*;

verus! {

/// Creatures of a world made without inherited brains.
pub const POPULATION_SIZE: usize = 20;

pub struct World {
    pub creatures: Vec<Creature>,
    pub foods: Vec<Food>,
    /// Ticks run so far in this generation.
    pub age: u64,
    pub foods_left_num: u32,
    pub width: i64,
    pub height: i64,
}

/// A uniform fraction of `scale`: `scale * u` for `u` drawn from
/// `[lo, hi)` (fixed point, within `[0, 1]`).
fn fraction_of(rng: &mut ChaCha8Rng, scale: i64, lo: i32, hi: i32) -> (r: i64)
    requires
        0 < scale,
        0 <= lo <= hi <= ONE,
    ensures
        (scale as int) * lo / (ONE as int) <= r <= (scale as int) * hi / (ONE as int),
        lo < hi ==> r < scale,
{
    let f = unit_fraction(rng);
    let ghost span = (hi - lo) as int;
    assert(0 <= f * span <= (ONE - 1) * span) by (nonlinear_arith)
        requires
            0 <= f < ONE,
            0 <= span,
    ;
    let q: i64 = f * ((hi - lo) as i64) / ONE;
    assert(0 <= q <= span && (span > 0 ==> q < span)) by (nonlinear_arith)
        requires
            0 <= f * span <= (ONE - 1) * span,
            0 <= span,
            q == (f * span) / (ONE as int),
    ;
    let u = lo + q as i32;
    assert(0 <= (scale as int) * (u as int) <= (scale as int) * ONE) by (nonlinear_arith)
        requires
            0 <= u <= ONE,
            0 < scale,
    ;
    let r = ((scale as i128) * (u as i128) / (ONE as i128)) as i64;
    assert((scale as int) * (lo as int) / (ONE as int) <= r <= (scale as int) * (hi as int) / (
    ONE as int)) by (nonlinear_arith)
        requires
            lo <= u <= hi,
            0 < scale,
            r == (scale as int) * (u as int) / (ONE as int),
    ;
    assert(u < ONE ==> r < scale) by (nonlinear_arith)
        requires
            0 < scale,
            0 <= u,
            r == (scale as int) * (u as int) / (ONE as int),
    ;
    r
}

/// A creature placed at random in the world, heading anywhere, at a random
/// speed of at least `SPEED_MIN`.
fn spawn(rng: &mut ChaCha8Rng, width: i64, height: i64, brain: Option<Network>) -> (r: Creature)
    requires
        0 < width <= MAX_EXTENT,
        0 < height <= MAX_EXTENT,
        brain matches Some(b) ==> shaped(b@, brain_sizes()),
    ensures
        r.wf(),
        inside(r.position, width as int, height as int),
        0 <= r.rotation <= TWO_PI,
        r.eat == 0,
        brain matches Some(b) ==> r.brain@ == b@,
        brain is None ==> network_within(r.brain@, ONE as int),
{
    let x = fraction_of(rng, width, 0, ONE as i32);
    let y = fraction_of(rng, height, 0, ONE as i32);
    let rotation = fraction_of(rng, TWO_PI, 0, ONE as i32);
    assert((TWO_PI as int) * (ONE as int) / (ONE as int) == TWO_PI);
    let drawn = fraction_of(rng, SPEED_MAX, 0, ONE as i32);
    let speed = if drawn < SPEED_MIN {
        SPEED_MIN
    } else {
        drawn
    };
    Creature::new(Point::new(x, y), rotation, speed, rng, brain)
}

/// Margin of the food's area: a twentieth of each side.
pub const FOOD_MARGIN: i32 = 52_429;

/// A point drawn away from the edges: in the middle nine tenths of each side.
fn random_food_position(rng: &mut ChaCha8Rng, width: i64, height: i64) -> (r: Point)
    requires
        0 < width,
        0 < height,
    ensures
        in_margin(r, width as int, height as int),
{
    let x = fraction_of(rng, width, FOOD_MARGIN, ONE as i32 - FOOD_MARGIN);
    let y = fraction_of(rng, height, FOOD_MARGIN, ONE as i32 - FOOD_MARGIN);
    Point::new(x, y)
}

/// The point lies in the world's interior, a twentieth of each side away
/// from the edges.
pub open spec fn in_margin(p: Point, width: int, height: int) -> bool {
    &&& width * FOOD_MARGIN / (ONE as int) <= p.x <= width * (ONE - FOOD_MARGIN) / (ONE as int)
    &&& height * FOOD_MARGIN / (ONE as int) <= p.y <= height * (ONE - FOOD_MARGIN) / (ONE as int)
}

/// Ticks a world may run: headings stay far from the limits of `i64`.
pub const MAX_WORLD_AGE: u64 = 0x100_0000_0000;

/// A heading reached after `age` ticks from one in `[0, TWO_PI]`.
pub open spec fn heading_within(rotation: int, age: int) -> bool {
    -(TWO_PI + age * ROTATION_ACCEL) <= rotation <= TWO_PI + age * ROTATION_ACCEL
}

/// `v` limited to what a meal counter holds.
pub open spec fn capped(v: int) -> int {
    if v > u32::MAX {
        u32::MAX as int
    } else {
        v
    }
}

/// Number of food items within reach of the mouth of a creature at
/// `position` with heading `rotation`.
pub open spec fn eaten_count(position: Point, rotation: int, foods: Seq<Food>) -> nat
    decreases foods.len(),
{
    if foods.len() == 0 {
        0
    } else {
        eaten_count(position, rotation, foods.drop_last()) + if can_reach(
            position,
            rotation,
            foods.last(),
        ) {
            1nat
        } else {
            0nat
        }
    }
}

proof fn lemma_eaten_count_bound(position: Point, rotation: int, foods: Seq<Food>)
    ensures
        eaten_count(position, rotation, foods) <= foods.len(),
    decreases foods.len(),
{
    if foods.len() > 0 {
        lemma_eaten_count_bound(position, rotation, foods.drop_last());
    }
}

/// One creature's turn in a tick: `s` became `c` by moving on what it saw of
/// the food as it lay (`before`), then ate every item within reach of its
/// mouth; each eaten item was put back in the interior (`after`), the others
/// stayed.
pub open spec fn turn_taken(
    c: Creature,
    s: Creature,
    before: Seq<Food>,
    after: Seq<Food>,
    width: int,
    height: int,
) -> bool {
    &&& c.acted_on(s, before, width, height)
    &&& c.eat == capped(s.eat + eaten_count(c.position, c.rotation as int, before))
    &&& after.len() == before.len()
    &&& forall|j: int|
        0 <= j < before.len() ==> if can_reach(c.position, c.rotation as int, #[trigger] before[j]) {
            in_margin(after[j].position, width, height)
        } else {
            after[j] == before[j]
        }
}

/// The creatures of `old` took their turns in order, the food lying as
/// `layouts[i]` at the turn of creature `i`, and `new` is what came of it.
pub open spec fn tick_layouts(old: World, new: World, layouts: Seq<Seq<Food>>) -> bool {
    &&& layouts.len() == old.creatures@.len() + 1
    &&& layouts[0] == old.foods@
    &&& layouts.last() == new.foods@
    &&& forall|i: int|
        0 <= i < old.creatures@.len() ==> #[trigger] turn_taken(
            new.creatures@[i],
            old.creatures@[i],
            layouts[i],
            layouts[i + 1],
            old.width as int,
            old.height as int,
        )
}

/// The brain answers zero turn and zero acceleration to every input.
pub open spec fn still(c: Creature) -> bool {
    forall|v: Seq<i32>| #[trigger] network_output(c.brain@, v) == seq![0i32, 0i32]
}

/// Straight-line motion over many ticks: a creature whose brain answers zero
/// to everything keeps its heading and speed, and after `k` ticks of the
/// world each coordinate is the start moved by `k` equal steps, taken modulo
/// the world's size.
pub proof fn lemma_still_creature_glides(worlds: Seq<World>, i: int, k: nat)
    requires
        k < worlds.len(),
        forall|t: int| 0 <= t < k ==> #[trigger] worlds[t + 1].ticked_from(worlds[t]),
        worlds[0].wf(),
        0 <= i < worlds[0].creatures@.len(),
        still(worlds[0].creatures@[i]),
    ensures
        ({
            let c0 = worlds[0].creatures@[i];
            let c = worlds[k as int].creatures@[i];
            let h = heading_angle(c0.rotation as int);
            &&& i < worlds[k as int].creatures@.len()
            &&& worlds[k as int].width == worlds[0].width
            &&& worlds[k as int].height == worlds[0].height
            &&& c.rotation == c0.rotation
            &&& c.speed == c0.speed
            &&& c.brain@ == c0.brain@
            &&& c.eye == c0.eye
            &&& c.position.x == (c0.position.x + k * step_x(c0.speed as int, h)) % (
            worlds[0].width as int)
            &&& c.position.y == (c0.position.y + k * step_y(c0.speed as int, h)) % (
            worlds[0].height as int)
        }),
    decreases k,
{
    let c0 = worlds[0].creatures@[i];
    let h = heading_angle(c0.rotation as int);
    let (w, ht) = (worlds[0].width as int, worlds[0].height as int);
    let (sx, sy) = (step_x(c0.speed as int, h), step_y(c0.speed as int, h));
    assert(c0.wf() && inside(c0.position, w, ht));
    lemma_straight_line(c0.rotation as int, c0.speed as int, c0.position.x as int, sx, w, k);
    lemma_straight_line(c0.rotation as int, c0.speed as int, c0.position.y as int, sy, ht, k);
    if k > 0 {
        lemma_still_creature_glides(worlds, i, (k - 1) as nat);
        lemma_straight_line(
            c0.rotation as int,
            c0.speed as int,
            c0.position.x as int,
            sx,
            w,
            (k - 1) as nat,
        );
        lemma_straight_line(
            c0.rotation as int,
            c0.speed as int,
            c0.position.y as int,
            sy,
            ht,
            (k - 1) as nat,
        );
        let t = k - 1;
        assert(worlds[t + 1].ticked_from(worlds[t]));
        let prev = worlds[t];
        let next = worlds[k as int];
        assert(t + 1 == k);
        let layouts = choose|layouts: Seq<Seq<Food>>| #[trigger] tick_layouts(prev, next, layouts);
        assert(turn_taken(
            next.creatures@[i],
            prev.creatures@[i],
            layouts[i],
            layouts[i + 1],
            prev.width as int,
            prev.height as int,
        ));
        let p = prev.creatures@[i];
        let v = p.eye.vision(p.position, p.rotation as int, layouts[i]);
        assert(network_output(p.brain@, v) == network_output(c0.brain@, v));
        assert(network_output(c0.brain@, v) == seq![0i32, 0i32]);
        assert(glide(c0.position.x as int, sx, w, k) == torus(
            glide(c0.position.x as int, sx, w, (k - 1) as nat) + sx,
            w,
        ));
        assert(glide(c0.position.y as int, sy, ht, k) == torus(
            glide(c0.position.y as int, sy, ht, (k - 1) as nat) + sy,
            ht,
        ));
    }
}

impl World {
    /// Sizes in range; every creature valid and inside the world, its heading
    /// within what the ticks so far allow, with at most one meal per food
    /// item per tick so far.
    pub open spec fn wf(&self) -> bool {
        &&& 0 < self.width <= MAX_EXTENT
        &&& 0 < self.height <= MAX_EXTENT
        &&& forall|i: int|
            0 <= i < self.creatures@.len() ==> (#[trigger] self.creatures@[i]).wf() && inside(
                self.creatures@[i].position,
                self.width as int,
                self.height as int,
            ) && heading_within(self.creatures@[i].rotation as int, self.age as int)
        &&& forall|i: int|
            0 <= i < self.creatures@.len() ==> (#[trigger] self.creatures@[i]).eat <= self.age
                * self.foods@.len()
    }

    /// The world is `old` after one tick.
    pub open spec fn ticked_from(self, old: World) -> bool {
        &&& self.age == old.age + 1
        &&& self.width == old.width
        &&& self.height == old.height
        &&& self.foods_left_num == old.foods_left_num
        &&& self.creatures@.len() == old.creatures@.len()
        &&& self.foods@.len() == old.foods@.len()
        &&& exists|layouts: Seq<Seq<Food>>| #[trigger] tick_layouts(old, self, layouts)
    }

    /// A new generation: one creature for each inherited brain, or
    /// `POPULATION_SIZE` creatures with random brains, placed at random, and
    /// `foods_number` food items in the interior.
    pub fn new(
        width: i64,
        height: i64,
        brains_optional: Option<Vec<Network>>,
        foods_number: u32,
        rng: &mut ChaCha8Rng,
    ) -> (r: World)
        requires
            0 < width <= MAX_EXTENT,
            0 < height <= MAX_EXTENT,
            brains_optional matches Some(b) ==> b@.len() > 0 && forall|i: int|
                0 <= i < b@.len() ==> shaped((#[trigger] b@[i])@, brain_sizes()),
        ensures
            r.wf(),
            r.age == 0,
            r.width == width,
            r.height == height,
            r.foods_left_num == foods_number,
            r.foods@.len() == foods_number,
            forall|k: int|
                0 <= k < r.foods@.len() ==> in_margin(
                    (#[trigger] r.foods@[k]).position,
                    width as int,
                    height as int,
                ),
            brains_optional matches Some(b) ==> r.creatures@.len() == b@.len() && forall|i: int|
                0 <= i < b@.len() ==> (#[trigger] r.creatures@[i]).brain@ == b@[i]@,
            brains_optional is None ==> r.creatures@.len() == POPULATION_SIZE && forall|i: int|
                0 <= i < POPULATION_SIZE ==> network_within(
                    (#[trigger] r.creatures@[i]).brain@,
                    ONE as int,
                ),
            forall|i: int| 0 <= i < r.creatures@.len() ==> (#[trigger] r.creatures@[i]).eat == 0,
    {
        let mut creatures: Vec<Creature> = Vec::new();
        match brains_optional {
            Some(brains) => {
                let mut brains = brains;
                let ghost all = brains@;
                let n = brains.len();
                let mut i: usize = 0;
                while i < n
                    invariant
                        0 < width <= MAX_EXTENT,
                        0 < height <= MAX_EXTENT,
                        n == all.len(),
                        forall|q: int| 0 <= q < n ==> shaped((#[trigger] all[q])@, brain_sizes()),
                        i <= n,
                        brains@ == all.subrange(i as int, n as int),
                        creatures@.len() == i,
                        forall|q: int|
                            0 <= q < i ==> (#[trigger] creatures@[q]).wf() && inside(
                                creatures@[q].position,
                                width as int,
                                height as int,
                            ) && 0 <= creatures@[q].rotation <= TWO_PI && creatures@[q].eat == 0
                                && creatures@[q].brain@ == all[q]@,
                    decreases n - i,
                {
                    let brain = brains.remove(0);
                    assert(brain == all[i as int]);
                    let c = spawn(rng, width, height, Some(brain));
                    creatures.push(c);
                    assert(brains@ =~= all.subrange(i + 1, n as int));
                    i = i + 1;
                }
            },
            None => {
                let mut i: usize = 0;
                while i < POPULATION_SIZE
                    invariant
                        0 < width <= MAX_EXTENT,
                        0 < height <= MAX_EXTENT,
                        i <= POPULATION_SIZE,
                        creatures@.len() == i,
                        forall|q: int|
                            0 <= q < i ==> (#[trigger] creatures@[q]).wf() && inside(
                                creatures@[q].position,
                                width as int,
                                height as int,
                            ) && 0 <= creatures@[q].rotation <= TWO_PI && creatures@[q].eat == 0
                                && network_within(creatures@[q].brain@, ONE as int),
                    decreases POPULATION_SIZE - i,
                {
                    let c = spawn(rng, width, height, None);
                    creatures.push(c);
                    i = i + 1;
                }
            },
        }
        let mut foods: Vec<Food> = Vec::new();
        let mut k: u32 = 0;
        while k < foods_number
            invariant
                0 < width && 0 < height,
                k <= foods_number,
                foods@.len() == k,
                forall|q: int|
                    0 <= q < k ==> in_margin(
                        (#[trigger] foods@[q]).position,
                        width as int,
                        height as int,
                    ),
            decreases foods_number - k,
        {
            foods.push(Food::new(random_food_position(rng, width, height)));
            k = k + 1;
        }
        World { creatures, foods, age: 0, foods_left_num: foods_number, width, height }
    }

    /// One tick: each creature in turn looks, decides and moves, then eats
    /// every food item within reach of its mouth, and each eaten item is moved
    /// to a new random place in the interior. Food is never removed.
    pub fn update(&mut self, rng: &mut ChaCha8Rng) -> (r: bool)
        requires
            old(self).wf(),
            old(self).age < MAX_WORLD_AGE,
        ensures
            final(self).wf(),
            !r,
            final(self).ticked_from(*old(self)),
    {
        let ghost initial = *self;
        let ghost start = self.creatures@;
        let ghost nfood = self.foods@.len();
        let ghost age0 = self.age as int;
        let ghost (w0, h0) = (self.width, self.height);
        let ghost food0 = self.foods@;
        let ghost mut layouts: Seq<Seq<Food>> = seq![self.foods@];
        self.age = self.age + 1;
        let n = self.creatures.len();
        let mut i: usize = 0;
        while i < n
            invariant
                0 < w0 <= MAX_EXTENT,
                0 < h0 <= MAX_EXTENT,
                self.width == w0 && self.height == h0,
                self.age == age0 + 1,
                0 <= age0 < MAX_WORLD_AGE,
                n == self.creatures@.len() == start.len(),
                self.foods@.len() == nfood,
                i <= n,
                layouts.len() == i + 1,
                layouts[0] == food0,
                layouts[i as int] == self.foods@,
                forall|q: int| 0 <= q <= i ==> (#[trigger] layouts[q]).len() == nfood,
                self.foods_left_num == initial.foods_left_num,
                forall|q: int|
                    0 <= q < n ==> (#[trigger] start[q]).wf() && inside(
                        start[q].position,
                        w0 as int,
                        h0 as int,
                    ) && heading_within(start[q].rotation as int, age0) && start[q].eat <= age0
                        * nfood,
                forall|q: int|
                    0 <= q < i ==> (#[trigger] self.creatures@[q]).wf() && inside(
                        self.creatures@[q].position,
                        w0 as int,
                        h0 as int,
                    ) && turn_taken(
                        self.creatures@[q],
                        start[q],
                        layouts[q],
                        layouts[q + 1],
                        w0 as int,
                        h0 as int,
                    ),
                forall|q: int| i <= q < n ==> #[trigger] self.creatures@[q] == start[q],
            decreases n - i,
        {
            let ghost seen = self.foods@;
            let ghost before_turn = self.creatures@;
            assert(start[i as int] == self.creatures@[i as int]);
            assert(heading_within(start[i as int].rotation as int, age0));
            self.creatures[i].move_for_foods(&self.foods, self.width, self.height);
            let ghost after_move = self.creatures@[i as int];
            let mut j: usize = 0;
            while j < self.foods.len()
                invariant
                    0 < w0 <= MAX_EXTENT,
                    0 < h0 <= MAX_EXTENT,
                    self.width == w0 && self.height == h0,
                    i < n,
                    n == self.creatures@.len() == start.len(),
                    self.foods@.len() == nfood == seen.len(),
                    j <= nfood,
                    forall|q: int|
                        0 <= q < n && q != i ==> #[trigger] self.creatures@[q] == before_turn[q],
                    self.age == age0 + 1,
                    0 <= age0 < MAX_WORLD_AGE,
                    self.foods_left_num == initial.foods_left_num,
                    layouts.len() == i + 1,
                    layouts[0] == food0,
                    layouts[i as int] == seen,
                    forall|q: int| 0 <= q <= i ==> (#[trigger] layouts[q]).len() == nfood,
                    forall|q: int|
                        0 <= q < n ==> (#[trigger] start[q]).wf() && inside(
                            start[q].position,
                            w0 as int,
                            h0 as int,
                        ) && heading_within(start[q].rotation as int, age0) && start[q].eat <= age0
                            * nfood,
                    forall|q: int|
                        0 <= q < i ==> (#[trigger] before_turn[q]).wf() && inside(
                            before_turn[q].position,
                            w0 as int,
                            h0 as int,
                        ) && turn_taken(
                            before_turn[q],
                            start[q],
                            layouts[q],
                            layouts[q + 1],
                            w0 as int,
                            h0 as int,
                        ),
                    forall|q: int| i < q < n ==> #[trigger] before_turn[q] == start[q],
                    after_move.acted_on(start[i as int], seen, w0 as int, h0 as int),
                    after_move.wf(),
                    inside(after_move.position, w0 as int, h0 as int),
                    self.creatures@[i as int].wf(),
                    self.creatures@[i as int].position == after_move.position,
                    self.creatures@[i as int].rotation == after_move.rotation,
                    self.creatures@[i as int].speed == after_move.speed,
                    self.creatures@[i as int].eye == after_move.eye,
                    self.creatures@[i as int].brain@ == after_move.brain@,
                    self.creatures@[i as int].eat == capped(
                        start[i as int].eat + eaten_count(
                            after_move.position,
                            after_move.rotation as int,
                            seen.take(j as int),
                        ),
                    ),
                    forall|k: int|
                        0 <= k < j ==> if can_reach(
                            after_move.position,
                            after_move.rotation as int,
                            #[trigger] seen[k],
                        ) {
                            in_margin(self.foods@[k].position, w0 as int, h0 as int)
                        } else {
                            self.foods@[k] == seen[k]
                        },
                    forall|k: int| j <= k < nfood ==> #[trigger] self.foods@[k] == seen[k],
                decreases nfood - j,
            {
                proof {
                    assert(seen.take(j + 1).drop_last() =~= seen.take(j as int));
                }
                if self.creatures[i].eat(&self.foods[j]) {
                    let p = random_food_position(rng, self.width, self.height);
                    self.foods.set(j, Food::new(p));
                }
                j = j + 1;
            }
            proof {
                assert(seen.take(nfood as int) =~= seen);
                let c = self.creatures@[i as int];
                assert(c.acted_on(start[i as int], seen, w0 as int, h0 as int));
                assert(turn_taken(c, start[i as int], seen, self.foods@, w0 as int, h0 as int));
                let grown = layouts.push(self.foods@);
                assert forall|q: int| 0 <= q <= i implies #[trigger] grown[q] == layouts[q] by {}
                assert(grown[i + 1] == self.foods@);
                layouts = grown;
            }
            i = i + 1;
        }
        proof {
            assert forall|q: int| 0 <= q < n implies (#[trigger] self.creatures@[q]).eat
                <= self.age * self.foods@.len() && heading_within(
                self.creatures@[q].rotation as int,
                self.age as int,
            ) by {
                let c = self.creatures@[q];
                lemma_eaten_count_bound(c.position, c.rotation as int, layouts[q]);
                assert(start[q].eat <= age0 * nfood);
                assert(age0 * nfood + nfood == (age0 + 1) * nfood) by (nonlinear_arith);
            }
            assert(tick_layouts(initial, *self, layouts));
        }
        false
    }
}

} // verus!
