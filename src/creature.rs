//! A creature: a body that moves on a torus, an eye, and a network that turns
//! what the eye sees into a turn and an acceleration.

use crate::eye::{reduce_angle, reduce_turns, Eye};
use crate::fixed::{cos, cos_spec, mul_fixed, scale_down, sin, sin_spec, ONE, PI};
use crate::food::{Food, Point};
use crate::network::{
    lemma_output_len, lemma_shaped_well_formed, network_output, network_within, shaped, sizes,
    LayerTopology, Network,
};
use crate::random::{wrap, wrap_spec};
use rand_chacha::ChaCha8Rng;
use vstd::arithmetic::div_mod::{
    lemma_add_mod_noop_right, lemma_fundamental_div_mod, lemma_fundamental_div_mod_converse,
};
use vstd::prelude::*;

verus! {

/// Slowest speed of a creature, per tick.
pub const SPEED_MIN: i64 = 1_048_576;

/// Fastest speed of a creature, per tick.
pub const SPEED_MAX: i64 = 10_485_760;

/// Largest change of speed in one tick.
pub const SPEED_ACCEL: i64 = 2_097_152;

/// Largest turn in one tick: two thirds of pi.
pub const ROTATION_ACCEL: i64 = 2_196_132;

/// Size of a creature's body.
pub const CREATURE_SIZE: i64 = 20_971_520;

/// Distance from a creature's position to its mouth.
pub const MOUTH_POSITION: i64 = 39_845_888;

/// A food item this close to the mouth is eaten.
pub const FOOD_EATEN_DISTANCE: i64 = 13_981_013;

/// Number of meals at which a creature's colour is fully saturated.
pub const MAX_EAT: u32 = 50;

/// Cells of a creature's eye.
pub const CREATURE_EYE_CELLS: usize = 9;

/// Width of a creature's field of view: five quarters of pi.
pub const CREATURE_EYE_ANGLE: i64 = 4_117_748;

/// How far a creature sees.
pub const CREATURE_EYE_RANGE: i64 = 1_048_576_000;

/// Largest world side: positions and world sizes stay within it.
pub const MAX_EXTENT: i64 = 0x4000_0000_0000_0000;

/// Layer sizes of a creature's brain: the eye's cells, two hidden layers,
/// and two outputs (turn and acceleration).
pub open spec fn brain_sizes() -> Seq<nat> {
    seq![CREATURE_EYE_CELLS as nat, 5, 3, 2]
}

/// The topology of a creature's brain.
pub fn brain_topology() -> (r: Vec<LayerTopology>)
    ensures
        sizes(r@) == brain_sizes(),
{
    let r = vec![
        LayerTopology { num_neuron: CREATURE_EYE_CELLS },
        LayerTopology { num_neuron: 5 },
        LayerTopology { num_neuron: 3 },
        LayerTopology { num_neuron: 2 },
    ];
    assert(sizes(r@) =~= brain_sizes());
    r
}

pub open spec fn clamp(v: int, lo: int, hi: int) -> int {
    if v < lo {
        lo
    } else if v > hi {
        hi
    } else {
        v
    }
}

/// Heading after turning by `turn`, limited to `ROTATION_ACCEL`. The heading
/// is not wrapped: it may grow without bound.
pub open spec fn next_rotation(rotation: int, turn: int) -> int {
    rotation + clamp(turn, -ROTATION_ACCEL as int, ROTATION_ACCEL as int)
}

/// The direction a heading points to: the heading less whole turns, in
/// `[-PI, PI]`. Sine and cosine are taken of it.
pub open spec fn heading_angle(rotation: int) -> int {
    wrap_spec(reduce_angle(rotation), -PI as int, PI as int)
}

/// Largest heading, either way, from which a creature may still turn.
pub const HEADING_LIMIT: i64 = 0x7fff_ffff_ffde_7d5b;

/// Speed after accelerating by `accel`, limited to `SPEED_ACCEL`, kept
/// within `[SPEED_MIN, SPEED_MAX]`.
pub open spec fn next_speed(speed: int, accel: int) -> int {
    clamp(
        speed + clamp(accel, -SPEED_ACCEL as int, SPEED_ACCEL as int),
        SPEED_MIN as int,
        SPEED_MAX as int,
    )
}

/// A coordinate wrapped onto `[0, size)`.
pub open spec fn torus(v: int, size: int) -> int {
    v % size
}

/// Horizontal move at `speed` along `rotation` (zero points up, growing
/// clockwise). The sine is Bhaskara's fixed-point approximation, within
/// about 0.002 of the real one, so the move is off by at most that fraction
/// of the speed.
pub open spec fn step_x(speed: int, rotation: int) -> int {
    scale_down(speed * sin_spec(rotation))
}

/// Vertical move at `speed` along `rotation`; the y axis points down. The
/// cosine is within about 0.002 of the real one.
pub open spec fn step_y(speed: int, rotation: int) -> int {
    -scale_down(speed * cos_spec(rotation))
}

/// The mouth: `MOUTH_POSITION` ahead of the position along the heading. The
/// sine and cosine are within about 0.002 of the real ones, so the mouth lies
/// within about 0.003 of `MOUTH_POSITION` of where real trigonometry puts it.
pub open spec fn mouth(position: Point, rotation: int) -> (int, int) {
    let h = heading_angle(rotation);
    (
        position.x + scale_down(MOUTH_POSITION * sin_spec(h)),
        position.y - scale_down(MOUTH_POSITION * cos_spec(h)),
    )
}

/// The food lies within `FOOD_EATEN_DISTANCE` of the mouth of a creature at
/// `position` with heading `rotation`.
pub open spec fn can_reach(position: Point, rotation: int, food: Food) -> bool {
    let m = mouth(position, rotation);
    let d = FOOD_EATEN_DISTANCE as int;
    (food.position.x - m.0) * (food.position.x - m.0) + (food.position.y - m.1) * (food.position.y
        - m.1) <= d * d
}

/// The food lies within `FOOD_EATEN_DISTANCE` of the creature's mouth.
pub open spec fn reaches(c: Creature, food: Food) -> bool {
    can_reach(c.position, c.rotation as int, food)
}

/// Colour saturation for a number of meals: `eat / MAX_EAT`, at most 1.
pub open spec fn intensity(eat: int) -> int {
    if eat * ONE / (MAX_EAT as int) > ONE {
        ONE as int
    } else {
        eat * ONE / (MAX_EAT as int)
    }
}

pub struct Creature {
    pub position: Point,
    /// Radians, fixed point, in `[-PI, PI]`.
    pub rotation: i64,
    pub speed: i64,
    /// Food eaten so far: the creature's fitness.
    pub eat: u32,
    pub eye: Eye,
    pub brain: Network,
}

/// A square area, from zero up to `width` and `height`.
pub open spec fn inside(p: Point, width: int, height: int) -> bool {
    0 <= p.x < width && 0 <= p.y < height
}

impl Creature {
    /// Speed, position and the shape of the brain are all valid.
    pub open spec fn wf(&self) -> bool {
        &&& shaped(self.brain@, brain_sizes())
        &&& SPEED_MIN <= self.speed <= SPEED_MAX
        &&& inside(self.position, MAX_EXTENT as int, MAX_EXTENT as int)
        &&& self.eye.range() == CREATURE_EYE_RANGE
        &&& self.eye.angle() == CREATURE_EYE_ANGLE
        &&& self.eye.cell_count() == CREATURE_EYE_CELLS
    }

    /// A creature with a fresh eye, no meal yet, and the given brain or else
    /// one drawn at random.
    pub fn new(
        position: Point,
        rotation: i64,
        speed: i64,
        rng: &mut ChaCha8Rng,
        optional_brain: Option<Network>,
    ) -> (r: Creature)
        requires
            inside(position, MAX_EXTENT as int, MAX_EXTENT as int),
            SPEED_MIN <= speed <= SPEED_MAX,
            optional_brain matches Some(b) ==> shaped(b@, brain_sizes()),
        ensures
            r.wf(),
            r.position == position,
            r.rotation == rotation,
            r.speed == speed,
            r.eat == 0,
            optional_brain matches Some(b) ==> r.brain@ == b@,
            optional_brain is None ==> network_within(r.brain@, ONE as int),
    {
        let eye = Eye::new(CREATURE_EYE_RANGE, CREATURE_EYE_ANGLE, CREATURE_EYE_CELLS);
        let brain = match optional_brain {
            Some(brain) => brain,
            None => {
                let topology = brain_topology();
                assert(sizes(topology@).len() == topology@.len());
                let layers = topology.as_slice();
                assert(layers@ == topology@);
                Network::random(rng, layers)
            },
        };
        Creature { position, rotation, speed, eat: 0, eye, brain }
    }

    /// Looks at the food, decides, and moves; the new position is wrapped
    /// onto the world.
    pub fn move_for_foods(&mut self, foods: &Vec<Food>, width: i64, height: i64)
        requires
            old(self).wf(),
            -HEADING_LIMIT <= old(self).rotation <= HEADING_LIMIT,
            0 < width <= MAX_EXTENT,
            0 < height <= MAX_EXTENT,
        ensures
            final(self).wf(),
            inside(final(self).position, width as int, height as int),
            ({
                let s = *old(self);
                let actions = network_output(
                    s.brain@,
                    s.eye.vision(s.position, s.rotation as int, foods@),
                );
                final(self).moved_from(s, actions[0] as int, actions[1] as int, width as int, height as int)
            }),
    {
        let vision_info = self.see(foods);
        let actions = self.decide(vision_info);
        self.move_body(&actions, width, height);
    }

    fn see(&self, foods: &Vec<Food>) -> (r: Vec<i32>)
        requires
            self.wf(),
        ensures
            r@ == self.eye.vision(self.position, self.rotation as int, foods@),
            r@.len() == CREATURE_EYE_CELLS,
    {
        self.eye.process_vision(self.position, self.rotation, foods)
    }

    fn decide(&self, vision_info: Vec<i32>) -> (r: Vec<i32>)
        requires
            self.wf(),
            vision_info@.len() == CREATURE_EYE_CELLS,
        ensures
            r@ == network_output(self.brain@, vision_info@),
            r@.len() == 2,
    {
        proof {
            lemma_shaped_well_formed(self.brain@, brain_sizes());
            lemma_output_len(self.brain@, brain_sizes(), vision_info@);
        }
        self.brain.propagate(vision_info)
    }

    /// The body is that of `s` after one move with the given turn and
    /// acceleration, on a world of the given size; eye and brain unchanged.
    pub open spec fn stepped_from(self, s: Creature, turn: int, accel: int, width: int, height: int) -> bool {
        let rotation = next_rotation(s.rotation as int, turn);
        let speed = next_speed(s.speed as int, accel);
        &&& self.rotation == rotation
        &&& self.speed == speed
        &&& self.position.x == torus(s.position.x + step_x(speed, heading_angle(rotation)), width)
        &&& self.position.y == torus(s.position.y + step_y(speed, heading_angle(rotation)), height)
        &&& self.eye == s.eye
        &&& self.brain@ == s.brain@
    }

    /// The creature is `s` after one move with the given turn and
    /// acceleration, on a world of the given size; nothing else changed.
    pub open spec fn moved_from(self, s: Creature, turn: int, accel: int, width: int, height: int) -> bool {
        &&& self.stepped_from(s, turn, accel, width, height)
        &&& self.eat == s.eat
    }

    /// The creature is `s` after one move decided by its brain on what it saw
    /// of `foods`, whatever it ate afterwards.
    pub open spec fn acted_on(self, s: Creature, foods: Seq<Food>, width: int, height: int) -> bool {
        let actions = network_output(s.brain@, s.eye.vision(s.position, s.rotation as int, foods));
        self.stepped_from(s, actions[0] as int, actions[1] as int, width, height)
    }

    /// Turns and accelerates by the first two actions, each limited, then
    /// moves one step along the new heading at the new speed, wrapping onto
    /// the world.
    pub fn move_body(&mut self, actions: &Vec<i32>, width: i64, height: i64)
        requires
            old(self).wf(),
            actions@.len() >= 2,
            -HEADING_LIMIT <= old(self).rotation <= HEADING_LIMIT,
            0 < width <= MAX_EXTENT,
            0 < height <= MAX_EXTENT,
        ensures
            final(self).wf(),
            inside(final(self).position, width as int, height as int),
            final(self).moved_from(*old(self), actions@[0] as int, actions@[1] as int, width as int, height as int),
    {
        let turn: i64 = clamp_i64(actions[0] as i64, -ROTATION_ACCEL, ROTATION_ACCEL);
        let accel: i64 = clamp_i64(actions[1] as i64, -SPEED_ACCEL, SPEED_ACCEL);
        let rotation = self.rotation + turn;
        let h = heading(rotation);
        let speed = clamp_i64(self.speed + accel, SPEED_MIN, SPEED_MAX);
        let dx = mul_fixed(speed, sin(h));
        let dy = -mul_fixed(speed, cos(h));
        self.rotation = rotation;
        self.speed = speed;
        self.position.x = wrap_torus(self.position.x + dx, width);
        self.position.y = wrap_torus(self.position.y + dy, height);
    }

    /// Eats `food` when it lies within `FOOD_EATEN_DISTANCE` of the mouth:
    /// the meal is counted and `true` returned, so that the caller moves the
    /// food elsewhere.
    pub fn eat(&mut self, food: &Food) -> (r: bool)
        requires
            old(self).wf(),
        ensures
            final(self).wf(),
            r == reaches(*old(self), *food),
            final(self).eat == (if r && old(self).eat < u32::MAX {
                old(self).eat + 1
            } else {
                old(self).eat as int
            }),
            final(self).position == old(self).position,
            final(self).rotation == old(self).rotation,
            final(self).speed == old(self).speed,
            final(self).eye == old(self).eye,
            final(self).brain@ == old(self).brain@,
    {
        let h = heading(self.rotation);
        let mx = self.position.x + mul_fixed(MOUTH_POSITION, sin(h));
        let my = self.position.y - mul_fixed(MOUTH_POSITION, cos(h));
        let eaten = near(mx, my, food.position, FOOD_EATEN_DISTANCE);
        if eaten && self.eat < u32::MAX {
            self.eat = self.eat + 1;
        }
        eaten
    }

    /// Colour saturation from the meals so far: `eat / MAX_EAT`, at most 1.
    pub fn color_intensity(&self) -> (r: i64)
        ensures
            r == intensity(self.eat as int),
    {
        let v: i64 = (self.eat as i64) * ONE / (MAX_EAT as i64);
        if v > ONE {
            ONE
        } else {
            v
        }
    }
}

/// A coordinate after `k` ticks of the same step, wrapped onto `[0, size)`
/// after each tick.
pub open spec fn glide(start: int, step: int, size: int, k: nat) -> int
    decreases k,
{
    if k == 0 {
        start
    } else {
        torus(glide(start, step, size, (k - 1) as nat) + step, size)
    }
}

/// `nalgebra::wrap` onto `[0, size]`, with `size` itself taken as zero, is
/// the remainder by `size`.
proof fn lemma_wrap_onto(v: int, size: int)
    requires
        size > 0,
    ensures
        (if wrap_spec(v, 0, size) == size {
            0
        } else {
            wrap_spec(v, 0, size)
        }) == v % size,
{
    lemma_fundamental_div_mod(v, size);
    if v > size {
        let r = (size - v) % size;
        let q = (size - v) / size;
        lemma_fundamental_div_mod(size - v, size);
        assert(0 <= r < size) by (nonlinear_arith)
            requires
                size > 0,
                r == (size - v) % size,
        ;
        if r == 0 {
            assert(v == (1 - q) * size + 0) by (nonlinear_arith)
                requires
                    size - v == size * q + r,
                    r == 0,
            ;
            lemma_fundamental_div_mod_converse(v, size, 1 - q, 0);
        } else {
            assert(v == (-q) * size + (size - r)) by (nonlinear_arith)
                requires
                    size - v == size * q + r,
            ;
            lemma_fundamental_div_mod_converse(v, size, -q, size - r);
        }
    } else if v == size {
        lemma_fundamental_div_mod_converse(v, size, 1, 0);
    } else if v >= 0 {
        lemma_fundamental_div_mod_converse(v, size, 0, v);
    } else {
        assert(0 <= v % size < size) by (nonlinear_arith)
            requires
                size > 0,
        ;
    }
}

/// Straight-line motion: with both outputs of the brain zero, a creature
/// keeps its heading and its speed, so each coordinate moves by the same step
/// every tick; after `k` ticks it is the start moved by `k` steps, wrapped
/// onto the world.
pub proof fn lemma_straight_line(rotation: int, speed: int, start: int, step: int, size: int, k: nat)
    requires
        SPEED_MIN <= speed <= SPEED_MAX,
        0 <= start < size,
    ensures
        next_rotation(rotation, 0) == rotation,
        next_speed(speed, 0) == speed,
        glide(start, step, size, k) == (start + k * step) % size,
    decreases k,
{
    if k == 0 {
        assert(start + k * step == start) by (nonlinear_arith)
            requires
                k == 0,
        ;
        lemma_fundamental_div_mod_converse(start, size, 0, start);
    } else {
        lemma_straight_line(rotation, speed, start, step, size, (k - 1) as nat);
        let before = glide(start, step, size, (k - 1) as nat);
        lemma_add_mod_noop_right(step, start + (k - 1) * step, size);
        assert(start + (k - 1) * step + step == start + k * step) by (nonlinear_arith);
        assert((before + step) % size == (start + k * step) % size);
        assert(glide(start, step, size, k) == torus(before + step, size));
    }
}

fn clamp_i64(v: i64, lo: i64, hi: i64) -> (r: i64)
    requires
        lo <= hi,
    ensures
        r == clamp(v as int, lo as int, hi as int),
{
    if v < lo {
        lo
    } else if v > hi {
        hi
    } else {
        v
    }
}

proof fn lemma_wrap_range(v: int, min: int, max: int)
    requires
        min < max,
    ensures
        min <= wrap_spec(v, min, max) <= max,
        min <= v <= max ==> wrap_spec(v, min, max) == v,
{
    let w = max - min;
    assert(0 <= (v - min) % w < w) by (nonlinear_arith)
        requires
            w > 0,
    ;
    assert(0 <= (max - v) % w < w) by (nonlinear_arith)
        requires
            w > 0,
    ;
}

/// The direction of a heading, as [`heading_angle`] states it.
pub fn heading(rotation: i64) -> (r: i64)
    ensures
        r == heading_angle(rotation as int),
        -PI <= r <= PI,
{
    let turns = reduce_turns(rotation);
    proof {
        lemma_wrap_range(turns as int, -PI as int, PI as int);
    }
    wrap(turns, -PI, PI)
}

/// Less whole multiples of `size`, keeping the sign: the remainder by `size`
/// is the same.
proof fn lemma_same_mod(v: int, v1: int, size: int)
    requires
        size > 0,
        v >= 0 ==> v1 == v % size,
        v < 0 ==> v1 == -((-v) % size),
    ensures
        v1 % size == v % size,
        -size < v1 < size,
{
    if v >= 0 {
        lemma_fundamental_div_mod(v, size);
        assert(0 <= v % size < size) by (nonlinear_arith)
            requires
                size > 0,
        ;
        lemma_fundamental_div_mod_converse(v1, size, 0, v1);
    } else {
        let q = (-v) / size;
        let r = (-v) % size;
        lemma_fundamental_div_mod(-v, size);
        assert(0 <= r < size) by (nonlinear_arith)
            requires
                size > 0,
                r == (-v) % size,
        ;
        if r == 0 {
            assert(v == (-q) * size + 0) by (nonlinear_arith)
                requires
                    -v == size * q + r,
                    r == 0,
            ;
            lemma_fundamental_div_mod_converse(v, size, -q, 0);
            lemma_fundamental_div_mod_converse(v1, size, 0, 0);
        } else {
            assert(v == (-q - 1) * size + (size - r)) by (nonlinear_arith)
                requires
                    -v == size * q + r,
            ;
            lemma_fundamental_div_mod_converse(v, size, -q - 1, size - r);
            lemma_fundamental_div_mod_converse(v1, size, -1, size - r);
        }
    }
}

/// `v` wrapped onto `[0, size)`.
fn wrap_torus(v: i64, size: i64) -> (r: i64)
    requires
        0 < size,
    ensures
        r == torus(v as int, size as int),
        0 <= r < size,
{
    let v1: i64 = if v >= 0 {
        v % size
    } else {
        -(((-(v as i128)) % (size as i128)) as i64)
    };
    proof {
        lemma_same_mod(v as int, v1 as int, size as int);
        lemma_wrap_range(v1 as int, 0, size as int);
        lemma_wrap_onto(v1 as int, size as int);
        assert(0 <= (v as int) % (size as int) < size) by (nonlinear_arith)
            requires
                size > 0,
        ;
    }
    let w = wrap(v1, 0, size);
    if w == size {
        0
    } else {
        w
    }
}

/// The point `(x, y)` lies within `d` of `p`.
fn near(x: i64, y: i64, p: Point, d: i64) -> (r: bool)
    requires
        d >= 0,
    ensures
        r == ((p.x - x) * (p.x - x) + (p.y - y) * (p.y - y) <= d * d),
{
    let dx: i128 = p.x as i128 - x as i128;
    let dy: i128 = p.y as i128 - y as i128;
    let ax: u128 = if dx < 0 {
        (-dx) as u128
    } else {
        dx as u128
    };
    let ay: u128 = if dy < 0 {
        (-dy) as u128
    } else {
        dy as u128
    };
    assert(ax * ax == dx * dx && ay * ay == dy * dy) by (nonlinear_arith)
        requires
            ax == (if dx < 0 { -(dx as int) } else { dx as int }),
            ay == (if dy < 0 { -(dy as int) } else { dy as int }),
    ;
    assert(ax * ax < 0x1_0000_0000_0000_0000_0000_0000_0000_0000) by (nonlinear_arith)
        requires
            ax < 0x1_0000_0000_0000_0000,
    ;
    assert(ay * ay < 0x1_0000_0000_0000_0000_0000_0000_0000_0000) by (nonlinear_arith)
        requires
            ay < 0x1_0000_0000_0000_0000,
    ;
    assert((d as int) * (d as int) < 0x4000_0000_0000_0000_0000_0000_0000_0000) by (nonlinear_arith)
        requires
            0 <= d <= i64::MAX,
    ;
    let dd: u128 = (d as u128) * (d as u128);
    match (ax * ax).checked_add(ay * ay) {
        Some(s) => s <= dd,
        None => false,
    }
}

} // verus!
