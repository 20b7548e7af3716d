//! Points of the world and the food that lies on them.

use vstd::prelude::*;

verus! {

/// A point of the world, in fixed point.
#[derive(Clone, Copy, Debug, PartialEq, Eq, Structural)]
pub struct Point {
    pub x: i64,
    pub y: i64,
}

impl Point {
    pub fn new(x: i64, y: i64) -> (r: Point)
        ensures
            r.x == x,
            r.y == y,
    {
        Point { x, y }
    }
}

/// A food item. Eaten food is moved elsewhere, never removed.
#[derive(Clone, Copy, Debug)]
pub struct Food {
    pub position: Point,
    pub is_eaten: bool,
}

impl Food {
    pub fn new(position: Point) -> (r: Food)
        ensures
            r.position == position,
            !r.is_eaten,
    {
        Food { position, is_eaten: false }
    }
}

/// Two food items are the same when they lie at the same point.
impl PartialEq for Food {
    fn eq(&self, other: &Food) -> (r: bool) {
        self.position == other.position
    }
}

impl vstd::std_specs::cmp::PartialEqSpecImpl for Food {
    open spec fn obeys_eq_spec() -> bool {
        true
    }

    open spec fn eq_spec(&self, other: &Food) -> bool {
        self.position == other.position
    }
}

} // verus!
