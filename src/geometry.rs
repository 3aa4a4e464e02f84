use vstd::prelude::*;
use crate::cells::in_i32;

verus! {

/// A grid cell, named by its top-left corner; also a polygon vertex.
#[derive(Debug, Clone, Copy, PartialEq, Eq, Hash, Structural)]
pub struct Vec2 {
    pub x: i32,
    pub y: i32,
}

impl View for Vec2 {
    type V = (int, int);

    open spec fn view(&self) -> (int, int) {
        (self.x as int, self.y as int)
    }
}

impl Vec2 {
    pub fn new(x: i32, y: i32) -> (r: Vec2)
        ensures
            r.x == x,
            r.y == y,
    {
        Vec2 { x, y }
    }

    /// The componentwise sum of two coordinates.
    pub fn plus(self, rhs: Vec2) -> (r: Vec2)
        requires
            i32::MIN <= self.x + rhs.x <= i32::MAX,
            i32::MIN <= self.y + rhs.y <= i32::MAX,
        ensures
            r@ == (self@.0 + rhs@.0, self@.1 + rhs@.1),
    {
        Vec2 { x: self.x + rhs.x, y: self.y + rhs.y }
    }

    /// Both coordinates multiplied by `k`.
    pub fn times(self, k: i32) -> (r: Vec2)
        requires
            i32::MIN <= k * self.x <= i32::MAX,
            i32::MIN <= k * self.y <= i32::MAX,
        ensures
            r@ == (k * self@.0, k * self@.1),
    {
        Vec2 { x: k * self.x, y: k * self.y }
    }

    /// The neighbouring coordinate one unit away in direction `d`.
    pub fn moved(self, d: Direction) -> (r: Vec2)
        requires
            in_i32(step(self@, d)),
        ensures
            r@ == step(self@, d),
    {
        match d {
            Direction::Up => Vec2 { x: self.x, y: self.y - 1 },
            Direction::Down => Vec2 { x: self.x, y: self.y + 1 },
            Direction::Left => Vec2 { x: self.x - 1, y: self.y },
            Direction::Right => Vec2 { x: self.x + 1, y: self.y },
        }
    }

    /// The vertex as the pair `[x, y]`.
    pub fn to_vec(self) -> (r: Vec<i32>)
        ensures
            r@ == seq![self.x, self.y],
    {
        vec![self.x, self.y]
    }
}

/// A walking direction on the grid.
#[derive(Debug, Clone, Copy, PartialEq, Eq, Structural)]
pub enum Direction {
    Up,
    Down,
    Left,
    Right,
}

/// The corner one unit away from `p` in direction `d` (y grows downwards).
pub open spec fn step(p: (int, int), d: Direction) -> (int, int) {
    match d {
        Direction::Up => (p.0, p.1 - 1),
        Direction::Down => (p.0, p.1 + 1),
        Direction::Left => (p.0 - 1, p.1),
        Direction::Right => (p.0 + 1, p.1),
    }
}

} // verus!
