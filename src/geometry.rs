//! Grid coordinates and the four ship rotations.

use vstd::prelude::*;

verus! {

/// One of the four orientations a ship can take.
#[derive(Clone, Copy, Debug, PartialEq, Eq, Structural)]
pub enum Rotation {
    Left,
    Down,
    Right,
    Up,
}

/// Ordinal of a rotation: `Left = 0, Down = 1, Right = 2, Up = 3`.
pub open spec fn ordinal(r: Rotation) -> nat {
    match r {
        Rotation::Left => 0,
        Rotation::Down => 1,
        Rotation::Right => 2,
        Rotation::Up => 3,
    }
}

/// The rotation with ordinal `v` (taken as `Up` past 2).
pub open spec fn rotation_of(v: int) -> Rotation {
    if v == 0 {
        Rotation::Left
    } else if v == 1 {
        Rotation::Down
    } else if v == 2 {
        Rotation::Right
    } else {
        Rotation::Up
    }
}

/// The `i`-th of the three rotations other than `r`, in the order
/// `Left, Down, Right, Up`.
pub open spec fn other_rotation(r: Rotation, i: int) -> Rotation {
    rotation_of(if i < ordinal(r) { i } else { i + 1 })
}

/// Direction flag of a rotation: 1 for `Left` and `Down`, 0 for `Right` and `Up`.
pub open spec fn direction_flag(r: Rotation) -> nat {
    match r {
        Rotation::Left | Rotation::Down => 1,
        Rotation::Right | Rotation::Up => 0,
    }
}

/// Two rotations whose ordinals differ in parity see the shape transposed.
pub open spec fn transposes(from: Rotation, to: Rotation) -> bool {
    ordinal(from) % 2 != ordinal(to) % 2
}

/// Two rotations whose direction flags differ see the shape mirrored.
pub open spec fn mirrors(from: Rotation, to: Rotation) -> bool {
    direction_flag(from) != direction_flag(to)
}

impl Rotation {
    /// The rotation with the given ordinal.
    pub fn from_value(v: u64) -> (r: Rotation)
        requires
            v < 4,
        ensures
            r == rotation_of(v as int),
            ordinal(r) == v,
    {
        if v == 0 {
            Rotation::Left
        } else if v == 1 {
            Rotation::Down
        } else if v == 2 {
            Rotation::Right
        } else {
            Rotation::Up
        }
    }

    /// The `i`-th of the three rotations other than this one, in the order
    /// `Left, Down, Right, Up`.
    pub fn other(&self, i: u64) -> (r: Rotation)
        requires
            i < 3,
        ensures
            r == other_rotation(*self, i as int),
    {
        if i < self.value() {
            Rotation::from_value(i)
        } else {
            Rotation::from_value(i + 1)
        }
    }

    /// A rotation drawn uniformly from the four.
    pub fn random() -> (r: Rotation) {
        let v = crate::random::random_below(4);
        Rotation::from_value(v as u64)
    }

    pub fn value(&self) -> (r: u64)
        ensures
            r == ordinal(*self),
    {
        match self {
            Rotation::Left => 0,
            Rotation::Down => 1,
            Rotation::Right => 2,
            Rotation::Up => 3,
        }
    }

    pub fn direction(&self) -> (r: u64)
        ensures
            r == direction_flag(*self),
    {
        match self {
            Rotation::Left => 1,
            Rotation::Down => 1,
            Rotation::Right => 0,
            Rotation::Up => 0,
        }
    }
}

/// A pair of non-negative integers, used both as a point and as a size.
/// `x` counts columns, `y` counts rows.
#[derive(Clone, Copy, Debug, PartialEq, Eq, Structural, Hash)]
pub struct Vec2 {
    pub x: u64,
    pub y: u64,
}

/// Half-open rectangle containment on plain integers.
pub open spec fn inside(px: int, py: int, sx: int, sy: int, w: int, h: int) -> bool {
    sx <= px < sx + w && sy <= py < sy + h
}

impl Vec2 {
    pub fn new(x: u64, y: u64) -> (r: Vec2)
        ensures
            r.x == x,
            r.y == y,
    {
        Vec2 { x, y }
    }

    /// The transposed pair `(y, x)`.
    pub fn swap(&self) -> (r: Vec2)
        ensures
            r.x == self.y,
            r.y == self.x,
    {
        Vec2 { x: self.y, y: self.x }
    }

    pub fn x(&self) -> (r: u64)
        ensures
            r == self.x,
    {
        self.x
    }

    pub fn y(&self) -> (r: u64)
        ensures
            r == self.y,
    {
        self.y
    }

    pub fn set_x(&mut self, x: u64)
        ensures
            *final(self) == (Vec2 { x, y: old(self).y }),
    {
        self.x = x;
    }

    pub fn set_y(&mut self, y: u64)
        ensures
            *final(self) == (Vec2 { x: old(self).x, y }),
    {
        self.y = y;
    }

    /// Componentwise sum.
    pub fn add(&self, other: &Vec2) -> (r: Vec2)
        requires
            self.x + other.x <= u64::MAX,
            self.y + other.y <= u64::MAX,
        ensures
            r.x == self.x + other.x,
            r.y == self.y + other.y,
    {
        Vec2 { x: self.x + other.x, y: self.y + other.y }
    }

    /// Componentwise difference; only defined where neither axis goes below zero.
    pub fn sub(&self, other: &Vec2) -> (r: Vec2)
        requires
            self.x >= other.x,
            self.y >= other.y,
        ensures
            r.x == self.x - other.x,
            r.y == self.y - other.y,
    {
        Vec2 { x: self.x - other.x, y: self.y - other.y }
    }

    /// Greater than or equal on both axes.
    pub fn ge(&self, other: &Vec2) -> (r: bool)
        ensures
            r == (self.x >= other.x && self.y >= other.y),
    {
        self.x >= other.x && self.y >= other.y
    }

    /// Less than on both axes.
    pub fn lt(&self, other: &Vec2) -> (r: bool)
        ensures
            r == (self.x < other.x && self.y < other.y),
    {
        self.x < other.x && self.y < other.y
    }

    /// Whether this point lies in the rectangle of the given size whose corner is `start`.
    pub fn is_inside(&self, start: &Vec2, size: &Vec2) -> (r: bool)
        requires
            start.x + size.x <= u64::MAX,
            start.y + size.y <= u64::MAX,
        ensures
            r == inside(self.x as int, self.y as int, start.x as int, start.y as int,
                size.x as int, size.y as int),
    {
        let end = start.add(size);
        self.ge(start) && self.lt(&end)
    }
}

} // verus!
