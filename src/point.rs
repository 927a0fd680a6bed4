use vstd::prelude::*;

use rand::Rng;

verus! {

/// An integer grid cell.
#[derive(Clone, Copy, Debug, PartialEq, Eq, Hash, Structural)]
pub struct Point2d {
    pub x: i32,
    pub y: i32,
}

impl Point2d {
    pub fn new(x: i32, y: i32) -> (r: Point2d)
        ensures
            r.x == x,
            r.y == y,
    {
        Point2d { x, y }
    }
}

/// Two distinct cells that touch by a side or a corner.
pub open spec fn adjacent(a: Point2d, b: Point2d) -> bool {
    a != b && -1 <= a.x - b.x <= 1 && -1 <= a.y - b.y <= 1
}

/// One of the eight compass directions.
#[derive(Clone, Copy, Debug, PartialEq, Eq, Structural)]
pub enum Direction {
    N,
    NE,
    E,
    SE,
    S,
    SW,
    W,
    NW,
}

/// The directions in ordinal order: the ordinal of `d` is its position here.
pub open spec fn direction_at(i: int) -> Direction {
    if i == 0 {
        Direction::S
    } else if i == 1 {
        Direction::SE
    } else if i == 2 {
        Direction::E
    } else if i == 3 {
        Direction::NE
    } else if i == 4 {
        Direction::N
    } else if i == 5 {
        Direction::NW
    } else if i == 6 {
        Direction::W
    } else {
        Direction::SW
    }
}

pub open spec fn direction_ordinal(d: Direction) -> int {
    match d {
        Direction::S => 0,
        Direction::SE => 1,
        Direction::E => 2,
        Direction::NE => 3,
        Direction::N => 4,
        Direction::NW => 5,
        Direction::W => 6,
        Direction::SW => 7,
    }
}

/// The opposite direction.
pub open spec fn reversed(d: Direction) -> Direction {
    direction_at((direction_ordinal(d) - 4) % 8)
}

/// The grid offset of one step in a direction (`y` grows southwards).
pub open spec fn offset_of(d: Direction) -> (int, int) {
    match d {
        Direction::N => (0, -1),
        Direction::NW => (-1, -1),
        Direction::W => (-1, 0),
        Direction::SW => (-1, 1),
        Direction::S => (0, 1),
        Direction::SE => (1, 1),
        Direction::E => (1, 0),
        Direction::NE => (1, -1),
    }
}

/// The direction whose step is the offset `(dx, dy)`, if any.
pub open spec fn direction_of_offset(dx: int, dy: int) -> Option<Direction> {
    if dx == 0 && dy == -1 {
        Some(Direction::N)
    } else if dx == -1 && dy == -1 {
        Some(Direction::NW)
    } else if dx == -1 && dy == 0 {
        Some(Direction::W)
    } else if dx == -1 && dy == 1 {
        Some(Direction::SW)
    } else if dx == 0 && dy == 1 {
        Some(Direction::S)
    } else if dx == 1 && dy == 1 {
        Some(Direction::SE)
    } else if dx == 1 && dy == 0 {
        Some(Direction::E)
    } else if dx == 1 && dy == -1 {
        Some(Direction::NE)
    } else {
        None
    }
}

/// The direction closest in angle to the vector `(dx, dy)`, with angles
/// measured from the positive `x` axis towards positive `y` and rounded to
/// the nearest multiple of 45 degrees; `(0, 0)` counts as angle zero.
/// A vector lies within 22.5 degrees of the `x` axis exactly when
/// `(|dx| + |dy|)^2 < 2 dx^2`, since tan(22.5 degrees) is `sqrt(2) - 1`.
pub open spec fn direction_towards(dx: int, dy: int) -> Direction {
    let ax = if dx < 0 { -dx } else { dx };
    let ay = if dy < 0 { -dy } else { dy };
    let s = (ax + ay) * (ax + ay);
    if s < 2 * ax * ax || (dx == 0 && dy == 0) {
        if dx >= 0 { Direction::E } else { Direction::W }
    } else if s < 2 * ay * ay {
        if dy > 0 { Direction::N } else { Direction::S }
    } else if dx > 0 {
        if dy > 0 { Direction::NE } else { Direction::SE }
    } else {
        if dy > 0 { Direction::NW } else { Direction::SW }
    }
}

/// Relies on rand's thread-local generator: `gen_range` returns a value of the
/// half-open range it is given, and panics on an empty one.
#[verifier::external_body]
fn random_below(n: usize) -> (r: usize)
    requires
        n > 0,
    ensures
        r < n,
{
    rand::thread_rng().gen_range(0..n)
}

impl Direction {
    /// The direction from cell `a` towards cell `b`, rounded to the nearest
    /// of the eight (see `direction_towards`).
    pub fn from_points(a: (i32, i32), b: (i32, i32)) -> (r: Direction)
        ensures
            r == direction_towards(b.0 - a.0, b.1 - a.1),
    {
        let dx: i64 = b.0 as i64 - a.0 as i64;
        let dy: i64 = b.1 as i64 - a.1 as i64;
        let ax: i128 = if dx < 0 { -dx as i128 } else { dx as i128 };
        let ay: i128 = if dy < 0 { -dy as i128 } else { dy as i128 };
        assert(0 <= ax < 0x1_0000_0000 && 0 <= ay < 0x1_0000_0000);
        assert((ax + ay) * (ax + ay) < 0x100_0000_0000_0000_0000) by (nonlinear_arith)
            requires
                0 <= ax < 0x1_0000_0000,
                0 <= ay < 0x1_0000_0000,
        ;
        assert(2 * ax * ax < 0x100_0000_0000_0000_0000) by (nonlinear_arith)
            requires
                0 <= ax < 0x1_0000_0000,
        ;
        assert(2 * ay * ay < 0x100_0000_0000_0000_0000) by (nonlinear_arith)
            requires
                0 <= ay < 0x1_0000_0000,
        ;
        let s: i128 = (ax + ay) * (ax + ay);
        if s < 2 * ax * ax || (dx == 0 && dy == 0) {
            if dx >= 0 { Direction::E } else { Direction::W }
        } else if s < 2 * ay * ay {
            if dy > 0 { Direction::N } else { Direction::S }
        } else if dx > 0 {
            if dy > 0 { Direction::NE } else { Direction::SE }
        } else {
            if dy > 0 { Direction::NW } else { Direction::SW }
        }
    }

    pub fn from_ordinal(ordinal: usize) -> (r: Direction)
        ensures
            r == direction_at(ordinal as int % 8),
    {
        let i = ordinal % 8;
        if i == 0 {
            Direction::S
        } else if i == 1 {
            Direction::SE
        } else if i == 2 {
            Direction::E
        } else if i == 3 {
            Direction::NE
        } else if i == 4 {
            Direction::N
        } else if i == 5 {
            Direction::NW
        } else if i == 6 {
            Direction::W
        } else {
            Direction::SW
        }
    }

    pub fn to_movement_offset(&self) -> (r: (i32, i32))
        ensures
            (r.0 as int, r.1 as int) == offset_of(*self),
    {
        match self {
            Direction::N => (0, -1),
            Direction::NW => (-1, -1),
            Direction::W => (-1, 0),
            Direction::SW => (-1, 1),
            Direction::S => (0, 1),
            Direction::SE => (1, 1),
            Direction::E => (1, 0),
            Direction::NE => (1, -1),
        }
    }

    pub fn ordinal(&self) -> (r: usize)
        ensures
            r == direction_ordinal(*self),
            direction_at(r as int) == *self,
    {
        match self {
            Direction::S => 0,
            Direction::SE => 1,
            Direction::E => 2,
            Direction::NE => 3,
            Direction::N => 4,
            Direction::NW => 5,
            Direction::W => 6,
            Direction::SW => 7,
        }
    }

    /// The direction `steps` eighths of a turn clockwise (counter-clockwise
    /// for negative `steps`), as on a compass.
    pub fn neighbor(&self, steps: i8) -> (r: Direction)
        ensures
            r == direction_at((direction_ordinal(*self) - steps) % 8),
    {
        let diff: i32 = self.ordinal() as i32 - steps as i32;
        let mut ord: i32 = diff % 8;
        if ord < 0 {
            ord = 8 + ord;
        }
        assert(ord == (direction_ordinal(*self) - steps) % 8);
        Direction::from_ordinal(ord as usize)
    }

    /// The opposite direction.
    pub fn reverse(&self) -> (r: Direction)
        ensures
            r == reversed(*self),
            offset_of(r) == (-offset_of(*self).0, -offset_of(*self).1),
    {
        self.neighbor(4)
    }

    /// Whether the direction is one of the four cardinal ones.
    pub fn is_straight(&self) -> (r: bool)
        ensures
            r == (offset_of(*self).0 == 0 || offset_of(*self).1 == 0),
    {
        *self == Direction::N || *self == Direction::E || *self == Direction::S || *self
            == Direction::W
    }

    fn from_movement_offset(dx: i64, dy: i64) -> (r: Option<Direction>)
        ensures
            r == direction_of_offset(dx as int, dy as int),
    {
        if dx == 0 && dy == -1 {
            Some(Direction::N)
        } else if dx == -1 && dy == -1 {
            Some(Direction::NW)
        } else if dx == -1 && dy == 0 {
            Some(Direction::W)
        } else if dx == -1 && dy == 1 {
            Some(Direction::SW)
        } else if dx == 0 && dy == 1 {
            Some(Direction::S)
        } else if dx == 1 && dy == 1 {
            Some(Direction::SE)
        } else if dx == 1 && dy == 0 {
            Some(Direction::E)
        } else if dx == 1 && dy == -1 {
            Some(Direction::NE)
        } else {
            None
        }
    }

    /// A direction picked at random, each with the same chance.
    pub fn choose8() -> (r: Direction) {
        Direction::from_ordinal(random_below(8))
    }

    /// All eight directions in ordinal order.
    pub fn iter8() -> (r: Vec<Direction>)
        ensures
            r@.len() == 8,
            forall|i: int| 0 <= i < 8 ==> #[trigger] r@[i] == direction_at(i),
    {
        vec![
            Direction::S,
            Direction::SE,
            Direction::E,
            Direction::NE,
            Direction::N,
            Direction::NW,
            Direction::W,
            Direction::SW,
        ]
    }

    /// The direction of the single step from `from` to `to`, if the two
    /// cells are adjacent.
    pub fn from_neighbors(from: Point2d, to: Point2d) -> (r: Option<Direction>)
        ensures
            r == direction_of_offset(to.x - from.x, to.y - from.y),
            r is Some <==> adjacent(from, to),
            r is Some ==> offset_of(r->Some_0) == (to.x - from.x, to.y - from.y),
    {
        Direction::from_movement_offset(to.x as i64 - from.x as i64, to.y as i64 - from.y as i64)
    }
}

} // verus!
