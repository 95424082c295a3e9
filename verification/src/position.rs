//! Grid coordinates: signed points for arithmetic, unsigned positions for
//! cells that entities occupy.

use vstd::prelude::*;
use vstd::std_specs::convert::TryIntoSpec;

verus! {

/// A signed pair of grid coordinates; also used as a displacement.
#[derive(Debug, Clone, Copy, PartialEq, Eq, Structural, Hash)]
pub struct Coord {
    pub x: i32,
    pub y: i32,
}

impl Coord {
    /// The point `(x, y)`.
    pub fn new(x: i32, y: i32) -> (p: Self)
        ensures
            p.x == x,
            p.y == y,
    {
        Coord { x, y }
    }
}

/// The cell an entity occupies. Coordinates are never negative.
#[derive(Debug, Clone, Copy, PartialEq, Eq, Structural, Hash)]
pub struct Position {
    pub x: u16,
    pub y: u16,
}

/// The coordinate that `Position + Coord` keeps along one axis: the sum where
/// it fits, zero where it does not.
pub open spec fn shifted(base: u16, delta: i32) -> u16 {
    if 0 <= base + delta <= u16::MAX {
        (base + delta) as u16
    } else {
        0
    }
}

/// Manhattan distance between two points.
pub open spec fn manhattan(ax: int, ay: int, bx: int, by: int) -> int {
    (if ax >= bx { ax - bx } else { bx - ax }) + (if ay >= by { ay - by } else { by - ay })
}

impl Default for Position {
    /// The top-left cell.
    fn default() -> (p: Self)
        ensures
            p.x == 0,
            p.y == 0,
    {
        Position { x: 0, y: 0 }
    }
}

impl Position {
    /// `v` converts to 16 unsigned bits without loss.
    pub open spec fn fits<T: TryInto<u16>>(v: T) -> bool {
        T::obeys_try_into_spec() && v.try_into_spec().is_ok()
    }

    /// Builds a position from any integer type. Coordinates that do not fit
    /// in 16 unsigned bits are excluded.
    pub fn new<T>(x: T, y: T) -> (p: Self) where T: TryInto<u16> + Copy
        requires
            Self::fits(x),
            Self::fits(y),
        ensures
            Ok::<u16, T::Error>(p.x) == x.try_into_spec(),
            Ok::<u16, T::Error>(p.y) == y.try_into_spec(),
    {
        let px: Result<u16, T::Error> = x.try_into();
        let py: Result<u16, T::Error> = y.try_into();
        match (px, py) {
            (Ok(x), Ok(y)) => Position { x, y },
            _ => Position { x: 0, y: 0 },
        }
    }

    /// The position of a point with coordinates in range.
    pub fn from_point(p: Coord) -> (r: Self)
        requires
            0 <= p.x <= u16::MAX,
            0 <= p.y <= u16::MAX,
        ensures
            r.x == p.x,
            r.y == p.y,
    {
        Position { x: p.x as u16, y: p.y as u16 }
    }

    /// The position of a point, or `None` when a coordinate is negative or
    /// too large.
    pub fn try_from_point(p: Coord) -> (r: Option<Self>)
        ensures
            r.is_some() <==> (0 <= p.x <= u16::MAX && 0 <= p.y <= u16::MAX),
            r.is_some() ==> r.unwrap().x == p.x && r.unwrap().y == p.y,
    {
        if 0 <= p.x && p.x <= 65535 && 0 <= p.y && p.y <= 65535 {
            Some(Position { x: p.x as u16, y: p.y as u16 })
        } else {
            None
        }
    }

    /// The point with the same coordinates.
    pub open spec fn to_point_spec(self) -> Coord {
        Coord { x: self.x as i32, y: self.y as i32 }
    }

    /// The point with the same coordinates.
    pub fn to_point(self) -> (p: Coord)
        ensures
            p == self.to_point_spec(),
    {
        Coord { x: self.x as i32, y: self.y as i32 }
    }

    /// Both coordinates as indices.
    pub fn to_pair(self) -> (r: (usize, usize))
        ensures
            r.0 == self.x,
            r.1 == self.y,
    {
        (self.x as usize, self.y as usize)
    }

    /// Moves by `d`. A coordinate that would leave the representable range
    /// becomes zero.
    pub fn add(self, d: Coord) -> (r: Self)
        ensures
            r.x == shifted(self.x, d.x),
            r.y == shifted(self.y, d.y),
    {
        let nx: i64 = self.x as i64 + d.x as i64;
        let ny: i64 = self.y as i64 + d.y as i64;
        Position {
            x: if 0 <= nx && nx <= 65535 { nx as u16 } else { 0 },
            y: if 0 <= ny && ny <= 65535 { ny as u16 } else { 0 },
        }
    }

    /// Manhattan distance to another position.
    pub fn distance(self, other: Position) -> (d: u32)
        ensures
            d == manhattan(self.x as int, self.y as int, other.x as int, other.y as int),
    {
        let dx: u32 = if self.x >= other.x { (self.x - other.x) as u32 } else { (other.x - self.x) as u32 };
        let dy: u32 = if self.y >= other.y { (self.y - other.y) as u32 } else { (other.y - self.y) as u32 };
        dx + dy
    }
}

} // verus!
