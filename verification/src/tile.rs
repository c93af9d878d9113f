//! Integer cell coordinates, for code that reasons in whole cells rather than
//! in fixed-point positions.
use crate::fx::{abs_int, max_int};
use crate::hash::{fnv, le32, Hashable, Hasher};
use vstd::prelude::*;

verus! {

#[derive(Clone, Copy, PartialEq, Eq, Debug, Default, Hash, Structural)]
pub struct Tile {
    pub x: i32,
    pub y: i32,
}

pub open spec fn clamp_int(v: int, lo: int, hi: int) -> int {
    if v < lo {
        lo
    } else if v > hi {
        hi
    } else {
        v
    }
}

/// Clamp `v` into `lo..=hi`.
pub fn clamp_i32(v: i32, lo: i32, hi: i32) -> (r: i32)
    requires
        lo <= hi,
    ensures
        r == clamp_int(v as int, lo as int, hi as int),
{
    if v < lo {
        lo
    } else if v > hi {
        hi
    } else {
        v
    }
}

pub open spec fn sign(v: int) -> int {
    if v > 0 {
        1
    } else if v < 0 {
        -1
    } else {
        0
    }
}

impl Tile {
    pub fn zero() -> (r: Tile)
        ensures
            r == (Tile { x: 0, y: 0 }),
    {
        Tile { x: 0, y: 0 }
    }

    pub fn new(x: i32, y: i32) -> (r: Tile)
        ensures
            r == (Tile { x, y }),
    {
        Tile { x, y }
    }

    pub open spec fn spec_clamp(self, side: i32) -> Tile {
        let hi = max_int(side - 1, 0);
        Tile {
            x: clamp_int(self.x as int, 0, hi) as i32,
            y: clamp_int(self.y as int, 0, hi) as i32,
        }
    }

    /// Clamp to `[0, side) x [0, side)`; to the origin when `side` is not positive.
    pub fn clamp(self, side: i32) -> (r: Tile)
        ensures
            r == self.spec_clamp(side),
            side > 0 ==> 0 <= r.x < side && 0 <= r.y < side,
    {
        let hi: i32 = if side > 0 {
            side - 1
        } else {
            0
        };
        Tile { x: clamp_i32(self.x, 0, hi), y: clamp_i32(self.y, 0, hi) }
    }

    pub open spec fn spec_offset(self, dx: i32, dy: i32) -> Tile {
        Tile {
            x: clamp_int(self.x + dx, i32::MIN as int, i32::MAX as int) as i32,
            y: clamp_int(self.y + dy, i32::MIN as int, i32::MAX as int) as i32,
        }
    }

    /// Saturating displacement.
    pub fn offset(self, dx: i32, dy: i32) -> (r: Tile)
        ensures
            r == self.spec_offset(dx, dy),
    {
        Tile {
            x: crate::fx::saturate_i64(self.x as i64 + dx as i64),
            y: crate::fx::saturate_i64(self.y as i64 + dy as i64),
        }
    }
}

pub open spec fn chebyshev(a: Tile, b: Tile) -> int {
    max_int(abs_int(a.x - b.x), abs_int(a.y - b.y))
}

/// King-move distance: 1 for each of the eight neighbours. The distance must
/// itself be an `i32`.
pub fn chebyshev_dist(a: Tile, b: Tile) -> (r: i32)
    requires
        chebyshev(a, b) <= i32::MAX,
    ensures
        r == chebyshev(a, b),
{
    let dx: i64 = a.x as i64 - b.x as i64;
    let dy: i64 = a.y as i64 - b.y as i64;
    let ax: i64 = if dx < 0 {
        -dx
    } else {
        dx
    };
    let ay: i64 = if dy < 0 {
        -dy
    } else {
        dy
    };
    if ax > ay {
        ax as i32
    } else {
        ay as i32
    }
}

/// Visiting order of a 4-neighbour scan: N, E, S, W.
pub const NEIGHBOURS_4: [(i32, i32); 4] = [(0, -1), (1, 0), (0, 1), (-1, 0)];

/// Visiting order of an 8-neighbour scan: N, E, S, W, then NE, SE, SW, NW.
pub const NEIGHBOURS_8: [(i32, i32); 8] = [
    (0, -1),
    (1, 0),
    (0, 1),
    (-1, 0),
    (1, -1),
    (1, 1),
    (-1, 1),
    (-1, -1),
];

pub open spec fn spec_step_toward(from: Tile, to: Tile) -> Tile {
    Tile { x: (from.x + sign(to.x - from.x)) as i32, y: (from.y + sign(to.y - from.y)) as i32 }
}

fn step_axis(from: i32, to: i32) -> (r: i32)
    ensures
        r == from + sign(to - from),
{
    if to > from {
        from + 1
    } else if to < from {
        from - 1
    } else {
        from
    }
}

/// One king-move step from `from` toward `to`; `from` itself when they are equal.
pub fn step_toward(from: Tile, to: Tile) -> (r: Tile)
    ensures
        r == spec_step_toward(from, to),
{
    Tile { x: step_axis(from.x, to.x), y: step_axis(from.y, to.y) }
}

/// A step shortens the distance by one until it is zero, and then stays put.
pub proof fn law_step_approaches(from: Tile, to: Tile)
    ensures
        from == to ==> spec_step_toward(from, to) == from,
        from != to ==> chebyshev(spec_step_toward(from, to), to) == chebyshev(from, to) - 1,
        from != to ==> chebyshev(from, spec_step_toward(from, to)) == 1,
{
}

impl Hashable for Tile {
    open spec fn digest(&self, h: u64) -> u64 {
        fnv(fnv(h, le32(self.x as u32)), le32(self.y as u32))
    }

    fn hash_into(&self, h: &mut Hasher) {
        h.i32(self.x).i32(self.y);
    }
}

} // verus!
