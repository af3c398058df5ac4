//! Pixel positions and the eight-neighbourhood.

use vstd::prelude::*;

verus! {

/// A pixel position: column `x`, row `y`, counted from the top left corner.
#[derive(Clone, Copy, Debug, PartialEq, Eq, Structural)]
pub struct Point {
    pub x: u32,
    pub y: u32,
}

/// Two distinct pixels that touch by a side or by a corner.
pub open spec fn adjacent(a: Point, b: Point) -> bool {
    &&& a != b
    &&& a.x - b.x <= 1
    &&& b.x - a.x <= 1
    &&& a.y - b.y <= 1
    &&& b.y - a.y <= 1
}

/// The place of `b` among the neighbours of `a`, counted row by row from the
/// top left neighbour: a number in `0..9` other than 4 when the two are
/// adjacent.
pub open spec fn direction(a: Point, b: Point) -> int {
    (b.y - a.y + 1) * 3 + (b.x - a.x + 1)
}

/// `a` comes before `b` when the pixels are read row by row.
pub open spec fn precedes(a: Point, b: Point) -> bool {
    a.y < b.y || (a.y == b.y && a.x < b.x)
}

} // verus!
