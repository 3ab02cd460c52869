use vstd::prelude::*;

verus! {

/// A position on the grid: `x` is the column, `y` the row.
#[derive(Debug, Clone, Copy, PartialEq, Eq, Hash, Structural)]
pub struct Coordinates {
    pub x: i32,
    pub y: i32,
}

/// Two distinct positions that touch by a side or a corner.
pub open spec fn adjacent(a: Coordinates, b: Coordinates) -> bool {
    &&& a != b
    &&& -1 <= a.x - b.x <= 1
    &&& -1 <= a.y - b.y <= 1
}

impl Coordinates {
    pub fn new(x: i32, y: i32) -> (r: Coordinates)
        ensures
            r.x == x,
            r.y == y,
    {
        Coordinates { x, y }
    }
}

} // verus!
