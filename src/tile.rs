use vstd::prelude::*;

verus! {

/// The content of one cell.
#[derive(Debug, Clone, Copy, PartialEq, Eq, Hash, Structural)]
pub enum Tile {
    Empty,
    Bomb,
    /// A safe cell with this many bombs (1 to 8) among its neighbours.
    BombNeighbor(u8),
}

/// The mutable state of one cell.
#[derive(Debug, Clone, Copy, PartialEq, Eq, Hash, Structural)]
pub enum CellState {
    Covered,
    Flagged,
    Uncovered,
}

/// The tile of a safe cell that has `n` bombs around it.
pub open spec fn tile_for_count(n: nat) -> Tile {
    if n == 0 {
        Tile::Empty
    } else {
        Tile::BombNeighbor(n as u8)
    }
}

impl Tile {
    /// The tile of a safe cell with `n` bombs around it.
    pub fn from_count(n: u8) -> (r: Tile)
        requires
            n <= 8,
        ensures
            r == tile_for_count(n as nat),
    {
        if n == 0 {
            Tile::Empty
        } else {
            Tile::BombNeighbor(n)
        }
    }

    pub fn is_bomb(&self) -> (r: bool)
        ensures
            r == (*self is Bomb),
    {
        match self {
            Tile::Bomb => true,
            _ => false,
        }
    }
}

} // verus!
