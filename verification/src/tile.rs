//! Tile kinds of the grid. Only the ground/wall classification matters to
//! routing; the numbered variants are art variations.

use vstd::prelude::*;

verus! {

#[derive(Debug, Clone, Copy, PartialEq, Eq, Structural)]
pub enum Tile {
    Ground01,
    Ground02,
    Ground03,
    WallTop01,
    WallTop02,
    WallTop03,
    WallTop04,
    WallTop05,
    WallSide01,
    WallSide02,
    WallSide03,
    WallSide04,
    WallSide05,
    Red,
}

impl Tile {
    /// The tile is one of the wall-top variants.
    pub open spec fn is_wall_top_spec(self) -> bool {
        self is WallTop01 || self is WallTop02 || self is WallTop03 || self is WallTop04
            || self is WallTop05
    }

    /// The tile is one of the wall-side variants.
    pub open spec fn is_wall_side_spec(self) -> bool {
        self is WallSide01 || self is WallSide02 || self is WallSide03 || self is WallSide04
            || self is WallSide05
    }

    pub open spec fn is_wall_spec(self) -> bool {
        self.is_wall_top_spec() || self.is_wall_side_spec()
    }

    pub open spec fn is_ground_spec(self) -> bool {
        self is Ground01 || self is Ground02 || self is Ground03
    }

    /// Walls are the only tiles that block movement.
    pub open spec fn is_blocked_spec(self) -> bool {
        self.is_wall_spec()
    }

    pub fn is_wall(self) -> (r: bool)
        ensures
            r == self.is_wall_spec(),
    {
        matches!(
            self,
            Tile::WallTop01
                | Tile::WallTop02
                | Tile::WallTop03
                | Tile::WallTop04
                | Tile::WallTop05
                | Tile::WallSide01
                | Tile::WallSide02
                | Tile::WallSide03
                | Tile::WallSide04
                | Tile::WallSide05
        )
    }

    pub fn is_ground(self) -> (r: bool)
        ensures
            r == self.is_ground_spec(),
    {
        matches!(self, Tile::Ground01 | Tile::Ground02 | Tile::Ground03)
    }

    pub fn is_blocked(self) -> (r: bool)
        ensures
            r == self.is_blocked_spec(),
    {
        self.is_wall()
    }

    /// Position of the tile's art in the tile sheet, counted row-major in a
    /// sheet sixteen tiles wide.
    pub fn sheet_index(self) -> (r: u8)
        ensures
            self.is_ground_spec() ==> r < 16,
            self.is_wall_top_spec() ==> 16 <= r < 32,
            self.is_wall_side_spec() ==> 32 <= r < 48,
            self is Red ==> r == 96,
    {
        match self {
            Tile::Ground01 => 0,
            Tile::Ground02 => 1,
            Tile::Ground03 => 2,
            Tile::WallTop01 => 16,
            Tile::WallTop02 => 17,
            Tile::WallTop03 => 18,
            Tile::WallTop04 => 19,
            Tile::WallTop05 => 20,
            Tile::WallSide01 => 32,
            Tile::WallSide02 => 33,
            Tile::WallSide03 => 34,
            Tile::WallSide04 => 35,
            Tile::WallSide05 => 36,
            Tile::Red => 96,
        }
    }
}

} // verus!
