//! The tile grid: a flat row-major vector of tiles and its width. The raw
//! neighbor probes guard only against the ends of the flat vector; the
//! adjacency model adds the row-boundary guards for its sideways steps.

use vstd::prelude::*;
use crate::constants::GRID_MAX_DIM;
use crate::constants::GRID_MAX_LEN;
use crate::rng::random_in_u32;
use crate::rng::random_ratio;
use crate::tile::Tile;
use crate::utils::xy_to_index;

verus! {

#[derive(Debug)]
pub struct Tiles {
    pub tiles: Vec<Tile>,
    pub width: usize,
}

impl Tiles {
    /// The grid's dimensions are sane and every index fits the machine.
    pub open spec fn wf(self) -> bool {
        &&& 1 <= self.width <= GRID_MAX_DIM
        &&& self.tiles@.len() <= GRID_MAX_LEN
        &&& self.tiles@.len() <= self.width * GRID_MAX_DIM
    }

    /// Tile `index + width` lies below `index` in the following row.
    pub open spec fn below_is_ground(self, index: int) -> bool {
        index + self.width < self.tiles@.len() && self.tiles@[index
            + self.width].is_ground_spec()
    }

    /// Tile `index - width` lies above `index` in the preceding row.
    pub open spec fn above_is_wall(self, index: int) -> bool {
        index >= self.width && self.tiles@[index - self.width].is_wall_spec()
    }

    /// Builds the grid from level codes: code `1` is a wall, every other code
    /// is ground. Each tile is then re-tagged with an art variant; the
    /// wall/ground classification of every tile is exactly the code's.
    pub fn new(rng: &mut rand::rngs::ThreadRng, tiles: Vec<u8>, width: usize) -> (r: Tiles)
        requires
            1 <= width <= GRID_MAX_DIM,
            tiles@.len() <= GRID_MAX_LEN,
            tiles@.len() <= width * GRID_MAX_DIM,
        ensures
            r.wf(),
            r.width == width,
            r.tiles@.len() == tiles@.len(),
            forall|i: int|
                0 <= i < tiles@.len() ==> (#[trigger] r.tiles@[i].is_wall_spec() <==> tiles@[i]
                    == 1u8),
            forall|i: int|
                0 <= i < tiles@.len() ==> (#[trigger] r.tiles@[i].is_ground_spec() <==> tiles@[i]
                    != 1u8),
    {
        let n = tiles.len();
        let mut mapped: Vec<Tile> = Vec::new();
        for i in 0..n
            invariant
                n == tiles@.len(),
                mapped@.len() == i,
                forall|j: int|
                    0 <= j < i ==> (#[trigger] mapped@[j].is_wall_spec() <==> tiles@[j] == 1u8),
                forall|j: int|
                    0 <= j < i ==> (#[trigger] mapped@[j].is_ground_spec() <==> tiles@[j] != 1u8),
        {
            let t = if tiles[i] == 1 {
                Tile::WallTop01
            } else {
                Tile::Ground01
            };
            mapped.push(t);
        }

        let mut s = Tiles { tiles: mapped, width };

        for i in 0..n
            invariant
                s.wf(),
                s.width == width,
                s.tiles@.len() == n == tiles@.len(),
                forall|j: int|
                    0 <= j < n ==> (#[trigger] s.tiles@[j].is_wall_spec() <==> tiles@[j] == 1u8),
                forall|j: int|
                    0 <= j < n ==> (#[trigger] s.tiles@[j].is_ground_spec() <==> tiles@[j] != 1u8),
        {
            s.update_tile(rng, i);
        }

        s
    }

    /// Re-tags a wall tile with a wall-top variant, or a wall-side variant
    /// when ground lies directly below it. Ground tiles are left alone, and
    /// no tile's wall/ground classification changes.
    pub fn update_tile(&mut self, rng: &mut rand::rngs::ThreadRng, index: usize)
        requires
            old(self).wf(),
            index < old(self).tiles@.len(),
        ensures
            final(self).wf(),
            final(self).width == old(self).width,
            final(self).tiles@.len() == old(self).tiles@.len(),
            forall|j: int|
                0 <= j < old(self).tiles@.len() && j != index ==> final(self).tiles@[j] == old(
                    self,
                ).tiles@[j],
            !old(self).tiles@[index as int].is_wall_spec() ==> final(self).tiles@[index as int]
                == old(self).tiles@[index as int],
            old(self).tiles@[index as int].is_wall_spec() ==> {
                if old(self).below_is_ground(index as int) {
                    final(self).tiles@[index as int].is_wall_side_spec()
                } else {
                    final(self).tiles@[index as int].is_wall_top_spec()
                }
            },
    {
        if !self.tile_is_wall(index) {
            return ;
        }
        let top = self.random_wall_top(rng);
        self.tiles.set(index, top);

        if let Some(b) = self.tile_below(index) {
            if b.is_ground() {
                let side = self.random_wall_side(rng);
                self.tiles.set(index, side);
            }
        }
    }

    /// Re-tags a ground tile with a ground variant and, when a wall stands
    /// directly above it, re-tags that wall with a wall-side variant. No
    /// tile's blocking classification changes.
    pub fn update_neighbours(&mut self, rng: &mut rand::rngs::ThreadRng, index: usize)
        requires
            old(self).wf(),
            index < old(self).tiles@.len(),
        ensures
            final(self).wf(),
            final(self).width == old(self).width,
            final(self).tiles@.len() == old(self).tiles@.len(),
            !old(self).tiles@[index as int].is_wall_spec() && old(self).above_is_wall(index as int)
                ==> final(self).tiles@[index - old(self).width].is_wall_side_spec(),
            index >= old(self).width && !old(self).above_is_wall(index as int)
                ==> final(self).tiles@[index - old(self).width] == old(self).tiles@[index - old(
                self).width],
            forall|j: int|
                0 <= j < old(self).tiles@.len() ==> (final(self).tiles@[j].is_blocked_spec()
                    == old(self).tiles@[j].is_blocked_spec()),
            old(self).tiles@[index as int].is_wall_spec() ==> *final(self) == *old(self),
            forall|j: int|
                0 <= j < old(self).tiles@.len() && j != index && j != index - old(self).width
                    ==> final(self).tiles@[j] == old(self).tiles@[j],
            !old(self).tiles@[index as int].is_wall_spec() ==> final(self).tiles@[index
                as int].is_ground_spec(),
    {
        if self.tile_is_wall(index) {
            return ;
        }
        let g = self.random_ground(rng);
        self.tiles.set(index, g);

        if let Some(top) = self.tile_above(index) {
            if top.is_wall() {
                let side = self.random_wall_side(rng);
                self.tiles.set(index - self.width, side);
            }
        }
    }

    /// Stamps a `size`-by-`size` square of tile `t` whose corner is at
    /// `(x, y)`, then re-tags the stamped cells and their upper neighbors.
    /// Afterwards a tile blocks exactly when it lies in the square and `t`
    /// blocks, or lies outside it and blocked before.
    pub fn set_square(&mut self, rng: &mut rand::rngs::ThreadRng, x: usize, y: usize, size: usize, t: Tile)
        requires
            old(self).wf(),
            size >= 1,
            (x + size - 1) + (y + size - 1) * old(self).width < old(self).tiles@.len(),
        ensures
            final(self).wf(),
            final(self).width == old(self).width,
            final(self).tiles@.len() == old(self).tiles@.len(),
            forall|j: int|
                0 <= j < old(self).tiles@.len() ==> final(self).tiles@[j].is_blocked_spec() == (
                if in_square(j, x as int, y as int, size as int, old(self).width as int) {
                    t.is_blocked_spec()
                } else {
                    old(self).tiles@[j].is_blocked_spec()
                }),
    {
        proof {
            if y + size - 1 > 0 {
                vstd::arithmetic::mul::lemma_mul_increases(self.width as int, (y + size - 1) as int);
                vstd::arithmetic::mul::lemma_mul_is_commutative(
                    self.width as int, (y + size - 1) as int);
            }
            assert(x + size <= old(self).tiles@.len());
            assert(y + size <= old(self).tiles@.len());
        }
        let mut xi = x;
        while xi < x + size
            invariant
                self.wf(),
                self.width == old(self).width,
                self.tiles@.len() == old(self).tiles@.len(),
                x <= xi <= x + size,
                (x + size - 1) + (y + size - 1) * old(self).width < old(self).tiles@.len(),
                x + size <= old(self).tiles@.len(),
                y + size <= old(self).tiles@.len(),
                forall|j: int|
                    0 <= j < old(self).tiles@.len() ==> self.tiles@[j] == (
                    if in_part_square(j, x as int, xi as int, y as int, size as int,
                        old(self).width as int) {
                        t
                    } else {
                        old(self).tiles@[j]
                    }),
            decreases x + size - xi,
        {
            let mut yi = y;
            while yi < y + size
                invariant
                    self.wf(),
                    self.width == old(self).width,
                    self.tiles@.len() == old(self).tiles@.len(),
                    x <= xi < x + size,
                    y <= yi <= y + size,
                    (x + size - 1) + (y + size - 1) * old(self).width < old(self).tiles@.len(),
                    x + size <= old(self).tiles@.len(),
                    y + size <= old(self).tiles@.len(),
                x + size <= old(self).tiles@.len(),
                y + size <= old(self).tiles@.len(),
                    forall|j: int|
                        0 <= j < old(self).tiles@.len() ==> self.tiles@[j] == (
                        if in_part_square(j, x as int, xi as int, y as int, size as int,
                            old(self).width as int) || exists_row(j, xi as int, y as int,
                            yi as int, old(self).width as int) {
                            t
                        } else {
                            old(self).tiles@[j]
                        }),
                decreases y + size - yi,
            {
                proof {
                    lemma_square_index_in_range(x as int, xi as int, y as int, yi as int,
                        size as int, self.width as int, self.tiles@.len() as int);
                }
                let idx = xi + yi * self.width;
                proof {
                    assert(idx == cell_index(xi as int, yi as int, old(self).width as int));
                }
                self.tiles.set(idx, t);
                yi = yi + 1;
            }
            proof {
                let xs = x as int;
                let xii = xi as int;
                let ys = y as int;
                let sz = size as int;
                let w2 = old(self).width as int;
                assert forall|j: int| in_part_square(j, xs, xii, ys, sz, w2) || exists_row(
                    j, xii, ys, ys + sz, w2) implies in_part_square(j, xs, xii + 1, ys, sz, w2) by {
                    if in_part_square(j, xs, xii, ys, sz, w2) {
                        let (cx, cy) = choose|cx: int, cy: int|
                            xs <= cx < xii && ys <= cy < ys + sz && j == cell_index(cx, cy, w2);
                        assert(j == cell_index(cx, cy, w2));
                    } else {
                        let cy = choose|cy: int|
                            ys <= cy < ys + sz && j == cell_index(xii, cy, w2);
                        assert(j == cell_index(xii, cy, w2));
                    }
                }
                assert forall|j: int| in_part_square(j, xs, xii + 1, ys, sz, w2) implies
                    in_part_square(j, xs, xii, ys, sz, w2) || exists_row(j, xii, ys, ys + sz, w2) by {
                    let (cx, cy) = choose|cx: int, cy: int|
                        xs <= cx < xii + 1 && ys <= cy < ys + sz && j == cell_index(cx, cy, w2);
                    assert(j == cell_index(cx, cy, w2));
                }
            }
            xi = xi + 1;
        }

        proof {
            let xs = x as int;
            let ys = y as int;
            let sz = size as int;
            let w2 = old(self).width as int;
            assert forall|j: int| in_square(j, xs, ys, sz, w2) implies in_part_square(
                j, xs, xs + sz, ys, sz, w2) by {
                let (cx, cy) = choose|cx: int, cy: int|
                    xs <= cx < xs + sz && ys <= cy < ys + sz && j == cell_index(cx, cy, w2);
                assert(j == cell_index(cx, cy, w2));
            }
            assert forall|j: int| in_part_square(j, xs, xs + sz, ys, sz, w2) implies in_square(
                j, xs, ys, sz, w2) by {
                let (cx, cy) = choose|cx: int, cy: int|
                    xs <= cx < xs + sz && ys <= cy < ys + sz && j == cell_index(cx, cy, w2);
                assert(j == cell_index(cx, cy, w2));
            }
        }
        let mut x2 = x;
        while x2 < x + size
            invariant
                self.wf(),
                self.width == old(self).width,
                self.tiles@.len() == old(self).tiles@.len(),
                x <= x2 <= x + size,
                (x + size - 1) + (y + size - 1) * old(self).width < old(self).tiles@.len(),
                x + size <= old(self).tiles@.len(),
                y + size <= old(self).tiles@.len(),
                forall|j: int|
                    0 <= j < old(self).tiles@.len() ==> self.tiles@[j].is_blocked_spec() == (
                    if in_square(j, x as int, y as int, size as int, old(self).width as int) {
                        t.is_blocked_spec()
                    } else {
                        old(self).tiles@[j].is_blocked_spec()
                    }),
            decreases x + size - x2,
        {
            let mut y2 = y;
            while y2 < y + size
                invariant
                    self.wf(),
                    self.width == old(self).width,
                    self.tiles@.len() == old(self).tiles@.len(),
                    x <= x2 < x + size,
                    y <= y2 <= y + size,
                    (x + size - 1) + (y + size - 1) * old(self).width < old(self).tiles@.len(),
                    x + size <= old(self).tiles@.len(),
                    y + size <= old(self).tiles@.len(),
                x + size <= old(self).tiles@.len(),
                y + size <= old(self).tiles@.len(),
                    forall|j: int|
                        0 <= j < old(self).tiles@.len() ==> self.tiles@[j].is_blocked_spec() == (
                        if in_square(j, x as int, y as int, size as int, old(self).width as int) {
                            t.is_blocked_spec()
                        } else {
                            old(self).tiles@[j].is_blocked_spec()
                        }),
                decreases y + size - y2,
            {
                proof {
                    lemma_square_index_in_range(x as int, x2 as int, y as int, y2 as int,
                        size as int, self.width as int, self.tiles@.len() as int);
                }
                let index = xy_to_index(x2, y2, self.width);
                self.update_neighbours(rng, index);
                y2 = y2 + 1;
            }
            x2 = x2 + 1;
        }
    }

    /// The tile one row above `index`, when the flat vector has one.
    pub fn tile_above(&self, index: usize) -> (r: Option<Tile>)
        ensures
            r == (if index >= self.width && index - self.width < self.tiles@.len() {
                Some(self.tiles@[index - self.width])
            } else {
                Option::<Tile>::None
            }),
    {
        if index < self.width {
            return None;
        }
        let index = index - self.width;
        if index >= self.tiles.len() {
            return None;
        }
        Some(self.tiles[index])
    }

    /// The tile one row below `index`, when the flat vector has one.
    pub fn tile_below(&self, index: usize) -> (r: Option<Tile>)
        requires
            index + self.width <= usize::MAX,
        ensures
            r == (if index + self.width < self.tiles@.len() {
                Some(self.tiles@[index + self.width])
            } else {
                Option::<Tile>::None
            }),
    {
        let index = index + self.width;
        if index >= self.tiles.len() {
            return None;
        }
        Some(self.tiles[index])
    }

    /// The next tile of the flat vector, whatever row it falls in.
    pub fn tile_at_right(&self, index: usize) -> (r: Option<Tile>)
        requires
            index < usize::MAX,
        ensures
            r == (if index + 1 < self.tiles@.len() {
                Some(self.tiles@[index + 1])
            } else {
                Option::<Tile>::None
            }),
    {
        let index = index + 1;
        if index >= self.tiles.len() {
            return None;
        }
        Some(self.tiles[index])
    }

    /// The previous tile of the flat vector, whatever row it falls in.
    pub fn tile_at_left(&self, index: usize) -> (r: Option<Tile>)
        ensures
            r == (if 1 <= index && index - 1 < self.tiles@.len() {
                Some(self.tiles@[index - 1])
            } else {
                Option::<Tile>::None
            }),
    {
        if index == 0 {
            return None;
        }
        let index = index - 1;
        if index >= self.tiles.len() {
            return None;
        }
        Some(self.tiles[index])
    }

    fn tile_is_wall(&self, index: usize) -> (r: bool)
        requires
            index < self.tiles@.len(),
        ensures
            r == self.tiles@[index as int].is_wall_spec(),
    {
        let tile = self.tiles[index];
        tile.is_wall()
    }

    fn random_ground(&self, rng: &mut rand::rngs::ThreadRng) -> (r: Tile)
        ensures
            r.is_ground_spec(),
    {
        if random_ratio(rng, 90, 100) {
            return Tile::Ground01;
        }
        match random_in_u32(rng, 0, 3) {
            0 => Tile::Ground01,
            1 => Tile::Ground02,
            2 => Tile::Ground03,
            _ => Tile::Ground01,
        }
    }

    fn random_wall_top(&self, rng: &mut rand::rngs::ThreadRng) -> (r: Tile)
        ensures
            r.is_wall_top_spec(),
    {
        if random_ratio(rng, 85, 100) {
            return Tile::WallTop01;
        }
        match random_in_u32(rng, 0, 5) {
            0 => Tile::WallTop01,
            1 => Tile::WallTop02,
            2 => Tile::WallTop03,
            3 => Tile::WallTop04,
            4 => Tile::WallTop05,
            _ => Tile::WallTop01,
        }
    }

    fn random_wall_side(&self, rng: &mut rand::rngs::ThreadRng) -> (r: Tile)
        ensures
            r.is_wall_side_spec(),
    {
        if random_ratio(rng, 85, 100) {
            return Tile::WallSide01;
        }
        match random_in_u32(rng, 0, 5) {
            0 => Tile::WallSide01,
            1 => Tile::WallSide02,
            2 => Tile::WallSide03,
            3 => Tile::WallSide04,
            4 => Tile::WallSide05,
            _ => Tile::WallSide01,
        }
    }
}

/// The linear index of the cell in column `cx` of row `cy`.
pub open spec fn cell_index(cx: int, cy: int, width: int) -> int {
    cx + cy * width
}

/// `j` is the linear index of a cell of the `size`-square at `(x, y)`.
pub open spec fn in_square(j: int, x: int, y: int, size: int, width: int) -> bool {
    exists|cx: int, cy: int|
        x <= cx < x + size && y <= cy < y + size && j == #[trigger] cell_index(cx, cy, width)
}

/// `j` lies in the first `xi - x` completed columns of the square.
pub open spec fn in_part_square(j: int, x: int, xi: int, y: int, size: int, width: int) -> bool {
    exists|cx: int, cy: int|
        x <= cx < xi && y <= cy < y + size && j == #[trigger] cell_index(cx, cy, width)
}

/// `j` is the cell of column `xi` at some row up to `yi`.
pub open spec fn exists_row(j: int, xi: int, y: int, yi: int, width: int) -> bool {
    exists|cy: int| y <= cy < yi && j == #[trigger] cell_index(xi, cy, width)
}

proof fn lemma_square_index_in_range(x: int, cx: int, y: int, cy: int, size: int, width: int, n: int)
    requires
        0 <= x,
        0 <= y,
        size >= 1,
        x <= cx < x + size,
        y <= cy < y + size,
        width >= 1,
        (x + size - 1) + (y + size - 1) * width < n,
    ensures
        0 <= cx + cy * width < n,
{
    vstd::arithmetic::mul::lemma_mul_inequality(cy, y + size - 1, width);
    vstd::arithmetic::mul::lemma_mul_nonnegative(cy, width);
}

} // verus!
