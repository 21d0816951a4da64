//! The tile grid of one level.
use vstd::prelude::*;
use crate::fixed::{cell_of, floor_cell, MAX_COORD};

verus! {

/// Largest number of rows or columns a grid may have: every point of the
/// largest grid stays within the coordinate range.
pub const MAX_GRID_DIM: usize = 1_000_000;

/// An immutable rectangular grid of tile codes (`0` is empty, any other code
/// is a wall material), with the world positions of the level's coins.
pub struct GridMap {
    pub width: usize,
    pub height: usize,
    /// Rows, indexed by `y` then `x`.
    pub data: Vec<Vec<u8>>,
    pub coins: Vec<(i64, i64)>,
}

/// A coin position lies within the coordinate range.
pub open spec fn coord_ok(p: (i64, i64)) -> bool {
    -MAX_COORD <= p.0 <= MAX_COORD && -MAX_COORD <= p.1 <= MAX_COORD
}

/// Rows all of length `width`.
pub open spec fn rectangular(rows: Seq<Vec<u8>>, width: int) -> bool {
    forall|j: int| 0 <= j < rows.len() ==> (#[trigger] rows[j])@.len() == width
}

impl GridMap {
    pub open spec fn wf(&self) -> bool {
        &&& self.width <= MAX_GRID_DIM
        &&& self.height <= MAX_GRID_DIM
        &&& self.data@.len() == self.height
        &&& rectangular(self.data@, self.width as int)
        &&& forall|k: int| 0 <= k < self.coins@.len() ==> coord_ok(#[trigger] self.coins@[k])
    }

    pub open spec fn in_bounds(&self, ix: int, iy: int) -> bool {
        0 <= ix < self.width && 0 <= iy < self.height
    }

    /// Tile code of an in-bounds cell.
    pub open spec fn cell(&self, ix: int, iy: int) -> u8 {
        self.data@[iy]@[ix]
    }

    /// A cell blocks when it is outside the grid or holds a non-zero code.
    pub open spec fn solid_cell(&self, ix: int, iy: int) -> bool {
        !self.in_bounds(ix, iy) || self.cell(ix, iy) != 0
    }

    /// A fixed-point point blocks when the cell it lies in blocks.
    pub open spec fn blocks(&self, x: int, y: int) -> bool {
        self.solid_cell(cell_of(x), cell_of(y))
    }

    /// Builds a grid from its rows and coin positions. Fails when the rows
    /// are not all of one length, when either dimension exceeds
    /// `MAX_GRID_DIM`, or when a coin lies outside the coordinate range.
    pub fn new(data: Vec<Vec<u8>>, coins: Vec<(i64, i64)>) -> (r: Option<GridMap>)
        ensures
            r.is_some() <==> {
                let w = if data@.len() == 0 { 0int } else { data@[0]@.len() as int };
                &&& data@.len() <= MAX_GRID_DIM
                &&& w <= MAX_GRID_DIM
                &&& rectangular(data@, w)
                &&& forall|k: int| 0 <= k < coins@.len() ==> coord_ok(#[trigger] coins@[k])
            },
            r.is_some() ==> {
                let g = r.unwrap();
                &&& g.wf()
                &&& g.data@ == data@
                &&& g.coins@ == coins@
                &&& g.height == data@.len()
            },
    {
        let height = data.len();
        if height > MAX_GRID_DIM {
            return None;
        }
        let width = if height == 0 { 0 } else { data[0].len() };
        if width > MAX_GRID_DIM {
            return None;
        }
        let mut j: usize = 0;
        while j < height
            invariant
                height == data@.len(),
                width == (if height == 0 { 0int } else { data@[0]@.len() as int }),
                0 <= j <= height,
                forall|i: int| 0 <= i < j ==> (#[trigger] data@[i])@.len() == width,
            decreases height - j,
        {
            if data[j].len() != width {
                return None;
            }
            j = j + 1;
        }
        let mut k: usize = 0;
        while k < coins.len()
            invariant
                0 <= k <= coins@.len(),
                forall|i: int| 0 <= i < k ==> coord_ok(#[trigger] coins@[i]),
            decreases coins@.len() - k,
        {
            let (cx, cy) = coins[k];
            if cx < -MAX_COORD || cx > MAX_COORD || cy < -MAX_COORD || cy > MAX_COORD {
                return None;
            }
            k = k + 1;
        }
        Some(GridMap { width, height, data, coins })
    }

    /// Tile code at cell `(ix, iy)`, which must lie inside the grid.
    pub fn get_cell(&self, ix: usize, iy: usize) -> (r: u8)
        requires
            self.wf(),
            self.in_bounds(ix as int, iy as int),
        ensures
            r == self.cell(ix as int, iy as int),
    {
        self.data[iy][ix]
    }

    /// Whether cell `(ix, iy)` blocks: outside the grid or non-empty.
    pub fn is_wall_cell(&self, ix: i64, iy: i64) -> (r: bool)
        requires
            self.wf(),
        ensures
            r == self.solid_cell(ix as int, iy as int),
    {
        if ix < 0 || iy < 0 || ix >= self.width as i64 || iy >= self.height as i64 {
            true
        } else {
            self.data[iy as usize][ix as usize] != 0
        }
    }

    /// Whether the fixed-point point `(x, y)` lies in a blocking cell.
    pub fn is_wall(&self, x: i64, y: i64) -> (r: bool)
        requires
            self.wf(),
        ensures
            r == self.blocks(x as int, y as int),
    {
        self.is_wall_cell(floor_cell(x), floor_cell(y))
    }

    /// The coin positions recorded with the level.
    pub fn get_coin_positions(&self) -> (r: Vec<(i64, i64)>)
        ensures
            r@ == self.coins@,
    {
        let mut r: Vec<(i64, i64)> = Vec::new();
        let mut k: usize = 0;
        while k < self.coins.len()
            invariant
                0 <= k <= self.coins@.len(),
                r@ == self.coins@.subrange(0, k as int),
            decreases self.coins@.len() - k,
        {
            r.push(self.coins[k]);
            k = k + 1;
        }
        assert(r@ == self.coins@.subrange(0, self.coins@.len() as int));
        assert(self.coins@.subrange(0, self.coins@.len() as int) =~= self.coins@);
        r
    }
}

} // verus!
