//! GameMap geometry: a fixed `width x height` grid of tiles, row-major with the
//! origin at the top left, and the walkability rule that move validation is
//! built on. A cell is valid iff it lies within bounds, and walkable iff it
//! is valid and its tile is not a wall.

use vstd::prelude::*;

verus! {

/// One cell of the grid. Immutable once the map is constructed.
#[derive(Clone, Copy, Debug, PartialEq, Eq)]
pub enum Tile {
    Empty,
    Wall,
}

/// A fixed grid of tiles, stored row-major: the tile at `(x, y)` sits at
/// index `y * width + x`. Dimensions never change after construction.
#[derive(Clone, Debug)]
pub struct GameMap {
    pub width: usize,
    pub height: usize,
    pub tiles: Vec<Tile>,
}

impl GameMap {
    /// The map's shape invariant: the tile vector covers the whole grid, and
    /// both dimensions fit in `i32` so that every cell is addressable by the
    /// signed coordinates that characters use.
    pub open spec fn wf(self) -> bool {
        &&& self.tiles@.len() == self.width * self.height
        &&& self.width <= i32::MAX
        &&& self.height <= i32::MAX
    }

    /// The tile at `(x, y)`, for in-bounds coordinates.
    pub open spec fn tile_at(self, x: int, y: int) -> Tile {
        self.tiles@[y * self.width + x]
    }

    /// A cell is valid iff it lies within the grid bounds.
    pub open spec fn spec_valid(self, x: int, y: int) -> bool {
        0 <= x < self.width && 0 <= y < self.height
    }

    /// A cell is walkable iff it is valid and its tile is not a wall.
    pub open spec fn spec_walkable(self, x: int, y: int) -> bool {
        self.spec_valid(x, y) && self.tile_at(x, y) != Tile::Wall
    }

    pub fn new(width: usize, height: usize, tiles: Vec<Tile>) -> (m: GameMap)
        requires
            tiles@.len() == width * height,
            width <= i32::MAX,
            height <= i32::MAX,
        ensures
            m.wf(),
            m.width == width,
            m.height == height,
            m.tiles@ == tiles@,
    {
        GameMap { width, height, tiles }
    }

    /// Bounds check: true iff `(x, y)` lies within the grid.
    pub fn is_valid_position(&self, x: i32, y: i32) -> (r: bool)
        ensures
            r == self.spec_valid(x as int, y as int),
    {
        x >= 0 && (x as usize) < self.width && y >= 0 && (y as usize) < self.height
    }

    /// Walkability check: bounds are checked before any tile lookup, so the
    /// call is safe for arbitrary coordinates, negative ones included.
    pub fn is_walkable(&self, x: i32, y: i32) -> (r: bool)
        requires
            self.wf(),
        ensures
            r == self.spec_walkable(x as int, y as int),
    {
        if self.is_valid_position(x, y) {
            let xi = x as usize;
            let yi = y as usize;
            let n = self.tiles.len();
            assert(yi * self.width + xi < n) by (nonlinear_arith)
                requires
                    xi < self.width,
                    yi < self.height,
                    n == self.width * self.height,
            ;
            let idx = yi * self.width + xi;
            match self.tiles[idx] {
                Tile::Wall => false,
                Tile::Empty => true,
            }
        } else {
            false
        }
    }

    /// Runtime test of the shape invariant, for callers outside the proof
    /// boundary that must check it before relying on it.
    pub fn check_wf(&self) -> (b: bool)
        ensures
            b == self.wf(),
    {
        if !(self.width <= (i32::MAX as usize) && self.height <= (i32::MAX as usize)) {
            return false;
        }
        let len = self.tiles.len();
        match self.width.checked_mul(self.height) {
            Some(n) => len == n,
            None => false,
        }
    }

    /// A verified copy of the map, used when a snapshot is taken.
    pub fn duplicate(&self) -> (m: GameMap)
        ensures
            m.width == self.width,
            m.height == self.height,
            m.tiles@ == self.tiles@,
            self.wf() ==> m.wf(),
    {
        let mut tiles: Vec<Tile> = Vec::new();
        let mut i: usize = 0;
        while i < self.tiles.len()
            invariant
                i <= self.tiles@.len(),
                tiles@.len() == i,
                forall|j: int| 0 <= j < i ==> tiles@[j] == self.tiles@[j],
            decreases self.tiles@.len() - i,
        {
            tiles.push(self.tiles[i]);
            i += 1;
        }
        assert(tiles@ =~= self.tiles@);
        GameMap { width: self.width, height: self.height, tiles }
    }
}

/// Walkability characterization: for every map and every cell, `(x, y)` is
/// walkable exactly when it lies within bounds and its tile is not a wall.
pub proof fn lemma_walkable_characterization(m: GameMap, x: int, y: int)
    ensures
        m.spec_walkable(x, y) <==> (0 <= x < m.width && 0 <= y < m.height && m.tile_at(x, y)
            != Tile::Wall),
{
}

/// The wall layout of the default map: which cells of the fixed 10 x 10
/// starting grid carry a wall.
pub open spec fn default_map_wall(x: int, y: int) -> bool {
    ||| (y == 0 && x == 3)
    ||| (y == 1 && (x == 1 || x == 3 || x == 5))
    ||| (y == 2 && x == 7)
    ||| (y == 3 && (x == 0 || x == 2))
    ||| (y == 4 && (x == 4 || x == 8))
    ||| (y == 5 && x == 6)
    ||| (y == 6 && (x == 1 || x == 9))
    ||| (y == 7 && (x == 3 || x == 7))
    ||| (y == 8 && (x == 2 || x == 5))
    ||| (y == 9 && x == 8)
}

fn default_wall_cell(x: usize, y: usize) -> (w: bool)
    ensures
        w == default_map_wall(x as int, y as int),
{
    match y {
        0 => x == 3,
        1 => x == 1 || x == 3 || x == 5,
        2 => x == 7,
        3 => x == 0 || x == 2,
        4 => x == 4 || x == 8,
        5 => x == 6,
        6 => x == 1 || x == 9,
        7 => x == 3 || x == 7,
        8 => x == 2 || x == 5,
        9 => x == 8,
        _ => false,
    }
}

/// The fixed 10 x 10 starting map, with its wall pattern given by
/// `default_map_wall` and every other cell empty.
pub fn create_default_map() -> (m: GameMap)
    ensures
        m.wf(),
        m.width == 10,
        m.height == 10,
        forall|x: int, y: int|
            0 <= x < 10 && 0 <= y < 10 ==> m.tile_at(x, y) == (if default_map_wall(x, y) {
                Tile::Wall
            } else {
                Tile::Empty
            }),
{
    let mut tiles: Vec<Tile> = Vec::new();
    let mut idx: usize = 0;
    while idx < 100
        invariant
            idx <= 100,
            tiles@.len() == idx,
            forall|j: int|
                0 <= j < idx ==> tiles@[j] == (if default_map_wall(j % 10, j / 10) {
                    Tile::Wall
                } else {
                    Tile::Empty
                }),
        decreases 100 - idx,
    {
        let x = idx % 10;
        let y = idx / 10;
        let w = default_wall_cell(x, y);
        tiles.push(if w { Tile::Wall } else { Tile::Empty });
        idx += 1;
    }
    let m = GameMap::new(10, 10, tiles);
    proof {
        assert forall|x: int, y: int| 0 <= x < 10 && 0 <= y < 10 implies m.tile_at(x, y) == (
        if default_map_wall(x, y) {
            Tile::Wall
        } else {
            Tile::Empty
        }) by {
            let j = y * 10 + x;
            assert(j % 10 == x && j / 10 == y) by (nonlinear_arith)
                requires
                    0 <= x < 10,
                    0 <= y < 10,
                    j == y * 10 + x,
            ;
            assert(m.tile_at(x, y) == m.tiles@[j]);
        }
    }
    m
}

} // verus!
