//! The rectangular grid of optional placed tiles, and the rotation-aware
//! edge-compatibility predicate both placement phases rely on.

use vstd::prelude::*;
use crate::tile::{Feature, PlacedTile, TileCatalog};

verus! {

/// Horizontal unit offset of absolute direction `d` (0=N, 1=E, 2=S, 3=W).
pub open spec fn dir_dx(d: int) -> int {
    if d == 1 {
        1
    } else if d == 3 {
        -1
    } else {
        0
    }
}

/// Vertical unit offset of absolute direction `d` (north is negative).
pub open spec fn dir_dy(d: int) -> int {
    if d == 0 {
        -1
    } else if d == 2 {
        1
    } else {
        0
    }
}

/// The direction pointing back: north/south and east/west swap.
pub open spec fn opposite(d: int) -> int {
    (d + 2) % 4
}

/// The feature a placed tile shows toward absolute direction `d`.
pub open spec fn edge_toward(c: TileCatalog, t: PlacedTile, d: int) -> Feature {
    c.spec_at(t.tile_spec as int).rotated_edge(t.rotation as int, d)
}

/// A 2D board of `size_x × size_y` cells, each empty or holding one placed
/// tile. Stored row-major; the dimensions are fixed for the grid's lifetime.
pub struct Grid {
    size_x: usize,
    size_y: usize,
    tiles: Vec<Option<PlacedTile>>,
}

impl Grid {
    pub closed spec fn spec_size_x(self) -> int {
        self.size_x as int
    }

    pub closed spec fn spec_size_y(self) -> int {
        self.size_y as int
    }

    /// The cell contents in row-major order.
    pub closed spec fn cells(self) -> Seq<Option<PlacedTile>> {
        self.tiles@
    }

    pub open spec fn area(self) -> int {
        self.spec_size_x() * self.spec_size_y()
    }

    pub open spec fn wf(self) -> bool {
        &&& 1 <= self.spec_size_x() <= 0x7fff_ffff
        &&& 1 <= self.spec_size_y() <= 0x7fff_ffff
        &&& self.cells().len() == self.area()
        &&& self.cells().len() <= usize::MAX
    }

    pub open spec fn in_bounds(self, x: int, y: int) -> bool {
        0 <= x < self.spec_size_x() && 0 <= y < self.spec_size_y()
    }

    pub open spec fn flat_idx(self, x: int, y: int) -> int {
        y * self.spec_size_x() + x
    }

    /// The content of cell `(x, y)`; meaningful only in bounds.
    pub open spec fn at(self, x: int, y: int) -> Option<PlacedTile> {
        self.cells()[self.flat_idx(x, y)]
    }

    pub open spec fn is_empty_grid(self) -> bool {
        forall|i: int| 0 <= i < self.cells().len() ==> #[trigger] self.cells()[i] is None
    }

    pub open spec fn same_dims(self, other: Grid) -> bool {
        self.spec_size_x() == other.spec_size_x() && self.spec_size_y() == other.spec_size_y()
    }
}

pub broadcast proof fn lemma_flat_idx_bounds(g: Grid, x: int, y: int)
    requires
        g.wf(),
        g.in_bounds(x, y),
    ensures
        0 <= #[trigger] g.flat_idx(x, y) < g.cells().len(),
{
    assert(0 <= y * g.spec_size_x() + x < g.spec_size_x() * g.spec_size_y())
        by (nonlinear_arith)
        requires
            0 <= x < g.spec_size_x(),
            0 <= y < g.spec_size_y(),
    ;
}

/// Distinct in-bounds coordinates land on distinct row-major indices.
pub proof fn lemma_flat_idx_injective(g: Grid, x1: int, y1: int, x2: int, y2: int)
    requires
        g.wf(),
        g.in_bounds(x1, y1),
        g.in_bounds(x2, y2),
        g.flat_idx(x1, y1) == g.flat_idx(x2, y2),
    ensures
        x1 == x2 && y1 == y2,
{
    assert(x1 == x2 && y1 == y2) by (nonlinear_arith)
        requires
            0 <= x1 < g.spec_size_x(),
            0 <= x2 < g.spec_size_x(),
            0 <= y1 < g.spec_size_y(),
            0 <= y2 < g.spec_size_y(),
            y1 * g.spec_size_x() + x1 == y2 * g.spec_size_x() + x2,
    ;
}

/// One direction of the compatibility check for a candidate `(tile, rot)` at
/// `(x, y)`: either the neighbor cell in direction `d` is off-grid or empty,
/// or the feature it shows back equals the candidate's feature toward `d`.
pub open spec fn dir_passes(
    g: Grid,
    c: TileCatalog,
    tile: int,
    x: int,
    y: int,
    rot: int,
    d: int,
) -> bool {
    let nx = x + dir_dx(d);
    let ny = y + dir_dy(d);
    (g.in_bounds(nx, ny) && g.at(nx, ny) is Some) ==> edge_toward(
        c,
        g.at(nx, ny)->Some_0,
        opposite(d),
    ) == c.spec_at(tile).rotated_edge(rot, d)
}

/// The tile kind `tile` may be placed at `(x, y)` with rotation `rot`:
/// all four directions pass. A pure function of the grid state and the
/// arguments.
pub open spec fn spec_can_place(g: Grid, c: TileCatalog, tile: int, x: int, y: int, rot: int) -> bool {
    forall|d: int| 0 <= d < 4 ==> #[trigger] dir_passes(g, c, tile, x, y, rot, d)
}

/// The tile already placed at `(x, y)`, if any, agrees with its neighbor in
/// direction `d`.
pub open spec fn placed_matches(g: Grid, c: TileCatalog, x: int, y: int, d: int) -> bool {
    match g.at(x, y) {
        Some(t) => dir_passes(g, c, t.tile_spec as int, x, y, t.rotation as int, d),
        None => true,
    }
}

/// Every pair of occupied neighboring cells agrees on the feature crossing
/// their shared edge.
pub open spec fn all_matched(g: Grid, c: TileCatalog) -> bool {
    forall|x: int, y: int, d: int|
        g.in_bounds(x, y) && 0 <= d < 4 ==> #[trigger] placed_matches(g, c, x, y, d)
}

/// Every placed tile names a catalog entry and a quarter-turn rotation.
pub open spec fn placed_valid(g: Grid, c: TileCatalog) -> bool {
    forall|x: int, y: int|
        g.in_bounds(x, y) && (#[trigger] g.at(x, y)) is Some ==> {
            let t = g.at(x, y)->Some_0;
            t.tile_spec < c.spec_len() && t.rotation < 4
        }
}

/// Every placed tile comes from the catalog index range `[lo, hi)`, names a
/// kind with a positive copy count — a member of the deck built over the
/// range — and lies at a quarter-turn rotation.
pub open spec fn placed_in_range(g: Grid, c: TileCatalog, lo: int, hi: int) -> bool {
    forall|x: int, y: int|
        g.in_bounds(x, y) && (#[trigger] g.at(x, y)) is Some ==> {
            let t = g.at(x, y)->Some_0;
            lo <= t.tile_spec < hi && c.spec_at(t.tile_spec as int).count > 0 && t.rotation < 4
        }
}

/// The river edge of the tile at `(x, y)` in direction `d`, if there is one,
/// does not point at an in-bounds empty cell.
pub open spec fn river_edge_ok(g: Grid, c: TileCatalog, x: int, y: int, d: int) -> bool {
    match g.at(x, y) {
        Some(t) => (edge_toward(c, t, d) == Feature::River && g.in_bounds(
            x + dir_dx(d),
            y + dir_dy(d),
        )) ==> g.at(x + dir_dx(d), y + dir_dy(d)) is Some,
        None => true,
    }
}

/// No placed tile has a river edge pointing at an in-bounds empty cell.
pub open spec fn river_closed(g: Grid, c: TileCatalog) -> bool {
    forall|x: int, y: int, d: int|
        g.in_bounds(x, y) && 0 <= d < 4 ==> #[trigger] river_edge_ok(g, c, x, y, d)
}

/// How many cells of a row-major cell sequence are empty.
pub open spec fn empties(s: Seq<Option<PlacedTile>>) -> nat
    decreases s.len(),
{
    if s.len() == 0 {
        0
    } else {
        empties(s.drop_last()) + (if s.last() is None {
            1nat
        } else {
            0nat
        })
    }
}

pub proof fn lemma_empties_le_len(s: Seq<Option<PlacedTile>>)
    ensures
        empties(s) <= s.len(),
    decreases s.len(),
{
    if s.len() > 0 {
        lemma_empties_le_len(s.drop_last());
    }
}

pub proof fn lemma_empties_all_none(s: Seq<Option<PlacedTile>>)
    requires
        forall|i: int| 0 <= i < s.len() ==> #[trigger] s[i] is None,
    ensures
        empties(s) == s.len(),
    decreases s.len(),
{
    if s.len() > 0 {
        lemma_empties_all_none(s.drop_last());
    }
}

pub proof fn lemma_empties_all_some(s: Seq<Option<PlacedTile>>)
    requires
        forall|i: int| 0 <= i < s.len() ==> (#[trigger] s[i]) is Some,
    ensures
        empties(s) == 0,
    decreases s.len(),
{
    if s.len() > 0 {
        lemma_empties_all_some(s.drop_last());
    }
}

/// Filling one empty cell lowers the empty count by one.
pub proof fn lemma_empties_update(s: Seq<Option<PlacedTile>>, i: int, v: Option<PlacedTile>)
    requires
        0 <= i < s.len(),
        s[i] is None,
        v is Some,
    ensures
        empties(s.update(i, v)) + 1 == empties(s),
    decreases s.len(),
{
    if i == s.len() - 1 {
        assert(s.update(i, v).drop_last() =~= s.drop_last());
    } else {
        assert(s.update(i, v).drop_last() =~= s.drop_last().update(i, v));
        lemma_empties_update(s.drop_last(), i, v);
    }
}

pub proof fn lemma_empties_take_step(s: Seq<Option<PlacedTile>>, i: int)
    requires
        0 <= i < s.len(),
    ensures
        empties(s.take(i + 1)) == empties(s.take(i)) + (if s[i] is None {
            1nat
        } else {
            0nat
        }),
{
    assert(s.take(i + 1).drop_last() =~= s.take(i));
}

pub proof fn lemma_empties_take_all(s: Seq<Option<PlacedTile>>)
    ensures
        empties(s.take(s.len() as int)) == empties(s),
{
    assert(s.take(s.len() as int) =~= s);
}

impl Grid {
    /// Allocate an empty grid. The sizes fit machine arithmetic by the
    /// caller's choice of dimensions.
    pub fn new(size_x: usize, size_y: usize) -> (g: Grid)
        requires
            1 <= size_x <= 0x7fff_ffff,
            1 <= size_y <= 0x7fff_ffff,
            size_x * size_y <= usize::MAX,
        ensures
            g.wf(),
            g.spec_size_x() == size_x,
            g.spec_size_y() == size_y,
            g.is_empty_grid(),
    {
        let total = size_x * size_y;
        let mut tiles: Vec<Option<PlacedTile>> = Vec::new();
        let mut i: usize = 0;
        while i < total
            invariant
                i <= total,
                tiles@.len() == i,
                forall|j: int| 0 <= j < i ==> #[trigger] tiles@[j] is None,
            decreases total - i,
        {
            tiles.push(None);
            i += 1;
        }
        Grid { size_x, size_y, tiles }
    }

    pub fn size_x(&self) -> (r: usize)
        ensures
            r == self.spec_size_x(),
    {
        self.size_x
    }

    pub fn size_y(&self) -> (r: usize)
        ensures
            r == self.spec_size_y(),
    {
        self.size_y
    }

    pub fn is_valid_position(&self, x: i32, y: i32) -> (r: bool)
        ensures
            r == self.in_bounds(x as int, y as int),
    {
        x >= 0 && y >= 0 && (x as usize) < self.size_x && (y as usize) < self.size_y
    }

    /// The row-major index of an in-bounds cell.
    fn flat_index(&self, x: usize, y: usize) -> (i: usize)
        requires
            self.wf(),
            self.in_bounds(x as int, y as int),
        ensures
            i == self.flat_idx(x as int, y as int),
            i < self.cells().len(),
    {
        proof {
            lemma_flat_idx_bounds(*self, x as int, y as int);
        }
        y * self.size_x + x
    }

    /// Read the content of an in-bounds cell.
    pub fn get_tile(&self, x: usize, y: usize) -> (r: Option<PlacedTile>)
        requires
            self.wf(),
            self.in_bounds(x as int, y as int),
        ensures
            r == self.at(x as int, y as int),
    {
        let i = self.flat_index(x, y);
        self.tiles[i]
    }

    /// How many cells are still empty — the observable measure of the
    /// engine's possibly incomplete coverage.
    pub fn count_empty_cells(&self) -> (r: usize)
        requires
            self.wf(),
        ensures
            r == empties(self.cells()),
    {
        let n = self.tiles.len();
        let mut count: usize = 0;
        let mut i: usize = 0;
        while i < n
            invariant
                i <= n,
                n == self.cells().len(),
                count == empties(self.cells().take(i as int)),
                count <= i,
            decreases n - i,
        {
            proof {
                lemma_empties_take_step(self.cells(), i as int);
            }
            if self.tiles[i].is_none() {
                count += 1;
            }
            i += 1;
        }
        proof {
            lemma_empties_take_all(self.cells());
        }
        count
    }

    /// True exactly for an in-bounds, still-empty cell; out-of-bounds
    /// coordinates report false.
    pub fn has_no_tile(&self, x: i32, y: i32) -> (r: bool)
        requires
            self.wf(),
        ensures
            r == (self.in_bounds(x as int, y as int) && self.at(x as int, y as int) is None),
    {
        if !self.is_valid_position(x, y) {
            return false;
        }
        let i = self.flat_index(x as usize, y as usize);
        self.tiles[i].is_none()
    }

    /// Commit a tile to cell `(x, y)`, leaving every other cell unchanged.
    pub fn set_tile(&mut self, x: usize, y: usize, t: PlacedTile)
        requires
            old(self).wf(),
            old(self).in_bounds(x as int, y as int),
        ensures
            final(self).wf(),
            final(self).same_dims(*old(self)),
            final(self).cells() == old(self).cells().update(
                old(self).flat_idx(x as int, y as int),
                Some(t),
            ),
            final(self).at(x as int, y as int) == Some(t),
            forall|x2: int, y2: int|
                old(self).in_bounds(x2, y2) && !(x2 == x as int && y2 == y as int)
                    ==> final(self).at(x2, y2) == old(self).at(x2, y2),
    {
        let i = self.flat_index(x, y);
        self.tiles.set(i, Some(t));
        proof {
            assert forall|x2: int, y2: int|
                old(self).in_bounds(x2, y2) && !(x2 == x as int && y2 == y as int) implies self.at(
                x2,
                y2,
            ) == old(self).at(x2, y2) by {
                lemma_flat_idx_bounds(*old(self), x2, y2);
                if old(self).flat_idx(x2, y2) == old(self).flat_idx(x as int, y as int) {
                    lemma_flat_idx_injective(*old(self), x2, y2, x as int, y as int);
                }
            }
        }
    }

    /// Reset every cell to empty; the dimensions stay.
    pub fn clear_tiles(&mut self)
        requires
            old(self).wf(),
        ensures
            final(self).wf(),
            final(self).same_dims(*old(self)),
            final(self).is_empty_grid(),
    {
        let n = self.tiles.len();
        let mut i: usize = 0;
        while i < n
            invariant
                i <= n,
                self.tiles@.len() == n,
                self.size_x == old(self).size_x,
                self.size_y == old(self).size_y,
                old(self).wf(),
                forall|j: int| 0 <= j < i ==> #[trigger] self.tiles@[j] is None,
            decreases n - i,
        {
            self.tiles.set(i, None);
            i += 1;
        }
    }

    /// The rotation-aware compatibility check: the candidate may be placed
    /// exactly when, for each direction, the neighbor is off-grid, empty, or
    /// shows the matching feature back. Pure: the result is a function of the
    /// grid state and the arguments alone.
    #[verifier::rlimit(50)]
    pub fn can_be_placed(
        &self,
        catalog: &TileCatalog,
        tile: usize,
        x: usize,
        y: usize,
        rotation: u8,
    ) -> (r: bool)
        requires
            self.wf(),
            placed_valid(*self, *catalog),
            tile < catalog.spec_len(),
            self.in_bounds(x as int, y as int),
        ensures
            r == spec_can_place(*self, *catalog, tile as int, x as int, y as int, rotation as int),
    {
        let tile_spec = &catalog.specs[tile];
        let mut d: usize = 0;
        while d < 4
            invariant
                d <= 4,
                self.wf(),
                placed_valid(*self, *catalog),
                tile < catalog.spec_len(),
                self.in_bounds(x as int, y as int),
                tile_spec == catalog.specs@[tile as int],
                forall|dd: int|
                    0 <= dd < d ==> #[trigger] dir_passes(
                        *self,
                        *catalog,
                        tile as int,
                        x as int,
                        y as int,
                        rotation as int,
                        dd,
                    ),
            decreases 4 - d,
        {
            let ef = tile_spec.edge_features[(d + rotation as usize) % 4];
            let (dx, dy): (i32, i32) = match d {
                0 => (0, -1),
                1 => (1, 0),
                2 => (0, 1),
                _ => (-1, 0),
            };
            let nx = x as i32 + dx;
            let ny = y as i32 + dy;
            if self.is_valid_position(nx, ny) {
                let ni = self.flat_index(nx as usize, ny as usize);
                match self.tiles[ni] {
                    Some(other) => {
                        proof {
                            assert(self.at(nx as int, ny as int) == Some(other));
                        }
                        let other_spec = &catalog.specs[other.tile_spec];
                        let back = other_spec.edge_features[
                            (2 + d + other.rotation as usize) % 4
                        ];
                        if back != ef {
                            proof {
                                assert(!dir_passes(
                                    *self,
                                    *catalog,
                                    tile as int,
                                    x as int,
                                    y as int,
                                    rotation as int,
                                    d as int,
                                ));
                            }
                            return false;
                        }
                        proof {
                            assert(dir_passes(
                                *self,
                                *catalog,
                                tile as int,
                                x as int,
                                y as int,
                                rotation as int,
                                d as int,
                            ));
                        }
                    },
                    None => {
                        proof {
                            assert(self.at(nx as int, ny as int) is None);
                        }
                    },
                }
            }
            d += 1;
        }
        true
    }
}

} // verus!
