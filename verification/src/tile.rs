//! Tile kinds: the edge features a tile shows to its four neighbors, the
//! catalog of available kinds, and the record of a tile placed on the grid.

use vstd::prelude::*;

verus! {

/// The semantic content of one edge of a tile. `Field` is the featureless
/// edge (open grassland); it imposes and satisfies no special constraint
/// beyond equality with the neighboring edge.
#[derive(Clone, Copy, Debug, PartialEq, Eq, Structural)]
pub enum Feature {
    Field,
    City,
    Road,
    River,
}

/// One tile kind: the four edge features in canonical orientation
/// (index 0 = North, 1 = East, 2 = South, 3 = West), how many physical
/// copies of the kind exist, and two inert metadata flags.
#[derive(Clone, Debug)]
pub struct TileSpec {
    pub cloister: bool,
    pub shield: bool,
    pub edge_features: [Feature; 4],
    pub count: u32,
}

impl TileSpec {
    /// The feature facing absolute direction `d` (0=N, 1=E, 2=S, 3=W) when
    /// the tile is placed with `rot` clockwise quarter turns.
    pub open spec fn rotated_edge(self, rot: int, d: int) -> Feature {
        self.edge_features[(d + rot) % 4]
    }

    /// All four edges carry the same feature, so every rotation of the tile
    /// is indistinguishable for compatibility purposes.
    pub open spec fn is_symmetric(self) -> bool {
        forall|d: int| 0 <= d < 4 ==> #[trigger] self.edge_features[d] == self.edge_features[0]
    }

    /// Whether rotating this tile can make any difference: true exactly when
    /// the four edges are not all identical.
    pub fn can_be_rotated(&self) -> (r: bool)
        ensures
            r == !self.is_symmetric(),
    {
        let e0 = self.edge_features[0];
        let distinct = !(self.edge_features[1] == e0 && self.edge_features[2] == e0
            && self.edge_features[3] == e0);
        assert(!distinct ==> self.is_symmetric());
        distinct
    }
}

/// The ordered sequence of tile kinds. Indices into `specs` are the stable
/// identity of a kind for the whole engine; callers hand the engine half-open
/// index ranges into this sequence to select a sub-deck per phase.
pub struct TileCatalog {
    pub specs: Vec<TileSpec>,
}

impl TileCatalog {
    pub open spec fn spec_len(self) -> int {
        self.specs@.len() as int
    }

    pub open spec fn spec_at(self, i: int) -> TileSpec {
        self.specs@[i]
    }

    pub fn new(specs: Vec<TileSpec>) -> (c: TileCatalog)
        ensures
            c.specs@ == specs@,
    {
        TileCatalog { specs }
    }

    pub fn len(&self) -> (n: usize)
        ensures
            n == self.spec_len(),
    {
        self.specs.len()
    }
}

/// A tile committed to a grid cell: which catalog entry it is, and with how
/// many clockwise quarter turns it lies there.
#[derive(Clone, Copy, Debug, PartialEq, Eq, Structural)]
pub struct PlacedTile {
    pub tile_spec: usize,
    pub rotation: u8,
}

} // verus!
