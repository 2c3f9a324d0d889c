//! The engine's global guarantees, stated and proved once: matching is
//! preserved by every accepted placement, rotation is irrelevant for a
//! symmetric tile, a closed matched grid has no dangling river edge, and the
//! compatibility check is a pure function of grid state and arguments.

use vstd::prelude::*;
use crate::tile::{Feature, PlacedTile, TileCatalog};
use crate::grid::{
    Grid, all_matched, dir_dx, dir_dy, dir_passes, edge_toward, lemma_flat_idx_bounds, opposite,
    placed_matches, river_closed, river_edge_ok, spec_can_place,
};

verus! {

/// For a direction code, the opposite direction: it is again a direction,
/// undoes itself, and points back along the same axis.
pub proof fn lemma_opposite(d: int)
    requires
        0 <= d < 4,
    ensures
        0 <= opposite(d) < 4,
        opposite(opposite(d)) == d,
        dir_dx(opposite(d)) == -dir_dx(d),
        dir_dy(opposite(d)) == -dir_dy(d),
{
}

/// On an empty grid every cell is unoccupied, so the matching invariant
/// holds vacuously.
pub proof fn lemma_empty_grid_matched(g: Grid, c: TileCatalog)
    requires
        g.wf(),
        g.is_empty_grid(),
    ensures
        all_matched(g, c),
{
    assert forall|x: int, y: int, d: int|
        g.in_bounds(x, y) && 0 <= d < 4 implies placed_matches(g, c, x, y, d) by {
        lemma_flat_idx_bounds(g, x, y);
    }
}

/// On an empty grid no direction imposes a constraint, so any tile may be
/// seeded anywhere in bounds with any rotation.
pub proof fn lemma_empty_grid_can_place(g: Grid, c: TileCatalog, tile: int, x: int, y: int, rot: int)
    requires
        g.wf(),
        g.is_empty_grid(),
    ensures
        spec_can_place(g, c, tile, x, y, rot),
{
    assert forall|d: int| 0 <= d < 4 implies dir_passes(g, c, tile, x, y, rot, d) by {
        let nx = x + dir_dx(d);
        let ny = y + dir_dy(d);
        if g.in_bounds(nx, ny) {
            lemma_flat_idx_bounds(g, nx, ny);
        }
    }
}

/// The matching invariant survives every accepted placement: if all occupied
/// neighbor pairs of `g1` agree on their shared edges and the candidate
/// passes the compatibility check, then after committing the candidate to
/// `(x, y)` — and changing nothing else — all occupied neighbor pairs still
/// agree, regardless of phase.
pub proof fn lemma_placement_preserves_matching(
    g1: Grid,
    g2: Grid,
    c: TileCatalog,
    tile: usize,
    x: int,
    y: int,
    rot: u8,
)
    requires
        g1.wf(),
        g2.wf(),
        g2.same_dims(g1),
        g1.in_bounds(x, y),
        all_matched(g1, c),
        spec_can_place(g1, c, tile as int, x, y, rot as int),
        g2.at(x, y) == Some(PlacedTile { tile_spec: tile, rotation: rot }),
        forall|x2: int, y2: int|
            g1.in_bounds(x2, y2) && !(x2 == x && y2 == y) ==> g2.at(x2, y2) == g1.at(x2, y2),
    ensures
        all_matched(g2, c),
{
    assert forall|x2: int, y2: int, d: int|
        g2.in_bounds(x2, y2) && 0 <= d < 4 implies placed_matches(g2, c, x2, y2, d) by {
        let nx = x2 + dir_dx(d);
        let ny = y2 + dir_dy(d);
        if g2.at(x2, y2) is Some && g2.in_bounds(nx, ny) && g2.at(nx, ny) is Some {
            let t = g2.at(x2, y2)->Some_0;
            assert(!(nx == x2 && ny == y2));
            if x2 == x && y2 == y {
                assert(g2.at(nx, ny) == g1.at(nx, ny));
                assert(dir_passes(g1, c, tile as int, x, y, rot as int, d));
                assert(dir_passes(g2, c, t.tile_spec as int, x2, y2, t.rotation as int, d));
            } else {
                assert(g2.at(x2, y2) == g1.at(x2, y2));
                if nx == x && ny == y {
                    let dd = opposite(d);
                    lemma_opposite(d);
                    assert(x + dir_dx(dd) == x2 && y + dir_dy(dd) == y2);
                    assert(dir_passes(g1, c, tile as int, x, y, rot as int, dd));
                    assert(edge_toward(c, t, opposite(dd)) == c.spec_at(
                        tile as int,
                    ).rotated_edge(rot as int, dd));
                    assert(dir_passes(g2, c, t.tile_spec as int, x2, y2, t.rotation as int, d));
                } else {
                    assert(placed_matches(g1, c, x2, y2, d));
                    assert(g2.at(nx, ny) == g1.at(nx, ny));
                    assert(dir_passes(g2, c, t.tile_spec as int, x2, y2, t.rotation as int, d));
                }
            }
        }
    }
}

/// For a tile whose four edges all carry the same feature, the compatibility
/// check cannot depend on the rotation: every rotation shows the same edge in
/// every direction, so trying rotation 0 alone loses nothing.
pub proof fn lemma_symmetric_rotation_irrelevant(
    g: Grid,
    c: TileCatalog,
    tile: int,
    x: int,
    y: int,
    r1: int,
    r2: int,
)
    requires
        0 <= tile < c.spec_len(),
        c.spec_at(tile).is_symmetric(),
        0 <= r1 < 4,
        0 <= r2 < 4,
    ensures
        spec_can_place(g, c, tile, x, y, r1) == spec_can_place(g, c, tile, x, y, r2),
{
    assert forall|d: int| 0 <= d < 4 implies c.spec_at(tile).rotated_edge(r1, d) == c.spec_at(
        tile,
    ).rotated_edge(r2, d) by {
        assert(c.spec_at(tile).edge_features[(d + r1) % 4] == c.spec_at(tile).edge_features[0]);
        assert(c.spec_at(tile).edge_features[(d + r2) % 4] == c.spec_at(tile).edge_features[0]);
    }
    assert forall|d: int| 0 <= d < 4 implies dir_passes(g, c, tile, x, y, r1, d) == dir_passes(
        g,
        c,
        tile,
        x,
        y,
        r2,
        d,
    ) by {}
    if spec_can_place(g, c, tile, x, y, r1) {
        assert forall|d: int| 0 <= d < 4 implies dir_passes(g, c, tile, x, y, r2, d) by {
            assert(dir_passes(g, c, tile, x, y, r1, d));
        }
    }
    if spec_can_place(g, c, tile, x, y, r2) {
        assert forall|d: int| 0 <= d < 4 implies dir_passes(g, c, tile, x, y, r1, d) by {
            assert(dir_passes(g, c, tile, x, y, r2, d));
        }
    }
}

/// On a matched grid with no dangling river edges, every river edge of every
/// placed tile either points off-grid or points at an occupied neighbor whose
/// facing edge is again a river.
pub proof fn lemma_river_connectivity(g: Grid, c: TileCatalog, x: int, y: int, d: int)
    requires
        g.wf(),
        all_matched(g, c),
        river_closed(g, c),
        g.in_bounds(x, y),
        0 <= d < 4,
        g.at(x, y) is Some,
        edge_toward(c, g.at(x, y)->Some_0, d) == Feature::River,
        g.in_bounds(x + dir_dx(d), y + dir_dy(d)),
    ensures
        g.at(x + dir_dx(d), y + dir_dy(d)) is Some,
        edge_toward(c, g.at(x + dir_dx(d), y + dir_dy(d))->Some_0, opposite(d)) == Feature::River,
{
    assert(river_edge_ok(g, c, x, y, d));
    assert(placed_matches(g, c, x, y, d));
}

/// The compatibility predicate is a pure function of the grid state and the
/// arguments: evaluated twice against identical state, it gives the same
/// answer.
pub proof fn lemma_can_place_idempotent(
    g1: Grid,
    g2: Grid,
    c1: TileCatalog,
    c2: TileCatalog,
    tile: int,
    x: int,
    y: int,
    rot: int,
)
    requires
        g1 == g2,
        c1 == c2,
    ensures
        spec_can_place(g1, c1, tile, x, y, rot) == spec_can_place(g2, c2, tile, x, y, rot),
{
}

} // verus!
