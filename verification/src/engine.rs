//! The two-phase placement engine: a constrained random walk that lays a
//! connected river, retried wholesale on failure, followed by one bounded
//! random trial-and-error pass over the remaining empty cells.

use vstd::prelude::*;
use crate::tile::{Feature, PlacedTile, TileCatalog};
use crate::grid::{
    Grid, all_matched, dir_dx, dir_dy, dir_passes, edge_toward, empties, lemma_empties_all_none,
    lemma_empties_all_some, lemma_empties_le_len, lemma_empties_take_all, lemma_empties_take_step,
    lemma_empties_update, lemma_flat_idx_bounds, opposite, placed_in_range, placed_valid,
    river_closed, river_edge_ok, spec_can_place,
};
use crate::deck::{build_draw_deck, first_positive, sum_counts};
use crate::rng::Rng;
use crate::laws::{
    lemma_empty_grid_can_place, lemma_empty_grid_matched, lemma_placement_preserves_matching,
};

verus! {

/// The pending-work stack holds cell `(x, y)`.
pub open spec fn stack_has(s: Seq<(usize, usize)>, x: int, y: int) -> bool {
    exists|k: int| 0 <= k < s.len() && (#[trigger] s[k]).0 as int == x && s[k].1 as int == y
}

/// Every stack entry is an in-bounds cell of `g`.
pub open spec fn stack_in_bounds(g: Grid, s: Seq<(usize, usize)>) -> bool {
    forall|k: int| 0 <= k < s.len() ==> g.in_bounds((#[trigger] s[k]).0 as int, s[k].1 as int)
}

/// The tile at `(x, y)` has a river edge in direction `d` pointing at an
/// in-bounds, still-empty neighbor — the one situation the river walk must
/// keep on its pending stack.
pub open spec fn wants_pending(g: Grid, c: TileCatalog, x: int, y: int, d: int) -> bool {
    &&& g.in_bounds(x, y)
    &&& 0 <= d < 4
    &&& g.at(x, y) is Some
    &&& edge_toward(c, g.at(x, y)->Some_0, d) == Feature::River
    &&& g.in_bounds(x + dir_dx(d), y + dir_dy(d))
    &&& g.at(x + dir_dx(d), y + dir_dy(d)) is None
}

/// Every empty cell a placed river edge points at is on the pending stack.
pub open spec fn pending_covered(g: Grid, c: TileCatalog, s: Seq<(usize, usize)>) -> bool {
    forall|x: int, y: int, d: int|
        #[trigger] wants_pending(g, c, x, y, d) ==> stack_has(s, x + dir_dx(d), y + dir_dy(d))
}

/// As `pending_covered`, except that the single cell `(px, py)` may be
/// missing from the stack (it is the cell just popped for processing).
pub open spec fn pending_covered_except(
    g: Grid,
    c: TileCatalog,
    s: Seq<(usize, usize)>,
    px: int,
    py: int,
) -> bool {
    forall|x: int, y: int, d: int|
        #[trigger] wants_pending(g, c, x, y, d) ==> (stack_has(s, x + dir_dx(d), y + dir_dy(d))
            || (x + dir_dx(d) == px && y + dir_dy(d) == py))
}

/// The stack entry `e` is the neighbor behind one of the river edges of the
/// tile `pt` placed at `(x, y)`.
pub open spec fn river_push_of(c: TileCatalog, pt: PlacedTile, x: int, y: int, e: (usize, usize)) -> bool {
    exists|d: int|
        0 <= d < 4 && e.0 as int == x + #[trigger] dir_dx(d) && e.1 as int == y + dir_dy(d)
            && edge_toward(c, pt, d) == Feature::River
}

/// Popping the stack keeps coverage, short of the popped cell itself.
proof fn lemma_pending_pop(
    g: Grid,
    c: TileCatalog,
    s0: Seq<(usize, usize)>,
    s1: Seq<(usize, usize)>,
    px: int,
    py: int,
)
    requires
        pending_covered(g, c, s0),
        s0.len() > 0,
        s0.last().0 as int == px,
        s0.last().1 as int == py,
        s1 == s0.subrange(0, s0.len() - 1),
    ensures
        pending_covered_except(g, c, s1, px, py),
{
    assert forall|x: int, y: int, d: int| wants_pending(g, c, x, y, d) implies (stack_has(
        s1,
        x + dir_dx(d),
        y + dir_dy(d),
    ) || (x + dir_dx(d) == px && y + dir_dy(d) == py)) by {
        let nx = x + dir_dx(d);
        let ny = y + dir_dy(d);
        assert(stack_has(s0, nx, ny));
        let k = choose|k: int|
            0 <= k < s0.len() && (#[trigger] s0[k]).0 as int == nx && s0[k].1 as int == ny;
        if k < s0.len() - 1 {
            assert(s1[k] == s0[k]);
            assert(stack_has(s1, nx, ny));
        }
    }
}

/// A popped cell that turns out to be occupied needs no replacement entry:
/// coverage of the shorter stack holds outright.
proof fn lemma_pending_pop_occupied(
    g: Grid,
    c: TileCatalog,
    s1: Seq<(usize, usize)>,
    px: int,
    py: int,
)
    requires
        pending_covered_except(g, c, s1, px, py),
        g.at(px, py) is Some,
    ensures
        pending_covered(g, c, s1),
{
    assert forall|x: int, y: int, d: int| wants_pending(g, c, x, y, d) implies stack_has(
        s1,
        x + dir_dx(d),
        y + dir_dy(d),
    ) by {
        assert(!(x + dir_dx(d) == px && y + dir_dy(d) == py));
    }
}

/// Committing a compatible tile to the popped cell and pushing the empty
/// neighbors behind its river edges restores full coverage.
proof fn lemma_pending_after_placement(
    g1: Grid,
    g2: Grid,
    c: TileCatalog,
    s1: Seq<(usize, usize)>,
    s2: Seq<(usize, usize)>,
    px: int,
    py: int,
    pt: PlacedTile,
)
    requires
        g1.wf(),
        g2.wf(),
        g2.same_dims(g1),
        g1.in_bounds(px, py),
        pending_covered_except(g1, c, s1, px, py),
        g2.at(px, py) == Some(pt),
        forall|x2: int, y2: int|
            g1.in_bounds(x2, y2) && !(x2 == px && y2 == py) ==> g2.at(x2, y2) == g1.at(x2, y2),
        s1.len() <= s2.len(),
        forall|k: int| 0 <= k < s1.len() ==> s2[k] == s1[k],
        forall|d: int|
            0 <= d < 4 && edge_toward(c, pt, d) == Feature::River && g2.in_bounds(
                px + dir_dx(d),
                py + dir_dy(d),
            ) && g2.at(px + dir_dx(d), py + dir_dy(d)) is None ==> stack_has(
                s2,
                px + #[trigger] dir_dx(d),
                py + dir_dy(d),
            ),
    ensures
        pending_covered(g2, c, s2),
{
    assert forall|x: int, y: int, d: int| wants_pending(g2, c, x, y, d) implies stack_has(
        s2,
        x + dir_dx(d),
        y + dir_dy(d),
    ) by {
        let nx = x + dir_dx(d);
        let ny = y + dir_dy(d);
        if x == px && y == py {
            assert(g2.at(x, y) == Some(pt));
            assert(stack_has(s2, nx, ny));
        } else {
            assert(g2.at(x, y) == g1.at(x, y));
            assert(!(nx == px && ny == py));
            assert(g2.at(nx, ny) == g1.at(nx, ny));
            assert(wants_pending(g1, c, x, y, d));
            assert(stack_has(s1, nx, ny) || (nx == px && ny == py));
            let k = choose|k: int|
                0 <= k < s1.len() && (#[trigger] s1[k]).0 as int == nx && s1[k].1 as int == ny;
            assert(s2[k] == s1[k]);
            assert(stack_has(s2, nx, ny));
        }
    }
}

/// With the pending stack exhausted and coverage intact, no placed river
/// edge points at an in-bounds empty cell.
proof fn lemma_pending_empty_closed(g: Grid, c: TileCatalog, s: Seq<(usize, usize)>)
    requires
        pending_covered(g, c, s),
        s.len() == 0,
    ensures
        river_closed(g, c),
{
    assert forall|x: int, y: int, d: int|
        g.in_bounds(x, y) && 0 <= d < 4 implies #[trigger] river_edge_ok(g, c, x, y, d) by {
        if g.at(x, y) is Some && edge_toward(c, g.at(x, y)->Some_0, d) == Feature::River
            && g.in_bounds(x + dir_dx(d), y + dir_dy(d)) {
            if g.at(x + dir_dx(d), y + dir_dy(d)) is None {
                assert(wants_pending(g, c, x, y, d));
                assert(stack_has(s, x + dir_dx(d), y + dir_dy(d)));
            }
        }
    }
}

/// Tiles drawn from `[lo, hi)` are valid entries of a catalog at least
/// `hi` long.
pub proof fn lemma_range_valid(g: Grid, c: TileCatalog, lo: int, hi: int)
    requires
        placed_in_range(g, c, lo, hi),
        0 <= lo,
        hi <= c.spec_len(),
    ensures
        placed_valid(g, c),
{
}

/// Place `tile` with `rotation` at the empty-or-overwritten cell `(x, y)`,
/// then push every in-bounds, still-empty neighbor behind one of the new
/// tile's river edges onto the pending stack.
#[verifier::loop_isolation(false)]
pub fn place_river_tile(
    grid: &mut Grid,
    catalog: &TileCatalog,
    remaining: &mut Vec<(usize, usize)>,
    x: usize,
    y: usize,
    tile: usize,
    rotation: u8,
)
    requires
        old(grid).wf(),
        old(grid).in_bounds(x as int, y as int),
        tile < catalog.spec_len(),
        rotation < 4,
    ensures
        final(grid).wf(),
        final(grid).same_dims(*old(grid)),
        final(grid).cells() == old(grid).cells().update(
            old(grid).flat_idx(x as int, y as int),
            Some((PlacedTile { tile_spec: tile, rotation })),
        ),
        final(grid).at(x as int, y as int) == Some((PlacedTile { tile_spec: tile, rotation })),
        forall|x2: int, y2: int|
            old(grid).in_bounds(x2, y2) && !(x2 == x as int && y2 == y as int) ==> final(grid).at(
                x2,
                y2,
            ) == old(grid).at(x2, y2),
        old(remaining)@.len() <= final(remaining)@.len() <= old(remaining)@.len() + 4,
        forall|k: int|
            0 <= k < old(remaining)@.len() ==> #[trigger] final(remaining)@[k] == old(
                remaining,
            )@[k],
        forall|k: int|
            old(remaining)@.len() <= k < final(remaining)@.len() ==> final(grid).in_bounds(
                (#[trigger] final(remaining)@[k]).0 as int,
                final(remaining)@[k].1 as int,
            ) && final(grid).at(
                final(remaining)@[k].0 as int,
                final(remaining)@[k].1 as int,
            ) is None,
        forall|k: int|
            old(remaining)@.len() <= k < final(remaining)@.len() ==> river_push_of(
                *catalog,
                (PlacedTile { tile_spec: tile, rotation }),
                x as int,
                y as int,
                #[trigger] final(remaining)@[k],
            ),
        forall|d: int|
            0 <= d < 4 && edge_toward(
                *catalog,
                (PlacedTile { tile_spec: tile, rotation }),
                d,
            ) == Feature::River && final(grid).in_bounds(
                x as int + dir_dx(d),
                y as int + dir_dy(d),
            ) && final(grid).at(x as int + dir_dx(d), y as int + dir_dy(d)) is None
                ==> stack_has(
                final(remaining)@,
                x as int + #[trigger] dir_dx(d),
                y as int + dir_dy(d),
            ),
{
    let pt = PlacedTile { tile_spec: tile, rotation };
    grid.set_tile(x, y, pt);
    let mut d: usize = 0;
    while d < 4
        invariant
            d <= 4,
            old(remaining)@.len() <= remaining@.len() <= old(remaining)@.len() + d,
            forall|k: int|
                0 <= k < old(remaining)@.len() ==> #[trigger] remaining@[k] == old(remaining)@[k],
            forall|k: int|
                old(remaining)@.len() <= k < remaining@.len() ==> grid.in_bounds(
                    (#[trigger] remaining@[k]).0 as int,
                    remaining@[k].1 as int,
                ) && grid.at(remaining@[k].0 as int, remaining@[k].1 as int) is None,
            forall|k: int|
                old(remaining)@.len() <= k < remaining@.len() ==> river_push_of(
                    *catalog,
                    pt,
                    x as int,
                    y as int,
                    #[trigger] remaining@[k],
                ),
            forall|dd: int|
                0 <= dd < d && edge_toward(*catalog, pt, dd) == Feature::River && grid.in_bounds(
                    x as int + dir_dx(dd),
                    y as int + dir_dy(dd),
                ) && grid.at(x as int + dir_dx(dd), y as int + dir_dy(dd)) is None ==> stack_has(
                    remaining@,
                    x as int + #[trigger] dir_dx(dd),
                    y as int + dir_dy(dd),
                ),
        decreases 4 - d,
    {
        let ef = catalog.specs[tile].edge_features[(d + rotation as usize) % 4];
        proof {
            assert(ef == edge_toward(*catalog, pt, d as int));
        }
        if ef == Feature::River {
            let (dx, dy): (i32, i32) = match d {
                0 => (0, -1),
                1 => (1, 0),
                2 => (0, 1),
                _ => (-1, 0),
            };
            let nx = x as i32 + dx;
            let ny = y as i32 + dy;
            if grid.has_no_tile(nx, ny) {
                let ghost prev = remaining@;
                remaining.push((nx as usize, ny as usize));
                proof {
                    assert forall|px: int, py: int| stack_has(prev, px, py) implies stack_has(
                        remaining@,
                        px,
                        py,
                    ) by {
                        let k = choose|k: int|
                            0 <= k < prev.len() && (#[trigger] prev[k]).0 as int == px
                                && prev[k].1 as int == py;
                        assert(remaining@[k] == prev[k]);
                    }
                    assert(remaining@.last() == (nx as usize, ny as usize));
                    assert(stack_has(remaining@, x as int + dir_dx(d as int), y as int + dir_dy(
                        d as int,
                    )));
                    let last: int = remaining@.len() - 1;
                    assert(edge_toward(*catalog, pt, d as int) == Feature::River);
                    assert(remaining@[last].0 as int == x as int + dir_dx(d as int)
                        && remaining@[last].1 as int == y as int + dir_dy(d as int));
                    assert(river_push_of(*catalog, pt, x as int, y as int, remaining@[last]));
                }
            }
        }
        d += 1;
    }
}

/// One river attempt: seed the range's first positive-count kind at a random
/// cell with rotation 0, then grow the river by popping pending cells and
/// trying up to 100 random (tile, rotation) draws each. Succeeds when the
/// pending stack empties; fails as soon as one cell exhausts its draws.
/// Either way the grid stays fully edge-matched, the seed stands, and every
/// tile placed is a deck member of `[lo, hi)`; on success no river edge
/// dangles toward an in-bounds empty cell. On a single-cell grid, or when the
/// seed kind carries no river edge, nothing is ever queued and the attempt
/// succeeds outright.
#[verifier::loop_isolation(false)]
pub fn place_river_tiles(
    grid: &mut Grid,
    catalog: &TileCatalog,
    lo: usize,
    hi: usize,
    rng: &mut Rng,
) -> (ok: bool)
    requires
        old(grid).wf(),
        old(grid).is_empty_grid(),
        lo <= hi <= catalog.spec_len(),
        sum_counts(*catalog, lo as int, hi as int) > 0,
    ensures
        final(grid).wf(),
        final(grid).same_dims(*old(grid)),
        placed_in_range(*final(grid), *catalog, lo as int, hi as int),
        all_matched(*final(grid), *catalog),
        ok ==> river_closed(*final(grid), *catalog),
        old(grid).area() == 1 ==> ok,
        kind_river_free(*catalog, first_positive(*catalog, lo as int, hi as int)) ==> ok,
        exists|x: int, y: int|
            {
                &&& final(grid).in_bounds(x, y)
                &&& (#[trigger] final(grid).at(x, y)) matches Some(t)
                &&& t.tile_spec as int == first_positive(*catalog, lo as int, hi as int)
                &&& t.rotation == 0
            },
        final(rng).draw_count() <= old(rng).draw_count() + 2 + 800 * old(grid).area(),
{
    let start_x = rng.next_below(grid.size_x());
    let start_y = rng.next_below(grid.size_y());
    let deck = build_draw_deck(catalog, lo, hi);
    let mut remaining: Vec<(usize, usize)> = Vec::new();
    let seed_tile = deck[0];
    proof {
        lemma_empty_grid_matched(*grid, *catalog);
        lemma_empty_grid_can_place(
            *grid,
            *catalog,
            seed_tile as int,
            start_x as int,
            start_y as int,
            0,
        );
        assert forall|x: int, y: int, d: int| !wants_pending(*grid, *catalog, x, y, d) by {
            if grid.in_bounds(x, y) {
                lemma_flat_idx_bounds(*grid, x, y);
            }
        }
        lemma_empties_all_none(grid.cells());
    }
    let ghost g_empty = *grid;
    place_river_tile(grid, catalog, &mut remaining, start_x, start_y, seed_tile, 0);
    proof {
        lemma_placement_preserves_matching(
            g_empty,
            *grid,
            *catalog,
            seed_tile,
            start_x as int,
            start_y as int,
            0,
        );
        lemma_flat_idx_bounds(g_empty, start_x as int, start_y as int);
        lemma_empties_update(
            g_empty.cells(),
            g_empty.flat_idx(start_x as int, start_y as int),
            Some((PlacedTile { tile_spec: seed_tile, rotation: 0 })),
        );
        lemma_pending_after_placement(
            g_empty,
            *grid,
            *catalog,
            Seq::empty(),
            remaining@,
            start_x as int,
            start_y as int,
            (PlacedTile { tile_spec: seed_tile, rotation: 0 }),
        );
        assert forall|x: int, y: int|
            grid.in_bounds(x, y) && (#[trigger] grid.at(x, y)) is Some implies {
            let t = grid.at(x, y)->Some_0;
            lo <= t.tile_spec < hi && catalog.spec_at(t.tile_spec as int).count > 0
                && t.rotation < 4
        } by {
            if !(x == start_x as int && y == start_y as int) {
                lemma_flat_idx_bounds(g_empty, x, y);
                assert(grid.at(x, y) == g_empty.at(x, y));
            }
        }
        if old(grid).area() == 1 {
            assert(grid.spec_size_x() == 1 && grid.spec_size_y() == 1) by (nonlinear_arith)
                requires
                    grid.spec_size_x() * grid.spec_size_y() == 1,
                    grid.spec_size_x() >= 1,
                    grid.spec_size_y() >= 1,
            ;
            // the seed fills the only cell, so nothing can have been queued
            if remaining@.len() > 0 {
                assert(grid.in_bounds(remaining@[0].0 as int, remaining@[0].1 as int));
                assert(grid.at(remaining@[0].0 as int, remaining@[0].1 as int) is None);
                assert(remaining@[0].0 as int == start_x as int && remaining@[0].1 as int
                    == start_y as int);
            }
        }
        if kind_river_free(*catalog, seed_tile as int) {
            // a seed without river edges queues nothing
            if remaining@.len() > 0 {
                let pt = PlacedTile { tile_spec: seed_tile, rotation: 0 };
                assert(river_push_of(*catalog, pt, start_x as int, start_y as int, remaining@[0]));
                let d = choose|d: int|
                    0 <= d < 4 && remaining@[0].0 as int == start_x as int + #[trigger] dir_dx(d)
                        && remaining@[0].1 as int == start_y as int + dir_dy(d) && edge_toward(
                        *catalog,
                        pt,
                        d,
                    ) == Feature::River;
                assert((d + 0) % 4 == d);
                assert(catalog.spec_at(seed_tile as int).edge_features[d] != Feature::River);
            }
        }
    }
    let ghost mut popped: nat = 0;
    while remaining.len() > 0
        invariant
            grid.wf(),
            grid.same_dims(*old(grid)),
            placed_in_range(*grid, *catalog, lo as int, hi as int),
            all_matched(*grid, *catalog),
            grid.at(start_x as int, start_y as int) == Some(
                (PlacedTile { tile_spec: seed_tile, rotation: 0 }),
            ),
            seed_tile as int == first_positive(*catalog, lo as int, hi as int),
            old(grid).area() == 1 ==> remaining@.len() == 0,
            kind_river_free(*catalog, seed_tile as int) ==> remaining@.len() == 0,
            stack_in_bounds(*grid, remaining@),
            pending_covered(*grid, *catalog, remaining@),
            remaining@.len() + popped <= 4 * (old(grid).area() - empties(grid.cells())),
            empties(grid.cells()) <= old(grid).area(),
            rng.draw_count() <= old(rng).draw_count() + 2 + 200 * popped,
        decreases empties(grid.cells()), remaining@.len(),
    {
        let ghost s0 = remaining@;
        let cell = remaining.pop().unwrap();
        let cx = cell.0;
        let cy = cell.1;
        proof {
            popped = popped + 1;
            lemma_pending_pop(*grid, *catalog, s0, remaining@, cx as int, cy as int);
        }
        if !grid.has_no_tile(cx as i32, cy as i32) {
            proof {
                lemma_pending_pop_occupied(
                    *grid,
                    *catalog,
                    remaining@,
                    cx as int,
                    cy as int,
                );
            }
        } else {
            proof {
                lemma_range_valid(*grid, *catalog, lo as int, hi as int);
            }
            let mut found = false;
            let mut sel_tile: usize = 0;
            let mut sel_rot: u8 = 0;
            let mut k: usize = 0;
            let ghost d0 = rng.draw_count();
            while k < 100 && !found
                invariant
                    k <= 100,
                    rng.draw_count() <= d0 + 2 * k,
                    found ==> lo <= sel_tile < hi && catalog.spec_at(sel_tile as int).count > 0
                        && sel_rot < 4 && spec_can_place(
                        *grid,
                        *catalog,
                        sel_tile as int,
                        cx as int,
                        cy as int,
                        sel_rot as int,
                    ),
                decreases 100 - k,
            {
                let rot = rng.next_below(4) as u8;
                let deck_idx = rng.next_below(deck.len());
                let selected = deck[deck_idx];
                if grid.can_be_placed(catalog, selected, cx, cy, rot) {
                    found = true;
                    sel_tile = selected;
                    sel_rot = rot;
                }
                k += 1;
            }
            if !found {
                return false;
            }
            let ghost g_before = *grid;
            let ghost s1 = remaining@;
            place_river_tile(grid, catalog, &mut remaining, cx, cy, sel_tile, sel_rot);
            proof {
                let pt = PlacedTile { tile_spec: sel_tile, rotation: sel_rot };
                lemma_placement_preserves_matching(
                    g_before,
                    *grid,
                    *catalog,
                    sel_tile,
                    cx as int,
                    cy as int,
                    sel_rot,
                );
                lemma_flat_idx_bounds(g_before, cx as int, cy as int);
                lemma_empties_update(
                    g_before.cells(),
                    g_before.flat_idx(cx as int, cy as int),
                    Some(pt),
                );
                lemma_pending_after_placement(
                    g_before,
                    *grid,
                    *catalog,
                    s1,
                    remaining@,
                    cx as int,
                    cy as int,
                    pt,
                );
            }
        }
    }
    proof {
        lemma_pending_empty_closed(*grid, *catalog, remaining@);
    }
    true
}

/// The river phase: retry whole attempts up to 1000 times, clearing the grid
/// before each retry, and stop at the first success. If every attempt fails,
/// the grid keeps whatever the last failed attempt placed — still fully
/// edge-matched — and the caller learns of the degradation from the result.
#[verifier::loop_isolation(false)]
pub fn run_river_phase(
    grid: &mut Grid,
    catalog: &TileCatalog,
    lo: usize,
    hi: usize,
    rng: &mut Rng,
) -> (ok: bool)
    requires
        old(grid).wf(),
        old(grid).is_empty_grid(),
        lo <= hi <= catalog.spec_len(),
        sum_counts(*catalog, lo as int, hi as int) > 0,
    ensures
        final(grid).wf(),
        final(grid).same_dims(*old(grid)),
        placed_in_range(*final(grid), *catalog, lo as int, hi as int),
        all_matched(*final(grid), *catalog),
        ok ==> river_closed(*final(grid), *catalog),
        old(grid).area() == 1 ==> ok,
        kind_river_free(*catalog, first_positive(*catalog, lo as int, hi as int)) ==> ok,
        exists|x: int, y: int|
            {
                &&& final(grid).in_bounds(x, y)
                &&& (#[trigger] final(grid).at(x, y)) matches Some(t)
                &&& t.tile_spec as int == first_positive(*catalog, lo as int, hi as int)
                &&& t.rotation == 0
            },
        final(rng).draw_count() <= old(rng).draw_count() + 1000 * (2 + 800 * old(grid).area()),
{
    let ghost c: int = 2 + 800 * old(grid).area();
    let mut attempt: usize = 0;
    while attempt < 1000
        invariant
            attempt <= 999,
            grid.wf(),
            grid.same_dims(*old(grid)),
            grid.is_empty_grid(),
            rng.draw_count() <= old(rng).draw_count() + attempt * c,
        decreases 1000 - attempt,
    {
        let ok = place_river_tiles(grid, catalog, lo, hi, rng);
        proof {
            assert((attempt + 1) * c == attempt * c + c) by (nonlinear_arith);
            assert((attempt + 1) * c <= 1000 * c) by (nonlinear_arith)
                requires
                    attempt + 1 <= 1000,
                    c >= 0,
            ;
        }
        if ok {
            return true;
        }
        if attempt == 999 {
            // the last attempt failed: its tiles stay in place
            return false;
        }
        attempt += 1;
        grid.clear_tiles();
    }
    proof {
        // the loop can only be left through one of the returns above
        assert(false);
    }
    false
}

/// The tile kind `k` carries no river edge, in any rotation.
pub open spec fn kind_river_free(c: TileCatalog, k: int) -> bool {
    forall|e: int| 0 <= e < 4 ==> #[trigger] c.spec_at(k).edge_features[e] != Feature::River
}

/// No kind in the catalog range `[lo, hi)` carries a river edge; tiles drawn
/// from such a range can never add a dangling river edge.
pub open spec fn range_river_free(c: TileCatalog, lo: int, hi: int) -> bool {
    forall|k: int, e: int|
        lo <= k < hi && 0 <= e < 4 ==> #[trigger] c.spec_at(k).edge_features[e] != Feature::River
}

/// The one fill configuration in which no draw can fail: the grid starts
/// empty and the range offers a single kind whose four edges are identical,
/// so every draw yields that kind at rotation 0 and every neighbor shows the
/// same feature back.
pub open spec fn lone_symmetric_kind(g0: Grid, c: TileCatalog, lo: int, hi: int) -> bool {
    g0.is_empty_grid() && hi == lo + 1 && c.spec_at(lo).is_symmetric()
}

/// The flat cell index `i` appears on the work list `s`.
pub open spec fn stack_covers(g: Grid, s: Seq<(usize, usize)>, i: int) -> bool {
    exists|k: int|
        0 <= k < s.len() && g.flat_idx((#[trigger] s[k]).0 as int, s[k].1 as int) == i
}

/// Every flat cell below `n` is occupied or still on the work list.
pub open spec fn covered_upto(g: Grid, s: Seq<(usize, usize)>, n: int) -> bool {
    forall|i: int| 0 <= i < n ==> (#[trigger] g.cells()[i]) is Some || stack_covers(g, s, i)
}

/// The fill phase: list every still-empty cell in row-major order, then pop
/// the list from the back, giving each cell up to 15000 random draws; a drawn
/// tile keeps rotation 0 when its four edges are identical, and is committed
/// at the first success. A cell whose draws all fail stays empty for good.
/// Previously placed tiles are never touched, every newly placed tile comes
/// from `[lo, hi)` and passes the compatibility check, and the whole phase
/// consumes at most 30000 draws per initially empty cell. When the range
/// offers a single symmetric kind to an empty grid, no draw can fail and the
/// phase covers the grid completely.
#[verifier::loop_isolation(false)]
pub fn place_remaining_tiles(
    grid: &mut Grid,
    catalog: &TileCatalog,
    lo: usize,
    hi: usize,
    rng: &mut Rng,
)
    requires
        old(grid).wf(),
        placed_valid(*old(grid), *catalog),
        all_matched(*old(grid), *catalog),
        lo <= hi <= catalog.spec_len(),
        sum_counts(*catalog, lo as int, hi as int) > 0,
    ensures
        final(grid).wf(),
        final(grid).same_dims(*old(grid)),
        placed_valid(*final(grid), *catalog),
        all_matched(*final(grid), *catalog),
        forall|x: int, y: int|
            old(grid).in_bounds(x, y) && old(grid).at(x, y) is Some ==> #[trigger] final(grid).at(
                x,
                y,
            ) == old(grid).at(x, y),
        forall|x: int, y: int|
            old(grid).in_bounds(x, y) && old(grid).at(x, y) is None && (#[trigger] final(grid).at(
                x,
                y,
            )) is Some ==> {
                let t = final(grid).at(x, y)->Some_0;
                &&& lo <= t.tile_spec < hi
                &&& catalog.spec_at(t.tile_spec as int).count > 0
                &&& t.rotation < 4
                &&& (catalog.spec_at(t.tile_spec as int).is_symmetric() ==> t.rotation == 0)
            },
        lone_symmetric_kind(*old(grid), *catalog, lo as int, hi as int) ==> empties(
            final(grid).cells(),
        ) == 0,
        final(rng).draw_count() <= old(rng).draw_count() + 30000 * empties(old(grid).cells()),
{
    let deck = build_draw_deck(catalog, lo, hi);
    let mut remaining: Vec<(usize, usize)> = Vec::new();
    let sx = grid.size_x();
    let sy = grid.size_y();
    let mut y: usize = 0;
    while y < sy
        invariant
            y <= sy,
            remaining@.len() == empties(grid.cells().take(y * grid.spec_size_x())),
            forall|k: int|
                0 <= k < remaining@.len() ==> grid.in_bounds(
                    (#[trigger] remaining@[k]).0 as int,
                    remaining@[k].1 as int,
                ) && grid.at(remaining@[k].0 as int, remaining@[k].1 as int) is None
                    && grid.flat_idx(remaining@[k].0 as int, remaining@[k].1 as int) < y
                    * grid.spec_size_x(),
            forall|k1: int, k2: int|
                0 <= k1 < k2 < remaining@.len() ==> grid.flat_idx(
                    (#[trigger] remaining@[k1]).0 as int,
                    remaining@[k1].1 as int,
                ) < grid.flat_idx((#[trigger] remaining@[k2]).0 as int, remaining@[k2].1 as int),
            covered_upto(*grid, remaining@, y * grid.spec_size_x()),
        decreases sy - y,
    {
        let mut x: usize = 0;
        while x < sx
            invariant
                x <= sx,
                y < sy,
                remaining@.len() == empties(
                    grid.cells().take(y * grid.spec_size_x() + x),
                ),
                forall|k: int|
                    0 <= k < remaining@.len() ==> grid.in_bounds(
                        (#[trigger] remaining@[k]).0 as int,
                        remaining@[k].1 as int,
                    ) && grid.at(remaining@[k].0 as int, remaining@[k].1 as int) is None
                        && grid.flat_idx(remaining@[k].0 as int, remaining@[k].1 as int) < y
                        * grid.spec_size_x() + x,
                forall|k1: int, k2: int|
                    0 <= k1 < k2 < remaining@.len() ==> grid.flat_idx(
                        (#[trigger] remaining@[k1]).0 as int,
                        remaining@[k1].1 as int,
                    ) < grid.flat_idx(
                        (#[trigger] remaining@[k2]).0 as int,
                        remaining@[k2].1 as int,
                    ),
                covered_upto(*grid, remaining@, y * grid.spec_size_x() + x),
            decreases sx - x,
        {
            proof {
                lemma_flat_idx_bounds(*grid, x as int, y as int);
                lemma_empties_take_step(grid.cells(), grid.flat_idx(x as int, y as int));
            }
            if grid.has_no_tile(x as i32, y as i32) {
                let ghost prev = remaining@;
                remaining.push((x, y));
                proof {
                    assert forall|i2: int| stack_covers(*grid, prev, i2) implies stack_covers(
                        *grid,
                        remaining@,
                        i2,
                    ) by {
                        let k = choose|k: int|
                            0 <= k < prev.len() && grid.flat_idx(
                                (#[trigger] prev[k]).0 as int,
                                prev[k].1 as int,
                            ) == i2;
                        assert(remaining@[k] == prev[k]);
                    }
                    assert(remaining@.last() == (x, y));
                    assert(stack_covers(*grid, remaining@, grid.flat_idx(x as int, y as int)));
                }
            }
            x += 1;
        }
        proof {
            assert((y + 1) * grid.spec_size_x() == y * grid.spec_size_x()
                + grid.spec_size_x()) by (nonlinear_arith);
        }
        y += 1;
    }
    proof {
        assert(sy * grid.spec_size_x() == grid.cells().len()) by (nonlinear_arith)
            requires
                grid.cells().len() == grid.spec_size_x() * grid.spec_size_y(),
                sy == grid.spec_size_y(),
        ;
        lemma_empties_take_all(grid.cells());
        assert forall|k1: int, k2: int|
            0 <= k1 < k2 < remaining@.len() implies #[trigger] remaining@[k1]
            != #[trigger] remaining@[k2] by {
            if remaining@[k1] == remaining@[k2] {
                assert(grid.flat_idx(remaining@[k1].0 as int, remaining@[k1].1 as int)
                    == grid.flat_idx(remaining@[k2].0 as int, remaining@[k2].1 as int));
            }
        }
    }
    let ghost r0: nat = remaining@.len();
    while remaining.len() > 0
        invariant
            grid.wf(),
            grid.same_dims(*old(grid)),
            placed_valid(*grid, *catalog),
            all_matched(*grid, *catalog),
            forall|x: int, y: int|
                old(grid).in_bounds(x, y) && old(grid).at(x, y) is Some ==> #[trigger] grid.at(
                    x,
                    y,
                ) == old(grid).at(x, y),
            forall|x: int, y: int|
                old(grid).in_bounds(x, y) && old(grid).at(x, y) is None && (#[trigger] grid.at(
                    x,
                    y,
                )) is Some ==> {
                    let t = grid.at(x, y)->Some_0;
                    &&& lo <= t.tile_spec < hi
                    &&& catalog.spec_at(t.tile_spec as int).count > 0
                    &&& t.rotation < 4
                    &&& (catalog.spec_at(t.tile_spec as int).is_symmetric() ==> t.rotation == 0)
                },
            forall|k: int|
                0 <= k < remaining@.len() ==> grid.in_bounds(
                    (#[trigger] remaining@[k]).0 as int,
                    remaining@[k].1 as int,
                ) && grid.at(remaining@[k].0 as int, remaining@[k].1 as int) is None,
            forall|k1: int, k2: int|
                0 <= k1 < k2 < remaining@.len() ==> #[trigger] remaining@[k1]
                    != #[trigger] remaining@[k2],
            lone_symmetric_kind(*old(grid), *catalog, lo as int, hi as int) ==> covered_upto(
                *grid,
                remaining@,
                grid.cells().len() as int,
            ),
            remaining@.len() <= r0,
            rng.draw_count() <= old(rng).draw_count() + 30000 * (r0 - remaining@.len()),
        decreases remaining@.len(),
    {
        let ghost s0 = remaining@;
        let cell = remaining.pop().unwrap();
        let cx = cell.0;
        let cy = cell.1;
        let mut found = false;
        let mut sel_tile: usize = 0;
        let mut sel_rot: u8 = 0;
        let mut k: usize = 0;
        let ghost d0 = rng.draw_count();
        while k < 15000 && !found
            invariant
                k <= 15000,
                rng.draw_count() <= d0 + 2 * k,
                lone_symmetric_kind(*old(grid), *catalog, lo as int, hi as int) ==> (found || k
                    == 0),
                found ==> lo <= sel_tile < hi && catalog.spec_at(sel_tile as int).count > 0
                    && sel_rot < 4 && spec_can_place(
                    *grid,
                    *catalog,
                    sel_tile as int,
                    cx as int,
                    cy as int,
                    sel_rot as int,
                ) && (catalog.spec_at(sel_tile as int).is_symmetric() ==> sel_rot == 0),
            decreases 15000 - k,
        {
            let deck_idx = rng.next_below(deck.len());
            let selected = deck[deck_idx];
            let rot: u8 = if catalog.specs[selected].can_be_rotated() {
                rng.next_below(4) as u8
            } else {
                0
            };
            let placeable = grid.can_be_placed(catalog, selected, cx, cy, rot);
            proof {
                if lone_symmetric_kind(*old(grid), *catalog, lo as int, hi as int) {
                    // the lone kind is symmetric: it is drawn at rotation 0
                    // and every occupied neighbor shows the shared feature
                    assert(selected == lo && rot == 0);
                    assert forall|d: int| 0 <= d < 4 implies dir_passes(
                        *grid,
                        *catalog,
                        lo as int,
                        cx as int,
                        cy as int,
                        0,
                        d,
                    ) by {
                        let nx = cx as int + dir_dx(d);
                        let ny = cy as int + dir_dy(d);
                        if grid.in_bounds(nx, ny) && grid.at(nx, ny) is Some {
                            lemma_flat_idx_bounds(*old(grid), nx, ny);
                            assert(old(grid).at(nx, ny) is None);
                            let t2 = grid.at(nx, ny)->Some_0;
                            assert(t2.tile_spec == lo && t2.rotation == 0);
                            assert(0 <= (opposite(d) + 0) % 4 < 4);
                            assert(catalog.spec_at(lo as int).edge_features[(opposite(d) + 0) % 4]
                                == catalog.spec_at(lo as int).edge_features[0]);
                            assert(catalog.spec_at(lo as int).edge_features[(d + 0) % 4]
                                == catalog.spec_at(lo as int).edge_features[0]);
                        }
                    }
                    assert(placeable);
                }
            }
            if placeable {
                found = true;
                sel_tile = selected;
                sel_rot = rot;
            }
            k += 1;
        }
        if found {
            let ghost g_before = *grid;
            grid.set_tile(cx, cy, PlacedTile { tile_spec: sel_tile, rotation: sel_rot });
            proof {
                lemma_placement_preserves_matching(
                    g_before,
                    *grid,
                    *catalog,
                    sel_tile,
                    cx as int,
                    cy as int,
                    sel_rot,
                );
                assert forall|j: int| 0 <= j < remaining@.len() implies grid.at(
                    (#[trigger] remaining@[j]).0 as int,
                    remaining@[j].1 as int,
                ) is None by {
                    assert(remaining@[j] == s0[j]);
                    assert(s0[j] != s0[s0.len() - 1]);
                }
                if lone_symmetric_kind(*old(grid), *catalog, lo as int, hi as int) {
                    let fidx = g_before.flat_idx(cx as int, cy as int);
                    lemma_flat_idx_bounds(g_before, cx as int, cy as int);
                    assert forall|i2: int| 0 <= i2 < grid.cells().len() implies (
                    #[trigger] grid.cells()[i2]) is Some || stack_covers(*grid, remaining@, i2) by {
                        if i2 != fidx && !(g_before.cells()[i2] is Some) {
                            assert(stack_covers(g_before, s0, i2));
                            let k2 = choose|k2: int|
                                0 <= k2 < s0.len() && g_before.flat_idx(
                                    (#[trigger] s0[k2]).0 as int,
                                    s0[k2].1 as int,
                                ) == i2;
                            assert(k2 < s0.len() - 1);
                            assert(remaining@[k2] == s0[k2]);
                            assert(grid.flat_idx(remaining@[k2].0 as int, remaining@[k2].1 as int)
                                == i2);
                            assert(stack_covers(*grid, remaining@, i2));
                        }
                    }
                }
            }
        } else {
            proof {
                // with the lone symmetric kind the first draw always commits
                assert(!lone_symmetric_kind(*old(grid), *catalog, lo as int, hi as int));
            }
        }
    }
    proof {
        if lone_symmetric_kind(*old(grid), *catalog, lo as int, hi as int) {
            assert forall|i2: int| 0 <= i2 < grid.cells().len() implies (
            #[trigger] grid.cells()[i2]) is Some by {
                assert(!stack_covers(*grid, remaining@, i2));
            }
            lemma_empties_all_some(grid.cells());
        }
    }
}

/// The whole engine run on an empty grid: lay the river from the catalog
/// range `[river_lo, river_hi)` with wholesale retry, then fill the remaining
/// empty cells from `[base_lo, base_hi)`. Returns whether the river phase
/// succeeded; a false result is the accepted degraded outcome, not an error.
/// Whatever happened, the river seed stands, every placed tile is a deck
/// member of one of the two ranges, and every pair of occupied neighboring
/// cells agrees on its shared edge; a true result keeps the river free of
/// dangling edges whenever the fill range carries no river feature.
pub fn generate(
    grid: &mut Grid,
    catalog: &TileCatalog,
    base_lo: usize,
    base_hi: usize,
    river_lo: usize,
    river_hi: usize,
    rng: &mut Rng,
) -> (river_ok: bool)
    requires
        old(grid).wf(),
        old(grid).is_empty_grid(),
        base_lo <= base_hi <= catalog.spec_len(),
        river_lo <= river_hi <= catalog.spec_len(),
        sum_counts(*catalog, base_lo as int, base_hi as int) > 0,
        sum_counts(*catalog, river_lo as int, river_hi as int) > 0,
    ensures
        final(grid).wf(),
        final(grid).same_dims(*old(grid)),
        placed_valid(*final(grid), *catalog),
        all_matched(*final(grid), *catalog),
        old(grid).area() == 1 ==> river_ok,
        kind_river_free(*catalog, first_positive(*catalog, river_lo as int, river_hi as int))
            ==> river_ok,
        river_ok && range_river_free(*catalog, base_lo as int, base_hi as int) ==> river_closed(
            *final(grid),
            *catalog,
        ),
        forall|x: int, y: int|
            final(grid).in_bounds(x, y) && (#[trigger] final(grid).at(x, y)) is Some ==> {
                let t = final(grid).at(x, y)->Some_0;
                &&& (river_lo <= t.tile_spec < river_hi || base_lo <= t.tile_spec < base_hi)
                &&& catalog.spec_at(t.tile_spec as int).count > 0
                &&& t.rotation < 4
            },
        exists|x: int, y: int|
            {
                &&& final(grid).in_bounds(x, y)
                &&& (#[trigger] final(grid).at(x, y)) matches Some(t)
                &&& t.tile_spec as int == first_positive(*catalog, river_lo as int, river_hi as int)
                &&& t.rotation == 0
            },
        final(rng).draw_count() <= old(rng).draw_count() + 1000 * (2 + 800 * old(grid).area())
            + 30000 * old(grid).area(),
{
    let ok = run_river_phase(grid, catalog, river_lo, river_hi, rng);
    proof {
        lemma_range_valid(*grid, *catalog, river_lo as int, river_hi as int);
        lemma_empties_le_len(grid.cells());
    }
    let ghost g_mid = *grid;
    place_remaining_tiles(grid, catalog, base_lo, base_hi, rng);
    proof {
        let (wx, wy) = choose|x: int, y: int|
            {
                &&& g_mid.in_bounds(x, y)
                &&& (#[trigger] g_mid.at(x, y)) matches Some(t)
                &&& t.tile_spec as int == first_positive(*catalog, river_lo as int, river_hi as int)
                &&& t.rotation == 0
            };
        assert(grid.at(wx, wy) == g_mid.at(wx, wy));
        assert forall|x: int, y: int|
            grid.in_bounds(x, y) && (#[trigger] grid.at(x, y)) is Some implies {
            let t = grid.at(x, y)->Some_0;
            &&& (river_lo <= t.tile_spec < river_hi || base_lo <= t.tile_spec < base_hi)
            &&& catalog.spec_at(t.tile_spec as int).count > 0
            &&& t.rotation < 4
        } by {
            if g_mid.at(x, y) is Some {
                assert(grid.at(x, y) == g_mid.at(x, y));
            } else {
                assert(g_mid.at(x, y) is None);
            }
        }
        if ok && range_river_free(*catalog, base_lo as int, base_hi as int) {
            assert forall|x: int, y: int, d: int|
                grid.in_bounds(x, y) && 0 <= d < 4 implies #[trigger] river_edge_ok(
                *grid,
                *catalog,
                x,
                y,
                d,
            ) by {
                if grid.at(x, y) is Some {
                    let t = grid.at(x, y)->Some_0;
                    let nx = x + dir_dx(d);
                    let ny = y + dir_dy(d);
                    if g_mid.at(x, y) is Some {
                        assert(grid.at(x, y) == g_mid.at(x, y));
                        assert(river_edge_ok(g_mid, *catalog, x, y, d));
                        if edge_toward(*catalog, t, d) == Feature::River && grid.in_bounds(
                            nx,
                            ny,
                        ) {
                            assert(g_mid.at(nx, ny) is Some);
                            assert(grid.at(nx, ny) == g_mid.at(nx, ny));
                        }
                    } else {
                        // a fill tile from a river-free range shows no river edge
                        assert(g_mid.at(x, y) is None);
                        assert(base_lo <= t.tile_spec < base_hi && t.rotation < 4);
                        assert(0 <= (d + t.rotation as int) % 4 < 4);
                        assert(catalog.spec_at(t.tile_spec as int).edge_features[(d
                            + t.rotation as int) % 4] != Feature::River);
                    }
                }
            }
        }
    }
    ok
}

} // verus!
