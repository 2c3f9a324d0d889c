//! Building the tile catalog from a configuration payload: each optional
//! artwork entry that is present contributes one tile kind with its fixed
//! edges, multiplicity and flags, paired with the artwork locator for the
//! renderer. The engine itself never looks at the artwork.

use vstd::prelude::*;
use crate::tile::{Feature, TileSpec};

verus! {

/// The base-game artwork configuration: one optional locator per tile kind.
pub struct BaseGameTileArt {
    pub cityew: Option<String>,
    pub cityew_shield: Option<String>,
    pub cityn: Option<String>,
    pub citynesw_shield: Option<String>,
    pub citynew: Option<String>,
    pub citynew_roads: Option<String>,
    pub citynew_roads_shield: Option<String>,
    pub citynew_shield: Option<String>,
    pub citynw: Option<String>,
    pub citynw_roades: Option<String>,
    pub citynw_roades_shield: Option<String>,
    pub citynw_shield: Option<String>,
    pub cityn_citys: Option<String>,
    pub cityn_cityw: Option<String>,
    pub cityn_roades: Option<String>,
    pub cityn_roadesw: Option<String>,
    pub cityn_roadew: Option<String>,
    pub cityn_roadsw: Option<String>,
    pub cloister: Option<String>,
    pub cloister_roads: Option<String>,
    pub roadesw: Option<String>,
    pub roadnesw: Option<String>,
    pub roadns: Option<String>,
    pub roadsw: Option<String>,
}

/// The river-expansion artwork configuration.
pub struct RiverTileArt {
    pub cloister_riverew_roads: Option<String>,
    pub riveres_citynw: Option<String>,
    pub riverew: Option<String>,
    pub riverew_cityn_citys: Option<String>,
    pub riverew_cityn_roads: Option<String>,
    pub riverew_roadns: Option<String>,
    pub riversw: Option<String>,
    pub riversw_roadne: Option<String>,
}

/// The full configuration payload: base game and river expansion.
pub struct TileArt {
    pub base: Option<BaseGameTileArt>,
    pub river: Option<RiverTileArt>,
}

/// A tile kind with the given edges (north, east, south, west), flags and
/// multiplicity.
pub open spec fn tile(
    n: Feature,
    e: Feature,
    s: Feature,
    w: Feature,
    cloister: bool,
    shield: bool,
    count: u32,
) -> TileSpec {
    TileSpec { cloister, shield, edge_features: [n, e, s, w], count }
}

/// The tile kinds one optional artwork entry contributes: the given kind if
/// the entry is present, nothing otherwise.
pub open spec fn entry_specs(o: Option<String>, t: TileSpec) -> Seq<TileSpec> {
    if o is Some {
        seq![t]
    } else {
        Seq::empty()
    }
}

/// The artwork locators one optional entry contributes.
pub open spec fn entry_urls(o: Option<String>) -> Seq<String> {
    match o {
        Some(s) => seq![s],
        None => Seq::empty(),
    }
}

fn push_entry(tiles: &mut Vec<TileSpec>, urls: &mut Vec<String>, url: &Option<String>, t: TileSpec)
    ensures
        final(tiles)@ == old(tiles)@ + entry_specs(*url, t),
        final(urls)@ == old(urls)@ + entry_urls(*url),
{
    match url {
        Some(u) => {
            tiles.push(t);
            urls.push(u.clone());
            proof {
                assert(tiles@ =~= old(tiles)@ + entry_specs(*url, t));
                assert(urls@ =~= old(urls)@ + entry_urls(*url));
            }
        },
        None => {
            proof {
                assert(tiles@ =~= old(tiles)@ + entry_specs(*url, t));
                assert(urls@ =~= old(urls)@ + entry_urls(*url));
            }
        },
    }
}

/// The base-game tile kinds, in configuration order, for the entries present
/// in `a`.
pub open spec fn base_tile_specs(a: BaseGameTileArt) -> Seq<TileSpec> {
    entry_specs(a.cityew, tile(Feature::Field, Feature::City, Feature::Field, Feature::City, false, false, 1))
        + entry_specs(a.cityew_shield, tile(Feature::Field, Feature::City, Feature::Field, Feature::City, false, true, 2))
        + entry_specs(a.cityn, tile(Feature::City, Feature::Field, Feature::Field, Feature::Field, false, false, 5))
        + entry_specs(a.citynesw_shield, tile(Feature::City, Feature::City, Feature::City, Feature::City, false, true, 1))
        + entry_specs(a.citynew, tile(Feature::City, Feature::City, Feature::Field, Feature::City, false, false, 3))
        + entry_specs(a.citynew_roads, tile(Feature::City, Feature::City, Feature::Road, Feature::City, false, false, 1))
        + entry_specs(a.citynew_roads_shield, tile(Feature::City, Feature::City, Feature::Road, Feature::City, false, true, 1))
        + entry_specs(a.citynew_shield, tile(Feature::City, Feature::City, Feature::Field, Feature::City, false, true, 1))
        + entry_specs(a.citynw, tile(Feature::City, Feature::Field, Feature::Field, Feature::City, false, false, 3))
        + entry_specs(a.citynw_roades, tile(Feature::City, Feature::Road, Feature::Road, Feature::City, false, false, 3))
        + entry_specs(a.citynw_roades_shield, tile(Feature::City, Feature::Road, Feature::Road, Feature::City, false, true, 2))
        + entry_specs(a.citynw_shield, tile(Feature::City, Feature::Field, Feature::Field, Feature::City, false, true, 2))
        + entry_specs(a.cityn_citys, tile(Feature::City, Feature::Field, Feature::City, Feature::Field, false, false, 3))
        + entry_specs(a.cityn_cityw, tile(Feature::City, Feature::Field, Feature::Field, Feature::City, false, false, 2))
        + entry_specs(a.cityn_roades, tile(Feature::City, Feature::Road, Feature::Road, Feature::Field, false, false, 3))
        + entry_specs(a.cityn_roadesw, tile(Feature::City, Feature::Road, Feature::Road, Feature::Road, false, false, 3))
        + entry_specs(a.cityn_roadew, tile(Feature::City, Feature::Road, Feature::Field, Feature::Road, false, false, 4))
        + entry_specs(a.cityn_roadsw, tile(Feature::City, Feature::Field, Feature::Road, Feature::Road, false, false, 3))
        + entry_specs(a.cloister, tile(Feature::Field, Feature::Field, Feature::Field, Feature::Field, true, false, 4))
        + entry_specs(a.cloister_roads, tile(Feature::Field, Feature::Field, Feature::Road, Feature::Field, true, false, 2))
        + entry_specs(a.roadesw, tile(Feature::Field, Feature::Road, Feature::Road, Feature::Road, false, false, 4))
        + entry_specs(a.roadnesw, tile(Feature::Road, Feature::Road, Feature::Road, Feature::Road, false, false, 1))
        + entry_specs(a.roadns, tile(Feature::Road, Feature::Field, Feature::Road, Feature::Field, false, false, 8))
        + entry_specs(a.roadsw, tile(Feature::Field, Feature::Field, Feature::Road, Feature::Road, false, false, 9))
}

/// The artwork locators matching `base_tile_specs`, index for index.
pub open spec fn base_tile_urls(a: BaseGameTileArt) -> Seq<String> {
    entry_urls(a.cityew) + entry_urls(a.cityew_shield) + entry_urls(a.cityn) + entry_urls(
        a.citynesw_shield,
    ) + entry_urls(a.citynew) + entry_urls(a.citynew_roads) + entry_urls(a.citynew_roads_shield)
        + entry_urls(a.citynew_shield) + entry_urls(a.citynw) + entry_urls(a.citynw_roades)
        + entry_urls(a.citynw_roades_shield) + entry_urls(a.citynw_shield) + entry_urls(
        a.cityn_citys,
    ) + entry_urls(a.cityn_cityw) + entry_urls(a.cityn_roades) + entry_urls(a.cityn_roadesw)
        + entry_urls(a.cityn_roadew) + entry_urls(a.cityn_roadsw) + entry_urls(a.cloister)
        + entry_urls(a.cloister_roads) + entry_urls(a.roadesw) + entry_urls(a.roadnesw)
        + entry_urls(a.roadns) + entry_urls(a.roadsw)
}

/// Build the base-game catalog entries and their artwork locators from the
/// configuration: exactly the present entries, in configuration order.
pub fn load_base_game_tiles(art: &BaseGameTileArt) -> (r: (Vec<TileSpec>, Vec<String>))
    ensures
        r.0@ == base_tile_specs(*art),
        r.1@ == base_tile_urls(*art),
{
    let mut tiles: Vec<TileSpec> = Vec::new();
    let mut urls: Vec<String> = Vec::new();
    push_entry(&mut tiles, &mut urls, &art.cityew, TileSpec { cloister: false, shield: false, edge_features: [Feature::Field, Feature::City, Feature::Field, Feature::City], count: 1 });
    push_entry(&mut tiles, &mut urls, &art.cityew_shield, TileSpec { cloister: false, shield: true, edge_features: [Feature::Field, Feature::City, Feature::Field, Feature::City], count: 2 });
    push_entry(&mut tiles, &mut urls, &art.cityn, TileSpec { cloister: false, shield: false, edge_features: [Feature::City, Feature::Field, Feature::Field, Feature::Field], count: 5 });
    push_entry(&mut tiles, &mut urls, &art.citynesw_shield, TileSpec { cloister: false, shield: true, edge_features: [Feature::City, Feature::City, Feature::City, Feature::City], count: 1 });
    push_entry(&mut tiles, &mut urls, &art.citynew, TileSpec { cloister: false, shield: false, edge_features: [Feature::City, Feature::City, Feature::Field, Feature::City], count: 3 });
    push_entry(&mut tiles, &mut urls, &art.citynew_roads, TileSpec { cloister: false, shield: false, edge_features: [Feature::City, Feature::City, Feature::Road, Feature::City], count: 1 });
    push_entry(&mut tiles, &mut urls, &art.citynew_roads_shield, TileSpec { cloister: false, shield: true, edge_features: [Feature::City, Feature::City, Feature::Road, Feature::City], count: 1 });
    push_entry(&mut tiles, &mut urls, &art.citynew_shield, TileSpec { cloister: false, shield: true, edge_features: [Feature::City, Feature::City, Feature::Field, Feature::City], count: 1 });
    push_entry(&mut tiles, &mut urls, &art.citynw, TileSpec { cloister: false, shield: false, edge_features: [Feature::City, Feature::Field, Feature::Field, Feature::City], count: 3 });
    push_entry(&mut tiles, &mut urls, &art.citynw_roades, TileSpec { cloister: false, shield: false, edge_features: [Feature::City, Feature::Road, Feature::Road, Feature::City], count: 3 });
    push_entry(&mut tiles, &mut urls, &art.citynw_roades_shield, TileSpec { cloister: false, shield: true, edge_features: [Feature::City, Feature::Road, Feature::Road, Feature::City], count: 2 });
    push_entry(&mut tiles, &mut urls, &art.citynw_shield, TileSpec { cloister: false, shield: true, edge_features: [Feature::City, Feature::Field, Feature::Field, Feature::City], count: 2 });
    push_entry(&mut tiles, &mut urls, &art.cityn_citys, TileSpec { cloister: false, shield: false, edge_features: [Feature::City, Feature::Field, Feature::City, Feature::Field], count: 3 });
    push_entry(&mut tiles, &mut urls, &art.cityn_cityw, TileSpec { cloister: false, shield: false, edge_features: [Feature::City, Feature::Field, Feature::Field, Feature::City], count: 2 });
    push_entry(&mut tiles, &mut urls, &art.cityn_roades, TileSpec { cloister: false, shield: false, edge_features: [Feature::City, Feature::Road, Feature::Road, Feature::Field], count: 3 });
    push_entry(&mut tiles, &mut urls, &art.cityn_roadesw, TileSpec { cloister: false, shield: false, edge_features: [Feature::City, Feature::Road, Feature::Road, Feature::Road], count: 3 });
    push_entry(&mut tiles, &mut urls, &art.cityn_roadew, TileSpec { cloister: false, shield: false, edge_features: [Feature::City, Feature::Road, Feature::Field, Feature::Road], count: 4 });
    push_entry(&mut tiles, &mut urls, &art.cityn_roadsw, TileSpec { cloister: false, shield: false, edge_features: [Feature::City, Feature::Field, Feature::Road, Feature::Road], count: 3 });
    push_entry(&mut tiles, &mut urls, &art.cloister, TileSpec { cloister: true, shield: false, edge_features: [Feature::Field, Feature::Field, Feature::Field, Feature::Field], count: 4 });
    push_entry(&mut tiles, &mut urls, &art.cloister_roads, TileSpec { cloister: true, shield: false, edge_features: [Feature::Field, Feature::Field, Feature::Road, Feature::Field], count: 2 });
    push_entry(&mut tiles, &mut urls, &art.roadesw, TileSpec { cloister: false, shield: false, edge_features: [Feature::Field, Feature::Road, Feature::Road, Feature::Road], count: 4 });
    push_entry(&mut tiles, &mut urls, &art.roadnesw, TileSpec { cloister: false, shield: false, edge_features: [Feature::Road, Feature::Road, Feature::Road, Feature::Road], count: 1 });
    push_entry(&mut tiles, &mut urls, &art.roadns, TileSpec { cloister: false, shield: false, edge_features: [Feature::Road, Feature::Field, Feature::Road, Feature::Field], count: 8 });
    push_entry(&mut tiles, &mut urls, &art.roadsw, TileSpec { cloister: false, shield: false, edge_features: [Feature::Field, Feature::Field, Feature::Road, Feature::Road], count: 9 });
    proof {
        assert(tiles@ =~= base_tile_specs(*art));
        assert(urls@ =~= base_tile_urls(*art));
    }
    (tiles, urls)
}

/// The river tile kinds, in configuration order, for the entries present
/// in `a`. The east-west straight comes first: a deck built over this range
/// seeds the river walk with it.
pub open spec fn river_tile_specs(a: RiverTileArt) -> Seq<TileSpec> {
    entry_specs(a.riverew, tile(Feature::Field, Feature::River, Feature::Field, Feature::River, false, false, 1))
        + entry_specs(a.cloister_riverew_roads, tile(Feature::Field, Feature::River, Feature::Road, Feature::River, true, false, 1))
        + entry_specs(a.riveres_citynw, tile(Feature::City, Feature::River, Feature::River, Feature::City, false, false, 1))
        + entry_specs(a.riverew_cityn_citys, tile(Feature::City, Feature::River, Feature::City, Feature::River, false, false, 1))
        + entry_specs(a.riverew_cityn_roads, tile(Feature::City, Feature::River, Feature::Road, Feature::River, false, false, 1))
        + entry_specs(a.riverew_roadns, tile(Feature::Road, Feature::River, Feature::Road, Feature::River, false, false, 1))
        + entry_specs(a.riversw, tile(Feature::Field, Feature::Field, Feature::River, Feature::River, false, false, 1))
        + entry_specs(a.riversw_roadne, tile(Feature::Road, Feature::Road, Feature::River, Feature::River, false, false, 1))
}

/// The artwork locators matching `river_tile_specs`, index for index.
pub open spec fn river_tile_urls(a: RiverTileArt) -> Seq<String> {
    entry_urls(a.riverew) + entry_urls(a.cloister_riverew_roads) + entry_urls(a.riveres_citynw)
        + entry_urls(a.riverew_cityn_citys) + entry_urls(a.riverew_cityn_roads) + entry_urls(
        a.riverew_roadns,
    ) + entry_urls(a.riversw) + entry_urls(a.riversw_roadne)
}

/// Build the river-expansion catalog entries and their artwork locators from
/// the configuration: exactly the present entries, in configuration order.
pub fn load_river_game_tiles(art: &RiverTileArt) -> (r: (Vec<TileSpec>, Vec<String>))
    ensures
        r.0@ == river_tile_specs(*art),
        r.1@ == river_tile_urls(*art),
{
    let mut tiles: Vec<TileSpec> = Vec::new();
    let mut urls: Vec<String> = Vec::new();
    push_entry(&mut tiles, &mut urls, &art.riverew, TileSpec { cloister: false, shield: false, edge_features: [Feature::Field, Feature::River, Feature::Field, Feature::River], count: 1 });
    push_entry(&mut tiles, &mut urls, &art.cloister_riverew_roads, TileSpec { cloister: true, shield: false, edge_features: [Feature::Field, Feature::River, Feature::Road, Feature::River], count: 1 });
    push_entry(&mut tiles, &mut urls, &art.riveres_citynw, TileSpec { cloister: false, shield: false, edge_features: [Feature::City, Feature::River, Feature::River, Feature::City], count: 1 });
    push_entry(&mut tiles, &mut urls, &art.riverew_cityn_citys, TileSpec { cloister: false, shield: false, edge_features: [Feature::City, Feature::River, Feature::City, Feature::River], count: 1 });
    push_entry(&mut tiles, &mut urls, &art.riverew_cityn_roads, TileSpec { cloister: false, shield: false, edge_features: [Feature::City, Feature::River, Feature::Road, Feature::River], count: 1 });
    push_entry(&mut tiles, &mut urls, &art.riverew_roadns, TileSpec { cloister: false, shield: false, edge_features: [Feature::Road, Feature::River, Feature::Road, Feature::River], count: 1 });
    push_entry(&mut tiles, &mut urls, &art.riversw, TileSpec { cloister: false, shield: false, edge_features: [Feature::Field, Feature::Field, Feature::River, Feature::River], count: 1 });
    push_entry(&mut tiles, &mut urls, &art.riversw_roadne, TileSpec { cloister: false, shield: false, edge_features: [Feature::Road, Feature::Road, Feature::River, Feature::River], count: 1 });
    proof {
        assert(tiles@ =~= river_tile_specs(*art));
        assert(urls@ =~= river_tile_urls(*art));
    }
    (tiles, urls)
}

} // verus!
