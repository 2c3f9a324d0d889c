use tilemap::art::{load_base_game_tiles, load_river_game_tiles, BaseGameTileArt, RiverTileArt};
use tilemap::deck::build_draw_deck;
use tilemap::tile::{Feature, TileCatalog};

fn no_base_art() -> BaseGameTileArt {
    BaseGameTileArt {
        cityew: None,
        cityew_shield: None,
        cityn: None,
        citynesw_shield: None,
        citynew: None,
        citynew_roads: None,
        citynew_roads_shield: None,
        citynew_shield: None,
        citynw: None,
        citynw_roades: None,
        citynw_roades_shield: None,
        citynw_shield: None,
        cityn_citys: None,
        cityn_cityw: None,
        cityn_roades: None,
        cityn_roadesw: None,
        cityn_roadew: None,
        cityn_roadsw: None,
        cloister: None,
        cloister_roads: None,
        roadesw: None,
        roadnesw: None,
        roadns: None,
        roadsw: None,
    }
}

fn full_base_art() -> BaseGameTileArt {
    BaseGameTileArt {
        cityew: Some(String::from("cityew.png")),
        cityew_shield: Some(String::from("cityew_shield.png")),
        cityn: Some(String::from("cityn.png")),
        citynesw_shield: Some(String::from("citynesw_shield.png")),
        citynew: Some(String::from("citynew.png")),
        citynew_roads: Some(String::from("citynew_roads.png")),
        citynew_roads_shield: Some(String::from("citynew_roads_shield.png")),
        citynew_shield: Some(String::from("citynew_shield.png")),
        citynw: Some(String::from("citynw.png")),
        citynw_roades: Some(String::from("citynw_roades.png")),
        citynw_roades_shield: Some(String::from("citynw_roades_shield.png")),
        citynw_shield: Some(String::from("citynw_shield.png")),
        cityn_citys: Some(String::from("cityn_citys.png")),
        cityn_cityw: Some(String::from("cityn_cityw.png")),
        cityn_roades: Some(String::from("cityn_roades.png")),
        cityn_roadesw: Some(String::from("cityn_roadesw.png")),
        cityn_roadew: Some(String::from("cityn_roadew.png")),
        cityn_roadsw: Some(String::from("cityn_roadsw.png")),
        cloister: Some(String::from("cloister.png")),
        cloister_roads: Some(String::from("cloister_roads.png")),
        roadesw: Some(String::from("roadesw.png")),
        roadnesw: Some(String::from("roadnesw.png")),
        roadns: Some(String::from("roadns.png")),
        roadsw: Some(String::from("roadsw.png")),
    }
}

fn full_river_art() -> RiverTileArt {
    RiverTileArt {
        cloister_riverew_roads: Some(String::from("cloister_riverew_roads.png")),
        riveres_citynw: Some(String::from("riveres_citynw.png")),
        riverew: Some(String::from("riverew.png")),
        riverew_cityn_citys: Some(String::from("riverew_cityn_citys.png")),
        riverew_cityn_roads: Some(String::from("riverew_cityn_roads.png")),
        riverew_roadns: Some(String::from("riverew_roadns.png")),
        riversw: Some(String::from("riversw.png")),
        riversw_roadne: Some(String::from("riversw_roadne.png")),
    }
}

#[test]
fn absent_entries_contribute_nothing() {
    let (tiles, urls) = load_base_game_tiles(&no_base_art());
    assert!(tiles.is_empty());
    assert!(urls.is_empty());
}

#[test]
fn present_entries_come_in_configuration_order() {
    let mut art = no_base_art();
    art.cityn = Some(String::from("a.png"));
    art.roadns = Some(String::from("b.png"));
    let (tiles, urls) = load_base_game_tiles(&art);
    assert_eq!(tiles.len(), 2);
    assert_eq!(
        tiles[0].edge_features,
        [Feature::City, Feature::Field, Feature::Field, Feature::Field]
    );
    assert_eq!(tiles[0].count, 5);
    assert!(!tiles[0].cloister);
    assert_eq!(
        tiles[1].edge_features,
        [Feature::Road, Feature::Field, Feature::Road, Feature::Field]
    );
    assert_eq!(tiles[1].count, 8);
    assert_eq!(urls, vec![String::from("a.png"), String::from("b.png")]);
}

#[test]
fn full_base_catalog_has_24_kinds_and_71_copies() {
    let (tiles, urls) = load_base_game_tiles(&full_base_art());
    assert_eq!(tiles.len(), 24);
    assert_eq!(urls.len(), 24);
    // the shield flag follows the configuration key
    assert!(tiles[1].shield);
    assert!(!tiles[0].shield);
    // the two cloister kinds carry the cloister flag
    assert!(tiles[18].cloister);
    assert!(tiles[19].cloister);
    let catalog = TileCatalog::new(tiles);
    let deck = build_draw_deck(&catalog, 0, 24);
    assert_eq!(deck.len(), 71);
}

#[test]
fn river_catalog_starts_with_the_straight_and_has_8_kinds() {
    let (tiles, urls) = load_river_game_tiles(&full_river_art());
    assert_eq!(tiles.len(), 8);
    assert_eq!(
        tiles[0].edge_features,
        [Feature::Field, Feature::River, Feature::Field, Feature::River]
    );
    assert_eq!(urls[0], String::from("riverew.png"));
    assert!(tiles[1].cloister);
    for t in &tiles {
        assert_eq!(t.count, 1);
    }
    let catalog = TileCatalog::new(tiles);
    let deck = build_draw_deck(&catalog, 0, 8);
    assert_eq!(deck.len(), 8);
}

#[test]
fn river_loader_skips_absent_entries() {
    let art = RiverTileArt {
        cloister_riverew_roads: None,
        riveres_citynw: None,
        riverew: None,
        riverew_cityn_citys: None,
        riverew_cityn_roads: Some(String::from("x.png")),
        riverew_roadns: None,
        riversw: None,
        riversw_roadne: None,
    };
    let (tiles, urls) = load_river_game_tiles(&art);
    assert_eq!(tiles.len(), 1);
    assert_eq!(
        tiles[0].edge_features,
        [Feature::City, Feature::River, Feature::Road, Feature::River]
    );
    assert_eq!(urls, vec![String::from("x.png")]);
}
