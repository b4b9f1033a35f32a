use maplewood::world::{is_single_map, is_tile_layer, level_is_loadable, world_is_loadable, CellQuarters, GameMap, LdtkLayer, LdtkLevel, LdtkTile, LdtkWorld, World};

fn tile(x: i64, y: i64, t: i64) -> LdtkTile {
    LdtkTile { px: vec![x, y], t }
}

fn layer(name: &str, kind: &str, tileset: Option<&str>, grid: Vec<LdtkTile>, auto: Vec<LdtkTile>, csv: Vec<i64>) -> LdtkLayer {
    LdtkLayer {
        identifier: name.to_string(),
        layer_instance_type: kind.to_string(),
        tileset_rel_path: tileset.map(|s| s.to_string()),
        px_total_offset_x: 0,
        px_total_offset_y: 0,
        grid_tiles: grid,
        auto_layer_tiles: auto,
        int_grid_csv: csv,
    }
}

fn level(name: &str, w: i64, h: i64, x: i64, y: i64, layers: Vec<LdtkLayer>) -> LdtkLevel {
    LdtkLevel { identifier: name.to_string(), px_wid: w, px_hei: h, world_x: x, world_y: y, layer_instances: Some(layers) }
}

#[test]
fn tile_layers_are_recognised() {
    assert!(is_tile_layer(&layer("a", "Tiles", None, vec![], vec![], vec![])));
    assert!(is_tile_layer(&layer("a", "AutoLayer", None, vec![], vec![], vec![])));
    assert!(is_tile_layer(&layer("a", "IntGrid", Some("t.png"), vec![], vec![], vec![])));
    assert!(!is_tile_layer(&layer("a", "IntGrid", None, vec![], vec![], vec![])));
    assert!(!is_tile_layer(&layer("a", "Entities", Some("t.png"), vec![], vec![], vec![])));
}

#[test]
fn level_map_places_tiles_by_pixel_position() {
    // A 2x2 cell level (32x32 pixels).
    let ground = layer("ground", "Tiles", Some("tiles.png"), vec![tile(0, 0, 5), tile(16, 16, 7)], vec![tile(16, 0, 9)], vec![]);
    let deco = layer("deco", "AutoLayer", Some("deco.png"), vec![tile(0, 16, 3)], vec![], vec![]);
    let coll = layer("collision_map", "IntGrid", None, vec![], vec![], vec![1, 0, 0, 0, 2, 1, 0, 0, 0, 0, 0, 0, 1, 1, 1, 1]);
    let lv = level("room", 32, 32, 0, 0, vec![ground, deco, coll]);
    let m = GameMap::from_ldtk_level(&lv);
    assert_eq!(m.name, "room");
    assert_eq!((m.dimensions.x, m.dimensions.y), (2, 2));
    assert_eq!((m.offset.x, m.offset.y), (0, 0));
    // Drawing order is the reverse of LDtk's.
    assert_eq!(m.tile_layers.len(), 2);
    assert_eq!(m.tile_layers[0].name, "deco");
    assert_eq!(m.tile_layers[1].name, "ground");
    assert_eq!(m.tile_layers[1].tileset_path, "tiles.png");
    assert_eq!(m.tile_layers[1].tile_ids, vec![Some(5), Some(9), None, Some(7)]);
    assert_eq!(m.tile_layers[0].tile_ids, vec![None, None, Some(3), None]);
    assert_eq!(m.collision_map.len(), 16);
    assert_eq!(m.collision_map[0], Some(()));
    assert_eq!(m.collision_map[4], None);
    assert_eq!(m.collision_map[5], Some(()));
}

#[test]
fn later_tile_wins_on_a_cell() {
    let ground = layer("ground", "Tiles", Some("t.png"), vec![tile(0, 0, 1), tile(2, 3, 2)], vec![tile(15, 15, 4)], vec![]);
    let coll = layer("collision_map", "IntGrid", None, vec![], vec![], vec![0, 0, 0, 0]);
    let m = GameMap::from_ldtk_level(&level("one", 16, 16, 0, 0, vec![ground, coll]));
    assert_eq!(m.tile_layers[0].tile_ids, vec![Some(4)]);
}

#[test]
fn world_map_joins_levels() {
    // Two 1x1-cell levels side by side at cells (0,0) and (1,0); each level
    // is 16 pixels wide and high.
    let a = level("a", 16, 16, 0, 0, vec![
        layer("ground", "Tiles", Some("t.png"), vec![tile(0, 0, 1)], vec![], vec![]),
        layer("collision_map", "IntGrid", None, vec![], vec![], vec![1, 0, 0, 1]),
    ]);
    let b = level("b", 16, 16, 16, 0, vec![
        layer("ground", "Tiles", Some("t.png"), vec![tile(0, 0, 2)], vec![], vec![]),
        layer("collision_map", "IntGrid", None, vec![], vec![], vec![0, 1, 1, 0]),
    ]);
    let w = LdtkWorld { identifier: "overworld".to_string(), levels: vec![a, b] };
    let m = GameMap::from_ldtk_world(&w);
    assert_eq!(m.name, "overworld");
    assert_eq!((m.offset.x, m.offset.y), (0, 0));
    assert_eq!((m.dimensions.x, m.dimensions.y), (2, 1));
    assert_eq!(m.tile_layers.len(), 1);
    assert_eq!(m.tile_layers[0].tile_ids, vec![Some(1), Some(2)]);
    // Collision grid: 2 entries per cell each way, 4 wide, 2 high.
    assert_eq!(m.collision_map, vec![Some(()), None, None, Some(()), None, Some(()), Some(()), None]);
    let q = m.collision_quarters(1, 0);
    assert_eq!(q, CellQuarters { top_left: false, top_right: true, bottom_left: true, bottom_right: false });
}

#[test]
fn world_map_bounds_follow_levels() {
    // A level at cell (2,3), 1 cell wide and 2 high: the right edge adds
    // the level's width, the bottom edge its height.
    let a = level("a", 16, 32, 32, 48, vec![
        layer("collision_map", "IntGrid", None, vec![], vec![], vec![]),
    ]);
    let w = LdtkWorld { identifier: "w".to_string(), levels: vec![a] };
    let m = GameMap::from_ldtk_world(&w);
    assert_eq!((m.offset.x, m.offset.y), (2, 3));
    assert_eq!((m.dimensions.x, m.dimensions.y), (1, 2));
    assert!(m.tile_layers.is_empty());
    assert_eq!(m.collision_map.len(), 8);
}

#[test]
fn collision_quarters_outside_grid_do_not_block() {
    let coll = layer("collision_map", "IntGrid", None, vec![], vec![], vec![1, 1, 1, 1]);
    let m = GameMap::from_ldtk_level(&level("x", 16, 16, 0, 0, vec![coll]));
    let inside = m.collision_quarters(0, 0);
    assert!(inside.top_left && inside.top_right && inside.bottom_left && inside.bottom_right);
    let outside = m.collision_quarters(-1, 0);
    assert!(!outside.top_left && !outside.top_right);
    let none = CellQuarters { top_left: false, top_right: false, bottom_left: false, bottom_right: false };
    // The cell right of the map would wrap onto row 1 of the grid; it does not block.
    assert_eq!(m.collision_quarters(1, 0), none);
    assert_eq!(m.collision_quarters(0, -1), none);
    let below = m.collision_quarters(0, 5);
    assert_eq!(below, CellQuarters { top_left: false, top_right: false, bottom_left: false, bottom_right: false });
}

#[test]
fn quarter_lookup_range() {
    let coll = layer("collision_map", "IntGrid", None, vec![], vec![], vec![1, 1, 1, 1]);
    let m = GameMap::from_ldtk_level(&level("x", 16, 16, 0, 0, vec![coll]));
    assert!(m.quarters_fit_check(0, 0));
    assert!(m.quarters_fit_check(-5, 7));
    assert!(!m.quarters_fit_check(i32::MAX, 0));
    assert!(!m.quarters_fit_check(0, i32::MIN));
    assert!(m.quarters_fit_check(1_000_000, 0));
    assert!(!m.quarters_fit_check(0, 1_000_000_000));
}

#[test]
fn world_stores_maps_by_name() {
    let coll = layer("collision_map", "IntGrid", None, vec![], vec![], vec![]);
    let mut world = World::new();
    world.insert_map(GameMap::from_ldtk_level(&level("a", 16, 16, 0, 0, vec![coll.clone()])));
    world.insert_map(GameMap::from_ldtk_level(&level("b", 32, 16, 0, 0, vec![coll.clone()])));
    assert_eq!(world.maps.len(), 2);
    let b = world.get_map_id_by_name("b");
    assert_eq!(world.maps[b].dimensions.x, 2);
    // Storing a map of an existing name replaces it in place.
    world.insert_map(GameMap::from_ldtk_level(&level("b", 48, 16, 0, 0, vec![coll])));
    assert_eq!(world.maps.len(), 2);
    assert_eq!(world.get_map_id_by_name("b"), b);
    assert_eq!(world.maps[b].dimensions.x, 3);
    assert_eq!(world.get_map_id_by_name("a"), 0);
}

#[test]
fn worlds_with_a_world_map_level_become_one_map() {
    let coll = layer("collision_map", "IntGrid", None, vec![], vec![], vec![0, 0, 0, 0]);
    let single = LdtkWorld { identifier: "big".to_string(), levels: vec![level("_world_map", 16, 16, 0, 0, vec![coll.clone()])] };
    let split = LdtkWorld {
        identifier: "small".to_string(),
        levels: vec![level("r1", 16, 16, 0, 0, vec![coll.clone()]), level("r2", 16, 16, 16, 0, vec![coll])],
    };
    assert!(is_single_map(&single));
    assert!(!is_single_map(&split));
    let mut world = World::new();
    world.add_ldtk_world(&single);
    world.add_ldtk_world(&split);
    let names: Vec<&str> = world.maps.iter().map(|m| m.name.as_str()).collect();
    assert_eq!(names, vec!["big", "r1", "r2"]);
}

#[test]
fn loadability_checks() {
    let coll = layer("collision_map", "IntGrid", None, vec![], vec![], vec![0, 0, 0, 0]);
    let good = level("ok", 16, 16, 0, 0, vec![layer("g", "Tiles", Some("t.png"), vec![tile(0, 0, 1)], vec![], vec![]), coll.clone()]);
    assert!(level_is_loadable(&good));
    // A tile outside the level grid.
    let outside = level("out", 16, 16, 0, 0, vec![layer("g", "Tiles", Some("t.png"), vec![tile(16, 0, 1)], vec![], vec![]), coll.clone()]);
    assert!(!level_is_loadable(&outside));
    // A tile layer without a tileset.
    let no_tileset = level("nt", 16, 16, 0, 0, vec![layer("g", "Tiles", None, vec![], vec![], vec![]), coll.clone()]);
    assert!(!level_is_loadable(&no_tileset));
    // No collision layer.
    let no_coll = level("nc", 16, 16, 0, 0, vec![layer("g", "Tiles", Some("t.png"), vec![], vec![], vec![])]);
    assert!(!level_is_loadable(&no_coll));
    // A tile with a single coordinate.
    let short = level("s", 16, 16, 0, 0, vec![layer("g", "Tiles", Some("t.png"), vec![LdtkTile { px: vec![0], t: 1 }], vec![], vec![]), coll.clone()]);
    assert!(!level_is_loadable(&short));
    let mut missing = good.clone();
    missing.layer_instances = None;
    assert!(!level_is_loadable(&missing));

    let world = LdtkWorld { identifier: "w".to_string(), levels: vec![good.clone()] };
    assert!(world_is_loadable(&world));
    assert!(!world_is_loadable(&LdtkWorld { identifier: "e".to_string(), levels: vec![] }));
    // The collision grid of a level reaches past the world's grid.
    let big_csv = level("b", 16, 16, 0, 0, vec![layer("collision_map", "IntGrid", None, vec![], vec![], vec![0; 5])]);
    assert!(!world_is_loadable(&LdtkWorld { identifier: "b".to_string(), levels: vec![big_csv] }));
    // A later level with more tile layers than the first.
    let two_layers = level("t", 16, 16, 16, 0, vec![
        layer("a", "Tiles", Some("t.png"), vec![], vec![], vec![]),
        layer("b", "Tiles", Some("t.png"), vec![], vec![], vec![]),
        coll,
    ]);
    assert!(!world_is_loadable(&LdtkWorld { identifier: "t".to_string(), levels: vec![good, two_layers] }));
}
