use roguelike::astar::a_star_search;
use roguelike::camera::{camera_view, debug_map_view, entity_screen_position, view_cells, CameraCell};
use roguelike::dungeon::MasterDungeonMap;
use roguelike::fov::{field_of_view, Cardinal, Quadrant};
use roguelike::map::TileMap;
use roguelike::point::{distance_squared, Point};
use roguelike::rect::Rect;
use roguelike::themes::{tile_char, wall_glyph};
use roguelike::tile::{step_cost, tile_opaque, tile_walkable, TileType};

const ALL_TILES: [TileType; 11] = [
    TileType::Wall,
    TileType::Floor,
    TileType::DownStairs,
    TileType::Road,
    TileType::Grass,
    TileType::ShallowWater,
    TileType::DeepWater,
    TileType::WoodFloor,
    TileType::Bridge,
    TileType::Gravel,
    TileType::UpStairs,
];

/// A `w` by `h` room: floor inside, walls round the edge.
fn room(w: i32, h: i32) -> TileMap {
    let mut map = TileMap::new(1, w, h, String::new());
    for y in 1..h - 1 {
        for x in 1..w - 1 {
            let idx = map.xy_idx(x, y);
            map.tiles[idx] = TileType::Floor;
        }
    }
    map.populate_blocked();
    map
}

#[test]
fn new_map_is_all_wall() {
    let map = TileMap::new(3, 4, 2, String::from("Cave"));
    assert_eq!(map.tiles.len(), 8);
    assert!(map.tiles.iter().all(|t| *t == TileType::Wall));
    assert!(map.revealed_tiles.iter().all(|r| !*r));
    assert_eq!(map.depth, 3);
    assert_eq!(map.name, "Cave");
    assert_eq!(map.tile_content.len(), 8);
}

#[test]
fn xy_idx_is_row_major() {
    let map = TileMap::new(1, 7, 5, String::new());
    assert_eq!(map.xy_idx(0, 0), 0);
    assert_eq!(map.xy_idx(3, 0), 3);
    assert_eq!(map.xy_idx(0, 1), 7);
    assert_eq!(map.xy_idx(6, 4), 34);
}

#[test]
fn populate_blocked_follows_walkability() {
    let mut map = TileMap::new(1, 4, 1, String::new());
    map.tiles[1] = TileType::Floor;
    map.tiles[2] = TileType::DeepWater;
    map.tiles[3] = TileType::ShallowWater;
    map.populate_blocked();
    assert_eq!(map.blocked, vec![true, false, true, false]);
    assert!(!map.is_exit_valid(0, 0));
    assert!(map.is_exit_valid(1, 0));
    assert!(!map.is_exit_valid(4, 0));
    assert!(!map.is_exit_valid(-1, 0));
}

#[test]
fn opaque_tiles_are_never_walkable() {
    for t in ALL_TILES.iter() {
        if tile_opaque(*t) {
            assert!(!tile_walkable(*t));
        }
    }
    assert!(tile_opaque(TileType::Wall));
    assert!(!tile_opaque(TileType::DeepWater));
    assert!(!tile_walkable(TileType::DeepWater));
}

#[test]
fn step_costs_scale_the_game_costs() {
    assert_eq!(step_cost(TileType::Floor, false), 256);
    assert_eq!(step_cost(TileType::Floor, true), 371);
    assert_eq!(step_cost(TileType::Road, false), 204);
    assert_eq!(step_cost(TileType::Grass, false), 281);
    assert_eq!(step_cost(TileType::ShallowWater, true), 445);
}

#[test]
fn available_exits_skip_walls() {
    let map = room(5, 5);
    let idx = map.xy_idx(1, 1);
    let exits = map.get_available_exits(idx);
    let cells: Vec<usize> = exits.iter().map(|e| e.0).collect();
    assert!(cells.contains(&map.xy_idx(2, 1)));
    assert!(cells.contains(&map.xy_idx(1, 2)));
    assert!(cells.contains(&map.xy_idx(2, 2)));
    assert!(!cells.contains(&map.xy_idx(0, 1)));
    let diag = exits.iter().find(|e| e.0 == map.xy_idx(2, 2)).unwrap();
    assert!(diag.1);
}

#[test]
fn rect_overlap_is_symmetric() {
    let a = Rect::new(0, 0, 5, 5);
    let b = Rect::new(4, 4, 3, 3);
    let c = Rect::new(6, 0, 2, 2);
    assert_eq!(a.intersects(&b), b.intersects(&a));
    assert!(a.intersects(&b));
    assert_eq!(a.intersects(&c), c.intersects(&a));
    assert!(!a.intersects(&c));
    assert_eq!(a.center(), (2, 2));
    assert_eq!(Rect::new(-5, -3, 0, 0).center(), (-5, -3));
}

#[test]
fn distance_squared_of_points() {
    assert_eq!(distance_squared(Point::new(0, 0), Point::new(3, 4)), 25);
    assert_eq!(distance_squared(Point::new(-2, 1), Point::new(-2, 1)), 0);
}

#[test]
fn quadrant_transform_maps_rows_and_columns() {
    let origin = Point::new(10, 20);
    assert_eq!(Quadrant::new(Cardinal::North, origin).transform((2, 1)), (11, 18));
    assert_eq!(Quadrant::new(Cardinal::South, origin).transform((2, 1)), (11, 22));
    assert_eq!(Quadrant::new(Cardinal::East, origin).transform((2, 1)), (12, 21));
    assert_eq!(Quadrant::new(Cardinal::West, origin).transform((2, 1)), (8, 21));
}

#[test]
fn field_of_view_sees_the_open_room() {
    let map = room(11, 11);
    let seen = field_of_view(Point::new(5, 5), 8, &map);
    assert_eq!(seen[0], Point::new(5, 5));
    assert!(seen.contains(&Point::new(1, 1)));
    assert!(seen.contains(&Point::new(9, 9)));
    assert!(seen.contains(&Point::new(0, 5)));
    for p in seen.iter() {
        assert!(p.x >= 0 && p.x < 11 && p.y >= 0 && p.y < 11);
    }
}

#[test]
fn field_of_view_is_blocked_by_walls() {
    let mut map = room(11, 11);
    for y in 1..10 {
        let idx = map.xy_idx(7, y);
        map.tiles[idx] = TileType::Wall;
    }
    let seen = field_of_view(Point::new(5, 5), 8, &map);
    assert!(seen.contains(&Point::new(7, 5)));
    assert!(!seen.contains(&Point::new(8, 5)));
    assert!(!seen.contains(&Point::new(9, 2)));
}

#[test]
fn field_of_view_stays_in_its_circle() {
    let map = room(21, 21);
    let seen = field_of_view(Point::new(10, 10), 2, &map);
    assert!(seen.contains(&Point::new(12, 10)));
    assert!(seen.contains(&Point::new(10, 12)));
    assert!(!seen.contains(&Point::new(12, 12)));
    assert!(!seen.contains(&Point::new(13, 10)));
}

#[test]
fn a_star_finds_a_walk_along_a_corridor() {
    let map = room(10, 3);
    let (path, cost) = a_star_search(Point::new(1, 1), Point::new(8, 1), &map).unwrap();
    assert_eq!(path[0], Point::new(1, 1));
    assert_eq!(*path.last().unwrap(), Point::new(8, 1));
    assert_eq!(path.len(), 8);
    assert_eq!(cost, 7 * 256);
}

#[test]
fn a_star_gives_up_behind_a_wall() {
    let mut map = room(10, 5);
    for y in 1..4 {
        let idx = map.xy_idx(5, y);
        map.tiles[idx] = TileType::Wall;
    }
    map.populate_blocked();
    assert!(a_star_search(Point::new(1, 1), Point::new(8, 3), &map).is_none());
}

#[test]
fn camera_shows_revealed_tiles_and_marks_the_edge() {
    let mut map = room(3, 3);
    let centre = map.xy_idx(1, 1);
    map.revealed_tiles[centre] = true;
    let cells = view_cells(&map, 0, 4, 1, 2, 3, 3, 1, 1);
    assert_eq!(cells, vec![(2, 1, CameraCell::Tile { idx: centre }), (4, 1, CameraCell::Boundary)]);
    let around = camera_view(&map, (-1, 2, 0, 1));
    assert_eq!(around, vec![(1, 1, CameraCell::Boundary)]);
}

#[test]
fn debug_view_treats_the_last_row_and_column_as_edge() {
    let mut map = room(3, 3);
    for r in map.revealed_tiles.iter_mut() {
        *r = true;
    }
    let cells = debug_map_view(&map, 2, 1);
    assert_eq!(cells, vec![(0, 0, CameraCell::Tile { idx: map.xy_idx(0, 1) }), (1, 0, CameraCell::Tile { idx: map.xy_idx(1, 1) })]);
}

#[test]
fn entities_are_drawn_only_where_seen() {
    let mut map = room(5, 5);
    let idx = map.xy_idx(2, 3);
    assert_eq!(entity_screen_position(&map, 0, 0, 2, 3), None);
    map.visible_tiles[idx] = true;
    assert_eq!(entity_screen_position(&map, 0, 0, 2, 3), Some((3, 4)));
    assert_eq!(entity_screen_position(&map, 3, 0, 2, 3), None);
}

#[test]
fn walls_pick_their_glyph_from_their_neighbours() {
    let mut map = room(5, 5);
    for r in map.revealed_tiles.iter_mut() {
        *r = true;
    }
    assert_eq!(wall_glyph(&map, 0, 2), 186);
    assert_eq!(wall_glyph(&map, 2, 0), 205);
    assert_eq!(tile_char(TileType::Floor), '.');
    assert_eq!(tile_char(TileType::Wall), '#');
}

#[test]
fn stored_maps_come_back_without_their_contents() {
    let mut map = room(4, 3);
    map.depth = 7;
    map.tile_content[5].push(42);
    let mut store = MasterDungeonMap::new();
    assert!(store.get_map(7).is_none());
    store.store_map(&map);
    let back = store.get_map(7).unwrap();
    assert_eq!(back.tiles, map.tiles);
    assert_eq!(back.depth, 7);
    assert_eq!(back.tile_content.len(), 12);
    assert!(back.tile_content.iter().all(|c| c.is_empty()));
    assert!(store.get_map(6).is_none());
}
