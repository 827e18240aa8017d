use rltk::RandomNumberGenerator;
use roguelike::builders::bsp_interior::BspInteriorBuilder;
use roguelike::builders::cellular_automata::CellularAutomataBuilder;
use roguelike::builders::common::{apply_room_to_map, draw_corridor, generate_voronoi_spawn_regions, get_central_starting_position};
use roguelike::builders::dla::DLABuilder;
use roguelike::builders::drunkard::cull_and_place_exit;
use roguelike::builders::distant_exit::UNREACHABLE;
use roguelike::builders::maze::{Cell, Grid, MazeBuilder, BOTTOM, LEFT, RIGHT, TOP};
use roguelike::builders::room_sorter::sort_rooms_by_x1;
use roguelike::builders::simple_map::{SimpleMapBuilder, MAX_SIZE, MIN_SIZE};
use roguelike::builders::town::TownBuilder;
use roguelike::builders::waveform_collapse::WaveformCollapseBuilder;
use roguelike::builders::wfc_constraints::{tile_idx_in_chunk, MapChunk};
use roguelike::builders::{initial_builder_kind, random_initial_builder, BuilderChain, InitialBuilderKind};
use roguelike::components::Position;
use roguelike::map::TileMap;
use roguelike::rect::Rect;
use roguelike::tile::TileType;

fn floor_count(map: &TileMap) -> usize {
    map.tiles.iter().filter(|t| **t == TileType::Floor).count()
}

#[test]
fn cell_walls_come_down_between_neighbours() {
    let mut a = Cell::new(2, 3);
    let mut b = Cell::new(2, 4);
    a.remove_walls(&mut b);
    assert!(!a.walls[RIGHT] && !b.walls[LEFT]);
    assert!(a.walls[TOP] && a.walls[BOTTOM] && a.walls[LEFT]);
    let mut c = Cell::new(1, 3);
    let mut d = Cell::new(2, 3);
    c.remove_walls(&mut d);
    assert!(!c.walls[BOTTOM] && !d.walls[TOP]);
    let mut e = Cell::new(0, 0);
    let mut f = Cell::new(5, 5);
    e.remove_walls(&mut f);
    assert_eq!(e.walls, [true; 4]);
    assert_eq!(f.walls, [true; 4]);
}

#[test]
fn grid_cells_sit_row_by_row() {
    let g = Grid::new(3, 2);
    assert_eq!(g.cells.len(), 6);
    assert_eq!((g.cells[4].row, g.cells[4].column), (1, 1));
    assert_eq!(g.calculate_index(1, 2), 5);
    assert_eq!(g.calculate_index(2, 0), -1);
    assert_eq!(g.calculate_index(0, -1), -1);
    assert_eq!(g.get_available_neighbors(), vec![1, 3]);
    assert_eq!(Grid::new(-1, 4).cells.len(), 0);
}

#[test]
fn the_maze_reaches_every_cell_with_walls_in_agreement() {
    let mut rng = RandomNumberGenerator::seeded(7);
    let mut builder = MazeBuilder::new(1, 20, 16);
    let mut grid = Grid::new(8, 6);
    grid.generate_maze(&mut builder, &mut rng);
    assert!(grid.cells.iter().all(|c| c.visited));
    assert!(grid.backtrace.is_empty());
    for (i, c) in grid.cells.iter().enumerate() {
        if c.column + 1 < 8 {
            assert_eq!(c.walls[RIGHT], grid.cells[i + 1].walls[LEFT]);
        } else {
            assert!(c.walls[RIGHT]);
        }
        if c.row + 1 < 6 {
            assert_eq!(c.walls[BOTTOM], grid.cells[i + 8].walls[TOP]);
        } else {
            assert!(c.walls[BOTTOM]);
        }
    }
    let open: usize = grid.cells.iter().map(|c| c.walls.iter().filter(|w| !**w).count()).sum();
    assert_eq!(open, 2 * (8 * 6 - 1));
    assert!(!builder.history.is_empty());
}

#[test]
fn the_maze_builder_starts_at_the_first_cell() {
    let mut rng = RandomNumberGenerator::seeded(3);
    let mut builder = MazeBuilder::new(1, 24, 20);
    builder.build(&mut rng);
    assert_eq!(builder.starting_position, Position { x: 2, y: 2 });
    let idx = builder.map.xy_idx(2, 2);
    assert_eq!(builder.map.tiles[idx], TileType::Floor);
    assert_eq!(builder.map.tiles[0], TileType::Wall);
}

#[test]
fn bsp_interior_rooms_never_overlap() {
    let mut rng = RandomNumberGenerator::seeded(11);
    let mut builder = BspInteriorBuilder::new(1, 40, 30);
    builder.build(&mut rng);
    let rooms = &builder.rooms;
    assert!(!rooms.is_empty());
    for a in 0..rooms.len() {
        for b in a + 1..rooms.len() {
            let (r, s) = (rooms[a], rooms[b]);
            assert!(r.x2 <= s.x1 || s.x2 <= r.x1 || r.y2 <= s.y1 || s.y2 <= r.y1);
        }
        assert!(rooms[a].x1 >= 1 && rooms[a].x2 <= 39 && rooms[a].y1 >= 1 && rooms[a].y2 <= 29);
    }
    let (cx, cy) = rooms[0].center();
    assert_eq!((builder.starting_position.x, builder.starting_position.y), (cx, cy));
    let (ex, ey) = rooms[rooms.len() - 1].center();
    let idx = builder.map.xy_idx(ex, ey);
    assert_eq!(builder.map.tiles[idx], TileType::DownStairs);
}

#[test]
fn sorting_rooms_keeps_equal_edges_in_order() {
    let mut rooms = vec![Rect::new(5, 0, 1, 1), Rect::new(2, 1, 1, 1), Rect::new(5, 2, 1, 1), Rect::new(2, 3, 1, 1)];
    sort_rooms_by_x1(&mut rooms);
    let ys: Vec<i32> = rooms.iter().map(|r| r.y1).collect();
    assert_eq!(ys, vec![1, 3, 0, 2]);
}

#[test]
fn simple_map_rooms_have_their_sizes() {
    let mut rng = RandomNumberGenerator::seeded(5);
    let mut chain = BuilderChain::new(1, 80, 50, String::new());
    let mut builder = SimpleMapBuilder::new();
    builder.rooms_and_corridors(&mut rng, &mut chain.build_data);
    let rooms = chain.build_data.rooms.as_ref().unwrap();
    assert!(!rooms.is_empty());
    for r in rooms.iter() {
        assert!(r.x2 - r.x1 >= MIN_SIZE && r.x2 - r.x1 < MAX_SIZE);
        assert!(r.y2 - r.y1 >= MIN_SIZE && r.y2 - r.y1 < MAX_SIZE);
        let (cx, cy) = r.center();
        let idx = chain.build_data.map.xy_idx(cx, cy);
        assert_eq!(chain.build_data.map.tiles[idx], TileType::Floor);
    }
}

#[test]
fn dla_only_adds_floor() {
    let mut rng = RandomNumberGenerator::seeded(9);
    let mut builder = DLABuilder::central_attractor(1, 30, 20);
    let centre = builder.build(&mut rng);
    assert_eq!(centre, builder.map.xy_idx(15, 10));
    assert_eq!(builder.map.tiles[centre], TileType::Floor);
    assert!(floor_count(&builder.map) > 5);
    assert!(builder.map.tiles.iter().all(|t| *t == TileType::Floor || *t == TileType::Wall));
}

#[test]
fn rooms_and_corridors_are_carved() {
    let mut map = TileMap::new(1, 10, 10, String::new());
    apply_room_to_map(&mut map, &Rect::new(1, 1, 3, 2));
    assert_eq!(floor_count(&map), 6);
    let idx = map.xy_idx(2, 2);
    assert_eq!(map.tiles[idx], TileType::Floor);
    let mut map2 = TileMap::new(1, 10, 10, String::new());
    draw_corridor(&mut map2, 1, 1, 4, 3);
    let end = map2.xy_idx(4, 3);
    assert_eq!(map2.tiles[end], TileType::Floor);
    assert!(floor_count(&map2) >= 4);
}

#[test]
fn the_exit_goes_to_the_farthest_reachable_floor() {
    let mut map = TileMap::new(1, 5, 1, String::new());
    for i in 0..4 {
        map.tiles[i] = TileType::Floor;
    }
    let distances = vec![0, 5, 9, UNREACHABLE, UNREACHABLE];
    let exit = cull_and_place_exit(&mut map, &distances);
    assert_eq!(exit, 2);
    assert_eq!(map.tiles, vec![TileType::Floor, TileType::Floor, TileType::DownStairs, TileType::Wall, TileType::Wall]);
}

#[test]
fn the_central_start_moves_west_to_floor() {
    let mut map = TileMap::new(1, 9, 5, String::new());
    let idx = map.xy_idx(2, 2);
    map.tiles[idx] = TileType::Floor;
    assert_eq!(get_central_starting_position(&map), Position { x: 2, y: 2 });
    let idx2 = map.xy_idx(4, 2);
    map.tiles[idx2] = TileType::Floor;
    assert_eq!(get_central_starting_position(&map), Position { x: 4, y: 2 });
}

#[test]
fn spawn_regions_group_inner_floor_by_value() {
    let mut map = TileMap::new(1, 4, 4, String::new());
    for idx in [5usize, 6, 9, 10] {
        map.tiles[idx] = TileType::Floor;
    }
    map.tiles[0] = TileType::Floor;
    let values = vec![3, 0, 0, 0, 0, 7, 3, 0, 0, 3, 7, 0, 0, 0, 0, 0];
    let regions = generate_voronoi_spawn_regions(&map, &values);
    assert_eq!(regions, vec![(7, vec![5, 10]), (3, vec![6, 9])]);
}

#[test]
fn wfc_chunk_cells_are_row_major() {
    assert_eq!(tile_idx_in_chunk(3, 0, 0), 0);
    assert_eq!(tile_idx_in_chunk(3, 2, 1), 5);
    assert_eq!(tile_idx_in_chunk(8, 7, 7), 63);
}

#[test]
fn initial_builders_follow_the_roll() {
    assert_eq!(initial_builder_kind(1), (InitialBuilderKind::BspDungeon, true));
    assert_eq!(initial_builder_kind(9), (InitialBuilderKind::Maze, false));
    assert_eq!(initial_builder_kind(17), (InitialBuilderKind::PrefabConstant, false));
    assert_eq!(initial_builder_kind(18), (InitialBuilderKind::SimpleMap, true));
    let mut rng = RandomNumberGenerator::seeded(1);
    let mut kinds = Vec::new();
    for _ in 0..200 {
        let (k, _) = random_initial_builder(&mut rng);
        if !kinds.contains(&k) {
            kinds.push(k);
        }
    }
    assert!(kinds.len() > 10);
}

#[test]
fn the_town_gets_an_exit_a_pub_start_and_roads() {
    let mut rng = RandomNumberGenerator::seeded(21);
    let mut chain = BuilderChain::new(1, 80, 50, String::new());
    let wave: Vec<i32> = (0..50).map(|y| (y % 21) - 10).collect();
    let mut town = TownBuilder {};
    assert!(town.build_rooms(&mut rng, &mut chain.build_data, &wave));
    let map = &chain.build_data.map;
    let stairs: Vec<usize> = (0..map.tiles.len()).filter(|i| map.tiles[*i] == TileType::DownStairs).collect();
    assert!(!stairs.is_empty());
    assert!(stairs.iter().any(|i| (*i as i32) % 80 == 75));
    let start = chain.build_data.starting_position.expect("the town starts the player in the pub");
    assert!(start.x > 30 && start.x < 78 && start.y > 0 && start.y < 49);
    let start_idx = map.xy_idx(start.x, start.y);
    assert_eq!(map.tiles[start_idx], TileType::WoodFloor);
    assert!(map.visible_tiles.iter().all(|v| *v));
    assert!(map.tiles.iter().any(|t| *t == TileType::Road));
    assert_eq!(map.tiles[map.xy_idx(0, 0)], TileType::DeepWater);
}

#[test]
fn doors_are_joined_to_the_nearest_road() {
    let mut chain = BuilderChain::new(1, 40, 12, String::new());
    for t in chain.build_data.map.tiles.iter_mut() {
        *t = TileType::Grass;
    }
    let road = chain.build_data.map.xy_idx(35, 5);
    chain.build_data.map.tiles[road] = TileType::Road;
    let door = chain.build_data.map.xy_idx(31, 5);
    let mut town = TownBuilder {};
    town.add_paths(&mut chain.build_data, &vec![door]);
    let map = &chain.build_data.map;
    for x in 31..=35 {
        assert_eq!(map.tiles[map.xy_idx(x, 5)], TileType::Road);
    }
    assert_eq!(map.tiles.iter().filter(|t| **t == TileType::Road).count(), 5);
}

fn plain_chunk(t: TileType) -> MapChunk {
    MapChunk {
        pattern: vec![t; 9],
        exits: [vec![false; 3], vec![false; 3], vec![false; 3], vec![false; 3]],
        has_exits: false,
        compatible_with: [Vec::new(), Vec::new(), Vec::new(), Vec::new()],
    }
}

#[test]
fn the_tile_gallery_fills_pages_row_by_row() {
    let mut chain = BuilderChain::new(2, 10, 10, String::new());
    let chunks = vec![
        plain_chunk(TileType::Grass),
        plain_chunk(TileType::Grass),
        plain_chunk(TileType::Grass),
        plain_chunk(TileType::Grass),
        plain_chunk(TileType::Floor),
    ];
    let mut wfc = WaveformCollapseBuilder {};
    wfc.render_tile_gallery(&mut chain.build_data, &chunks, 3);
    let data = &chain.build_data;
    assert_eq!(data.history.len(), 2);
    let first_page = &data.history[0];
    for (x, y) in [(1, 1), (5, 1), (1, 5), (5, 5)] {
        assert_eq!(first_page.tiles[first_page.xy_idx(x, y)], TileType::Grass);
        assert_eq!(first_page.tiles[first_page.xy_idx(x + 2, y + 2)], TileType::Grass);
    }
    assert_eq!(first_page.tiles[first_page.xy_idx(4, 1)], TileType::Wall);
    let floors = data.map.tiles.iter().filter(|t| **t == TileType::Floor).count();
    assert_eq!(floors, 9);
    assert_eq!(data.map.tiles[data.map.xy_idx(3, 3)], TileType::Floor);
    assert_eq!(data.map.tiles[data.map.xy_idx(5, 5)], TileType::Wall);
    assert_eq!(data.history[1].tiles, data.map.tiles);
}

#[test]
fn a_full_page_is_recorded_and_a_blank_one_follows() {
    let mut chain = BuilderChain::new(2, 5, 5, String::new());
    let mut chunk = plain_chunk(TileType::Floor);
    chunk.exits[0][1] = true;
    let mut wfc = WaveformCollapseBuilder {};
    wfc.render_tile_gallery(&mut chain.build_data, &vec![chunk], 3);
    let data = &chain.build_data;
    assert_eq!(data.history.len(), 2);
    let page = &data.history[0];
    assert_eq!(page.tiles[page.xy_idx(2, 1)], TileType::DownStairs);
    assert_eq!(page.tiles[page.xy_idx(1, 1)], TileType::Floor);
    assert!(data.map.tiles.iter().all(|t| *t == TileType::Wall));
}

#[test]
fn stairs_are_stripped_to_floor() {
    let mut chain = BuilderChain::new(1, 4, 1, String::new());
    chain.build_data.map.tiles[2] = TileType::DownStairs;
    chain.build_data.map.tiles[1] = TileType::Floor;
    let mut wfc = WaveformCollapseBuilder {};
    wfc.strip_stairs(&mut chain.build_data);
    assert_eq!(chain.build_data.map.tiles, vec![TileType::Wall, TileType::Floor, TileType::Floor, TileType::Wall]);
    assert_eq!(chain.build_data.history.len(), 1);
}

#[test]
fn a_walled_in_door_is_not_joined() {
    let mut chain = BuilderChain::new(1, 40, 12, String::new());
    for t in chain.build_data.map.tiles.iter_mut() {
        *t = TileType::Grass;
    }
    for y in 4..=6 {
        for x in 30..=32 {
            let idx = chain.build_data.map.xy_idx(x, y);
            chain.build_data.map.tiles[idx] = TileType::Wall;
        }
    }
    let door = chain.build_data.map.xy_idx(31, 5);
    chain.build_data.map.tiles[door] = TileType::Floor;
    let road = chain.build_data.map.xy_idx(36, 5);
    chain.build_data.map.tiles[road] = TileType::Road;
    chain.build_data.map.populate_blocked();
    let before = chain.build_data.map.tiles.clone();
    let mut roads = vec![road];
    let mut town = TownBuilder {};
    assert!(!town.connect_door(&mut chain.build_data, &mut roads, door));
    assert_eq!(roads, vec![road]);
    assert_eq!(chain.build_data.map.tiles, before);

    let gap = chain.build_data.map.xy_idx(32, 5);
    chain.build_data.map.tiles[gap] = TileType::Floor;
    chain.build_data.map.populate_blocked();
    assert!(town.connect_door(&mut chain.build_data, &mut roads, door));
    assert_eq!(roads[0], road);
    assert_eq!(roads[1], door);
    assert_eq!(*roads.last().unwrap(), road);
    assert_eq!(chain.build_data.map.tiles[door], TileType::Road);
    assert_eq!(chain.build_data.map.tiles[gap], TileType::Road);
}

#[test]
fn the_automaton_walls_in_lonely_cells_and_opens_crowded_ones() {
    let mut chain = BuilderChain::new(1, 5, 5, String::new());
    for t in chain.build_data.map.tiles.iter_mut() {
        *t = TileType::Floor;
    }
    let mut caves = CellularAutomataBuilder {};
    caves.apply_iteration(&mut chain.build_data);
    let map = &chain.build_data.map;
    for y in 0..5 {
        for x in 0..5 {
            let interior = x >= 1 && x <= 3 && y >= 1 && y <= 3;
            let expected = if interior { TileType::Wall } else { TileType::Floor };
            assert_eq!(map.tiles[map.xy_idx(x, y)], expected);
        }
    }
    caves.apply_iteration(&mut chain.build_data);
    let map = &chain.build_data.map;
    // The centre now has eight walls around it, the corners of the interior three.
    assert_eq!(map.tiles[map.xy_idx(2, 2)], TileType::Wall);
    assert_eq!(map.tiles[map.xy_idx(1, 1)], TileType::Floor);
    assert_eq!(map.tiles[map.xy_idx(2, 1)], TileType::Wall);
    assert_eq!(chain.build_data.history.len(), 2);
}

#[test]
fn cave_building_keeps_the_edges() {
    let mut rng = RandomNumberGenerator::seeded(4);
    let mut chain = BuilderChain::new(1, 20, 12, String::new());
    let mut caves = CellularAutomataBuilder {};
    caves.build(&mut rng, &mut chain.build_data);
    let map = &chain.build_data.map;
    for x in 0..20 {
        assert_eq!(map.tiles[map.xy_idx(x, 0)], TileType::Wall);
        assert_eq!(map.tiles[map.xy_idx(x, 11)], TileType::Wall);
    }
    assert!(map.tiles.iter().all(|t| *t == TileType::Wall || *t == TileType::Floor));
    assert_eq!(chain.build_data.history.len(), 16);
}
