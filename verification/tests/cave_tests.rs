use rltk::RandomNumberGenerator;
use roguelike::builders::bsp_dungeon::BspDungeonBuilder;
use roguelike::builders::cellular_automata::{fill_with_noise, CellularAutomataBuilder};
use roguelike::builders::distant_exit::UNREACHABLE;
use roguelike::builders::dla::{DLAAlgorithm, DLABuilder, DLASymmetry};
use roguelike::components::Position;
use roguelike::builders::drunkard::{cull_unreachable, DrunkardsWalkBuilder};
use roguelike::builders::BuilderChain;
use roguelike::map::TileMap;
use roguelike::point::Point;
use roguelike::rect::Rect;
use roguelike::tile::TileType;

fn row_cave() -> (TileMap, Vec<u32>) {
    let mut map = TileMap::new(1, 5, 3, String::new());
    for i in [6usize, 7, 8] {
        map.tiles[i] = TileType::Floor;
    }
    let mut d = vec![UNREACHABLE; 15];
    d[6] = 0;
    d[7] = 5;
    (map, d)
}

#[test]
fn unreachable_floor_is_walled_and_the_farthest_floor_is_the_exit() {
    let (mut map, d) = row_cave();
    let exit = cull_unreachable(&mut map, &d);
    assert_eq!(exit, 7);
    assert_eq!(map.tiles[6], TileType::Floor);
    assert_eq!(map.tiles[7], TileType::Floor);
    assert_eq!(map.tiles[8], TileType::Wall);
}

#[test]
fn a_drunkard_cave_is_finished_with_one_stairs_and_two_snapshots() {
    let (map, d) = row_cave();
    let mut b = DrunkardsWalkBuilder::new(1, 5, 3);
    b.map = map;
    let noise: Vec<i32> = (0..15).map(|i| i % 2).collect();
    let exit = b.finish(&d, &noise);
    assert_eq!(exit, 7);
    assert_eq!(b.history.len(), 2);
    assert_eq!(b.history[0].tiles[7], TileType::Floor);
    assert_eq!(b.history[0].tiles[8], TileType::Wall);
    assert_eq!(b.history[1].tiles, b.map.tiles);
    assert_eq!(b.map.tiles.iter().filter(|t| **t == TileType::DownStairs).count(), 1);
    assert_eq!(b.map.tiles[7], TileType::DownStairs);
    assert_eq!(b.noise_areas, vec![(0, vec![6])]);
}

#[test]
fn a_dla_cave_gets_exactly_one_down_stairs() {
    let mut rng = RandomNumberGenerator::seeded(3);
    let mut b = DLABuilder::walk_inwards(1, 20, 14);
    assert!(b.map.tiles.iter().all(|t| *t == TileType::Wall));
    assert!(b.history.is_empty() && b.noise_areas.is_empty());
    let start = b.build(&mut rng);
    let mut d = vec![UNREACHABLE; b.map.tiles.len()];
    d[start] = 0;
    let far = start + 1;
    d[far] = 3;
    let before = b.history.len();
    let exit = b.finish(&d, &vec![1; b.map.tiles.len()]);
    assert_eq!(exit, far);
    assert_eq!(b.history.len(), before + 2);
    assert_eq!(b.map.tiles.iter().filter(|t| **t == TileType::DownStairs).count(), 1);
    let floors: Vec<usize> = (0..b.map.tiles.len()).filter(|i| b.map.tiles[*i] == TileType::Floor).collect();
    assert_eq!(floors, vec![start]);
}

#[test]
fn diggers_paint_where_their_rolls_take_them() {
    let mut b = DLABuilder::walk_inwards(1, 9, 9);
    let centre = b.map.xy_idx(4, 4);
    b.map.tiles[centre] = TileType::Floor;
    assert_eq!(b.stagger_by(1, 2, 4), (2, 4));
    assert_eq!(b.stagger_by(2, 2, 4), (3, 4));
    assert_eq!(b.stagger_by(4, 6, 6), (6, 7));
    assert_eq!(b.stagger_by(4, 6, 7), (6, 7));
    assert_eq!(b.walk_in_end_of(2, 4, &vec![2, 2, 2]), Some((3, 4)));
    assert_eq!(b.walk_in_end_of(2, 4, &vec![2]), None);
    assert_eq!(b.walk_in_end_of(4, 4, &vec![]), Some((4, 4)));
    assert_eq!(b.walk_out_end_of(4, 4, &vec![2, 2]), Some((5, 4)));
    assert_eq!(b.walk_out_end_of(4, 4, &vec![]), None);
    let path = vec![Point::new(2, 4), Point::new(3, 4), Point::new(4, 4)];
    assert_eq!(b.attract_end_of(2, 4, &path), (3, 4));
}

#[test]
fn mirrored_dla_keeps_the_outer_ring() {
    let mut rng = RandomNumberGenerator::seeded(11);
    let mut b = DLABuilder::insectoid(1, 30, 20);
    assert_eq!(b.symmetry, DLASymmetry::Horizontal);
    b.build(&mut rng);
    for x in 0..30 {
        assert_eq!(b.map.tiles[b.map.xy_idx(x, 0)], TileType::Wall);
        assert_eq!(b.map.tiles[b.map.xy_idx(x, 19)], TileType::Wall);
    }
}

#[test]
fn the_noise_fill_follows_each_cells_roll() {
    let mut map = TileMap::new(1, 4, 4, String::new());
    let mut rolls = vec![0i32; 16];
    rolls[5] = 40;
    rolls[6] = 46;
    rolls[9] = 45;
    rolls[10] = 100;
    rolls[0] = 99;
    fill_with_noise(&mut map, &rolls);
    assert_eq!(map.tiles[5], TileType::Wall);
    assert_eq!(map.tiles[6], TileType::Floor);
    assert_eq!(map.tiles[9], TileType::Wall);
    assert_eq!(map.tiles[10], TileType::Floor);
    assert_eq!(map.tiles[0], TileType::Wall);
}

#[test]
fn cave_building_records_the_noise_and_fifteen_steps() {
    let mut rng = RandomNumberGenerator::seeded(4);
    let mut chain = BuilderChain::new(1, 30, 20, String::new());
    let before = chain.build_data.history.len();
    let mut cave = CellularAutomataBuilder {};
    cave.build(&mut rng, &mut chain.build_data);
    assert_eq!(chain.build_data.history.len(), before + 16);
}

#[test]
fn damage_leaves_a_bloodstain() {
    let mut map = TileMap::new(1, 5, 4, String::new());
    map.add_bloodstain(2, 1);
    assert!(map.bloodstains.contains(&map.xy_idx(2, 1)));
    assert_eq!(map.bloodstains.len(), 1);
}

#[test]
fn a_long_thin_map_is_all_wall() {
    let map = TileMap::new(3, 20000, 2, String::new());
    assert_eq!(map.tiles.len(), 40000);
    assert!(map.tiles.iter().all(|t| *t == TileType::Wall));
    assert_eq!(map.depth, 3);
}

#[test]
fn a_rectangle_off_the_map_is_quartered_too() {
    let mut b = BspDungeonBuilder::new(1, 10, 10);
    b.partition_rect(&Rect::new(-10, -10, 4, 6));
    assert_eq!(b.rects, vec![Rect::new(-10, -10, 2, 3), Rect::new(-10, -7, 2, 3), Rect::new(-8, -10, 2, 3), Rect::new(-8, -7, 2, 3)]);
}

#[test]
fn a_one_cell_brush_keeps_a_mirrored_cave_mirrored() {
    let mut rng = RandomNumberGenerator::seeded(8);
    let mut b = DLABuilder {
        map: TileMap::new(1, 24, 16, String::new()),
        starting_position: Position { x: 0, y: 0 },
        history: Vec::new(),
        algorithm: DLAAlgorithm::WalkInwards,
        brush_size: 1,
        symmetry: DLASymmetry::Horizontal,
        floor_percent: 25,
        noise_areas: Vec::new(),
    };
    b.build(&mut rng);
    for y in 0..16 {
        for x in 1..24 {
            let m = 24 - x;
            assert_eq!(b.map.tiles[b.map.xy_idx(x, y)] == TileType::Floor, b.map.tiles[b.map.xy_idx(m, y)] == TileType::Floor);
        }
    }
}

#[test]
fn a_one_cell_brush_keeps_a_cave_mirrored_both_ways() {
    let mut rng = RandomNumberGenerator::seeded(21);
    let mut b = DLABuilder {
        map: TileMap::new(1, 24, 16, String::new()),
        starting_position: Position { x: 0, y: 0 },
        history: Vec::new(),
        algorithm: DLAAlgorithm::CentralAttractor,
        brush_size: 1,
        symmetry: DLASymmetry::Both,
        floor_percent: 25,
        noise_areas: Vec::new(),
    };
    b.build(&mut rng);
    let floor = |x: i32, y: i32| b.map.tiles[b.map.xy_idx(x, y)] == TileType::Floor;
    for y in 1..16 {
        for x in 1..24 {
            assert_eq!(floor(x, y), floor(24 - x, y));
            assert_eq!(floor(x, y), floor(x, 16 - y));
        }
    }
}

#[test]
fn a_drunkard_cave_is_built_from_its_start_in_order() {
    let (map, _) = row_cave();
    let mut b = DrunkardsWalkBuilder::new(1, 5, 3);
    b.map = map;
    let mut d = vec![UNREACHABLE; 15];
    d[7] = 0;
    d[6] = 2;
    let exit = b.build(&d, &vec![4; 15]);
    assert_eq!(b.starting_position, Position { x: 2, y: 1 });
    assert_eq!(exit, 6);
    assert_eq!(b.map.tiles[6], TileType::DownStairs);
    assert_eq!(b.map.tiles[7], TileType::Floor);
    assert_eq!(b.map.tiles[8], TileType::Wall);
    assert_eq!(b.history.len(), 2);
    assert_eq!(b.noise_areas, vec![(4, vec![7])]);
}
