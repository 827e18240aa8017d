use std::collections::HashSet;

use rltk::RandomNumberGenerator;
use roguelike::builders::bsp_dungeon::BspDungeonBuilder;
use roguelike::builders::common::{paint, Symmetry};
use roguelike::builders::dla::DLABuilder;
use roguelike::builders::drunkard::DrunkardsWalkBuilder;
use roguelike::builders::prefab_builder::{PrefabBuilder, PrefabLevel, PrefabMode};
use roguelike::builders::town::TownBuilder;
use roguelike::builders::BuilderChain;
use roguelike::gui::tooltip_entities;
use roguelike::map::TileMap;
use roguelike::point::Point;
use roguelike::rect::Rect;
use roguelike::tile::TileType;

#[test]
fn a_rectangle_is_split_into_its_four_quarters() {
    let mut b = BspDungeonBuilder::new(1, 20, 20);
    let r = Rect::new(0, 0, 10, 4);
    b.partition_rect(&r);
    assert_eq!(b.rects.len(), 4);
    assert_eq!(b.rects[0], Rect::new(0, 0, 5, 2));
    assert_eq!(b.rects[1], Rect::new(0, 2, 5, 2));
    assert_eq!(b.rects[2], Rect::new(5, 0, 5, 2));
    assert_eq!(b.rects[3], Rect::new(5, 2, 5, 2));
}

#[test]
fn revealing_a_row_marks_exactly_that_row() {
    let mut map = TileMap::new(1, 4, 3, String::new());
    map.revealed_tiles[0] = true;
    map.reveal_row(1);
    let expected = vec![true, false, false, false, true, true, true, true, false, false, false, false];
    assert_eq!(map.revealed_tiles, expected);
    assert!(map.tiles.iter().all(|t| *t == TileType::Wall));
}

#[test]
fn tooltips_list_visible_unhidden_entities_in_order() {
    let mut map = TileMap::new(1, 5, 5, String::new());
    let idx = map.xy_idx(2, 2);
    let entities = vec![
        (Point { x: 2, y: 2 }, false),
        (Point { x: 1, y: 2 }, false),
        (Point { x: 2, y: 2 }, true),
        (Point { x: 2, y: 2 }, false),
    ];
    assert!(tooltip_entities(&map, (2, 2), &entities).is_empty());
    map.visible_tiles[idx] = true;
    assert_eq!(tooltip_entities(&map, (2, 2), &entities), vec![0, 3]);
}

#[test]
fn drunkard_noise_areas_group_inner_floor_by_value() {
    let mut b = DrunkardsWalkBuilder::new(1, 4, 4);
    for i in [5usize, 6, 9, 10] {
        b.map.tiles[i] = TileType::Floor;
    }
    b.map.tiles[0] = TileType::Floor;
    let values: Vec<i32> = (0..16).map(|i| if i == 6 { 7 } else { 3 }).collect();
    b.group_noise_areas(&values);
    assert_eq!(b.noise_areas, vec![(3, vec![5, 9, 10]), (7, vec![6])]);
    assert!(b.history.is_empty());
}

#[test]
fn a_stroke_and_its_mirror_image_paint_alike() {
    let mut a = TileMap::new(1, 11, 9, String::new());
    let mut b = TileMap::new(1, 11, 9, String::new());
    paint(&mut a, Symmetry::Horizontal, 1, 2, 4);
    paint(&mut b, Symmetry::Horizontal, 1, 8, 4);
    assert_eq!(a.tiles, b.tiles);
    assert_eq!(a.tiles[a.xy_idx(2, 4)], TileType::Floor);
    assert_eq!(a.tiles[a.xy_idx(8, 4)], TileType::Floor);
    let mut c = TileMap::new(1, 11, 9, String::new());
    let mut d = TileMap::new(1, 11, 9, String::new());
    paint(&mut c, Symmetry::Both, 3, 3, 2);
    paint(&mut d, Symmetry::Both, 3, 7, 6);
    assert_eq!(c.tiles, d.tiles);
}

#[test]
fn dla_leaves_the_outer_ring_alone_and_reaches_its_share() {
    for seed in 1..6u64 {
        let mut rng = RandomNumberGenerator::seeded(seed);
        let mut builder = DLABuilder::walk_inwards(1, 24, 16);
        let before = builder.history.len();
        builder.build(&mut rng);
        let map = &builder.map;
        for x in 0..24 {
            assert_eq!(map.tiles[map.xy_idx(x, 0)], TileType::Wall);
            assert_eq!(map.tiles[map.xy_idx(x, 15)], TileType::Wall);
        }
        for y in 0..16 {
            assert_eq!(map.tiles[map.xy_idx(0, y)], TileType::Wall);
            assert_eq!(map.tiles[map.xy_idx(23, y)], TileType::Wall);
        }
        let floors = map.tiles.iter().filter(|t| **t == TileType::Floor).count();
        let target = 24 * 16 * builder.floor_percent as usize / 100;
        assert!(floors >= target || builder.history.len() == before + 1 + roguelike::builders::dla::MAX_DLA_WALKERS as usize);
    }
}

#[test]
fn town_buildings_neither_overlap_nor_touch() {
    let mut rng = RandomNumberGenerator::seeded(5);
    let mut chain = BuilderChain::new(1, 80, 50, String::new());
    let mut available: HashSet<usize> = HashSet::new();
    for y in 1..49 {
        for x in 30..79 {
            available.insert((y * 80 + x) as usize);
        }
    }
    let mut town = TownBuilder {};
    let buildings = town.buildings(&mut rng, &mut chain.build_data, &mut available);
    assert!(!buildings.is_empty());
    for (k, a) in buildings.iter().enumerate() {
        for b in buildings.iter().skip(k + 1) {
            let apart_x = a.0 + a.2 < b.0 || b.0 + b.2 < a.0;
            let apart_y = a.1 + a.3 < b.1 || b.1 + b.3 < a.1;
            let corner_only = (a.0 + a.2 == b.0 || b.0 + b.2 == a.0) && (a.1 + a.3 == b.1 || b.1 + b.3 == a.1);
            assert!(apart_x || apart_y || corner_only, "{:?} and {:?} touch", a, b);
        }
        for y in a.1..a.1 + a.3 {
            for x in a.0..a.0 + a.2 {
                assert!(!available.contains(&((y * 80 + x) as usize)));
            }
        }
    }
}

#[test]
fn a_text_level_records_one_snapshot_of_what_it_laid() {
    let level = PrefabLevel { template: "#@\n g\n", width: 2, height: 2 };
    let mut b = PrefabBuilder::new(1, 3, 3, PrefabMode::Constant { level });
    b.build(&Vec::new(), None);
    assert_eq!(b.history.len(), 1);
    assert_eq!(b.history[0].tiles, b.map.tiles);
    assert!(b.history[0].revealed_tiles.iter().all(|r| *r));
}

#[test]
fn the_dead_drop_what_they_carry() {
    let dead = vec![3u64, 7];
    let held = vec![(10u64, 3u64), (11, 1), (12, 7), (13, 3)];
    assert_eq!(roguelike::systems::items_to_drop(&dead, &held), vec![10, 12, 13]);
    assert!(roguelike::systems::items_to_drop(&Vec::new(), &held).is_empty());
}
