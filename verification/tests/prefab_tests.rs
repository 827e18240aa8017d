use rltk::RandomNumberGenerator;
use roguelike::builders::prefab_builder::{
    read_ascii_to_vec, HorizontalPlacement, PrefabBuilder, PrefabLevel, PrefabMode, PrefabSection, RexLayer, VerticalPlacement,
};
use roguelike::builders::prefab_rooms::{checkerboard, totally_not_a_trap};
use roguelike::components::{EquipmentSlot, Position};
use roguelike::map::TileMap;
use roguelike::prefabs::{
    get_spawn_table_for_depth, spawn_named_entity, spawn_named_item, ConsumableTemplate, EntityBlueprint, ItemTemplate, PrefabMaster,
    Prefabs, ShieldTemplate, SpawnTableEntry, SpawnType, WeaponTemplate,
};
use roguelike::random_table::RandomTable;
use roguelike::rect::Rect;
use roguelike::spawner::{spawn_region, spawn_room};
use roguelike::text::parse_i32;
use roguelike::tile::TileType;

fn entry(name: &str, weight: i32, min_depth: i32, max_depth: i32, add: bool) -> SpawnTableEntry {
    SpawnTableEntry {
        name: name.to_string(),
        weight,
        min_depth,
        max_depth,
        add_map_depth_to_weight: if add { Some(true) } else { None },
    }
}

fn master(spawn_table: Vec<SpawnTableEntry>) -> PrefabMaster {
    let mut pm = PrefabMaster::empty();
    pm.load(Prefabs { spawn_table, items: Vec::new(), mobs: Vec::new(), props: Vec::new() });
    pm
}

fn constant_level() -> PrefabMode {
    PrefabMode::Constant { level: PrefabLevel { template: "", width: 0, height: 0 } }
}

#[test]
fn text_maps_are_padded_line_by_line() {
    let cells = read_ascii_to_vec("#@\n g", 3);
    assert_eq!(cells, vec!['#', '@', ' ', ' ', 'g', ' ']);
    let trap = totally_not_a_trap();
    let room = read_ascii_to_vec(trap.template, trap.width);
    assert_eq!(room.len(), 30);
    let text: String = room.iter().collect();
    assert_eq!(text, "           ^^^  ^!^  ^^^      ");
    assert_eq!(read_ascii_to_vec("ab\r\ncd\n", 2), vec!['a', 'b', 'c', 'd']);
    assert_eq!(read_ascii_to_vec("abcd", 2).len(), 4);
    assert!(read_ascii_to_vec("", 4).is_empty());
    let board = checkerboard();
    assert_eq!(read_ascii_to_vec(board.template, board.width).len(), 42);
}

#[test]
fn glyphs_lay_down_tiles_starts_and_spawns() {
    let mut b = PrefabBuilder::new(1, 4, 3, constant_level());
    b.char_to_map('g', 5);
    b.char_to_map('@', 6);
    b.char_to_map('>', 9);
    b.char_to_map('?', 10);
    assert_eq!(b.map.tiles[5], TileType::Floor);
    assert_eq!(b.map.tiles[6], TileType::Floor);
    assert_eq!(b.map.tiles[9], TileType::DownStairs);
    assert_eq!(b.map.tiles[10], TileType::Wall);
    assert_eq!(b.starting_position, Position { x: 2, y: 1 });
    assert_eq!(b.spawn_list, vec![(5, "Goblin".to_string())]);
}

#[test]
fn a_text_level_is_laid_from_the_corner() {
    let level = PrefabLevel { template: "#@\n g\n", width: 2, height: 2 };
    let mut b = PrefabBuilder::new(1, 3, 3, PrefabMode::Constant { level });
    b.load_ascii_map(&level);
    assert_eq!(b.map.tiles[0], TileType::Wall);
    assert_eq!(b.map.tiles[1], TileType::Floor);
    assert_eq!(b.map.tiles[3], TileType::Floor);
    assert_eq!(b.map.tiles[4], TileType::Floor);
    assert_eq!(b.map.tiles[2], TileType::Wall);
    assert_eq!(b.starting_position, Position { x: 1, y: 0 });
    assert_eq!(b.spawn_list, vec![(4, "Goblin".to_string())]);
}

#[test]
fn a_section_goes_where_its_placement_says() {
    let section = PrefabSection {
        template: "!%\n^o",
        width: 2,
        height: 2,
        placement: (HorizontalPlacement::Right, VerticalPlacement::Bottom),
    };
    let mut b = PrefabBuilder::new(1, 2, 2, PrefabMode::Sectional { section });
    let previous = TileMap::new(2, 10, 10, String::new());
    b.apply_sectional(&section, previous, Position { x: 3, y: 4 });
    assert_eq!(b.map.width, 10);
    assert_eq!(b.history.len(), 1);
    assert_eq!(b.starting_position, Position { x: 3, y: 4 });
    let names: Vec<(usize, String)> = b.spawn_list.clone();
    assert_eq!(
        names,
        vec![
            (77, "Health Potion".to_string()),
            (78, "Rations".to_string()),
            (87, "Bear Trap".to_string()),
            (88, "Orc".to_string())
        ]
    );
    assert_eq!(b.map.tiles[88], TileType::Floor);
}

#[test]
fn rex_layers_are_laid_in_turn() {
    let layers = vec![
        RexLayer { width: 2, height: 1, glyphs: vec!['#' as u32, ' ' as u32] },
        RexLayer { width: 1, height: 1, glyphs: vec!['>' as u32 + 256] },
    ];
    let mut b = PrefabBuilder::new(1, 2, 2, PrefabMode::RexLevel { template: "level.xp" });
    let needs_start = b.build(&layers, None);
    assert!(needs_start);
    assert_eq!(b.map.tiles[0], TileType::DownStairs);
    assert_eq!(b.map.tiles[1], TileType::Floor);
    assert_eq!(b.history.len(), 1);
}

#[test]
fn tables_pick_by_weight() {
    let mut rng = RandomNumberGenerator::seeded(2);
    let empty = RandomTable::new();
    assert_eq!(empty.roll(&mut rng), "None");
    let one = RandomTable::new().add("Goblin".to_string(), 10).add("Orc".to_string(), 0);
    assert_eq!(one.entries.len(), 1);
    assert_eq!(one.total_weight, 10);
    for _ in 0..20 {
        assert_eq!(one.roll(&mut rng), "Goblin");
    }
    let two = RandomTable::new().add("Goblin".to_string(), 1).add("Orc".to_string(), 3);
    let mut seen = (0, 0);
    for _ in 0..200 {
        match two.roll(&mut rng).as_str() {
            "Goblin" => seen.0 += 1,
            "Orc" => seen.1 += 1,
            other => panic!("unexpected {}", other),
        }
    }
    assert!(seen.0 > 0 && seen.1 > seen.0);
}

#[test]
fn spawn_tables_follow_the_depth() {
    let pm = master(vec![
        entry("Goblin", 10, 0, 100, false),
        entry("Orc", 1, 3, 100, true),
        entry("Rat", 5, 0, 2, false),
        entry("Ghost", -4, 0, 100, false),
    ]);
    let at1 = get_spawn_table_for_depth(&pm, 1);
    let names: Vec<(String, i32)> = at1.entries.clone();
    assert_eq!(names, vec![("Goblin".to_string(), 10), ("Rat".to_string(), 5)]);
    assert_eq!(at1.total_weight, 15);
    let at5 = get_spawn_table_for_depth(&pm, 5);
    assert_eq!(at5.entries, vec![("Goblin".to_string(), 10), ("Orc".to_string(), 6)]);
}

#[test]
fn regions_spawn_at_distinct_cells() {
    let pm = master(vec![entry("Goblin", 1, 0, 100, false)]);
    let map = TileMap::new(1, 10, 10, String::new());
    let area: Vec<usize> = (10..30).collect();
    let mut rng = RandomNumberGenerator::seeded(8);
    for depth in [1, 4, 9] {
        let mut list = vec![(0, "Door".to_string())];
        spawn_region(&map, &pm, &mut rng, &area, depth, &mut list);
        assert_eq!(list[0], (0, "Door".to_string()));
        let added = &list[1..];
        assert!(added.len() as i32 <= depth + 3);
        assert!(added.len() as i32 >= depth - 3);
        for (k, (idx, name)) in added.iter().enumerate() {
            assert!(area.contains(idx));
            assert_eq!(name, "Goblin");
            assert!(added[k + 1..].iter().all(|(j, _)| j != idx));
        }
    }
}

#[test]
fn rooms_spawn_on_their_floor() {
    let pm = master(vec![entry("Orc", 2, 0, 100, false)]);
    let mut map = TileMap::new(1, 12, 12, String::new());
    for y in 3..7 {
        for x in 3..7 {
            let idx = map.xy_idx(x, y);
            map.tiles[idx] = TileType::Floor;
        }
    }
    let mut rng = RandomNumberGenerator::seeded(12);
    let mut list = Vec::new();
    spawn_room(&map, &pm, &mut rng, &Rect::new(2, 2, 5, 5), 6, &mut list);
    assert!(!list.is_empty());
    for (idx, name) in list.iter() {
        let (x, y) = ((*idx % 12) as i32, (*idx / 12) as i32);
        assert!(x >= 3 && x <= 6 && y >= 3 && y <= 6);
        assert_eq!(name, "Orc");
    }
}

#[test]
fn numbers_parse_like_str_parse() {
    assert_eq!(parse_i32(&"42".to_string()), Some(42));
    assert_eq!(parse_i32(&"-7".to_string()), Some(-7));
    assert_eq!(parse_i32(&"+3".to_string()), Some(3));
    assert_eq!(parse_i32(&"2147483647".to_string()), Some(i32::MAX));
    assert_eq!(parse_i32(&"-2147483648".to_string()), Some(i32::MIN));
    assert_eq!(parse_i32(&"2147483648".to_string()), None);
    assert_eq!(parse_i32(&"".to_string()), None);
    assert_eq!(parse_i32(&"-".to_string()), None);
    assert_eq!(parse_i32(&"1x".to_string()), None);
}

#[test]
fn named_items_come_from_their_templates() {
    let mut pm = PrefabMaster::empty();
    pm.load(Prefabs {
        spawn_table: Vec::new(),
        items: vec![
            ItemTemplate {
                name: "Health Potion".to_string(),
                renderable: None,
                consumable: Some(ConsumableTemplate { effects: vec![("provides_healing".to_string(), "8".to_string())] }),
                weapon: None,
                shield: None,
            },
            ItemTemplate {
                name: "Dagger".to_string(),
                renderable: None,
                consumable: None,
                weapon: Some(WeaponTemplate { range: "melee".to_string(), power_bonus: 2 }),
                shield: None,
            },
            ItemTemplate {
                name: "Buckler".to_string(),
                renderable: None,
                consumable: None,
                weapon: None,
                shield: Some(ShieldTemplate { defense_bonus: 1 }),
            },
        ],
        mobs: Vec::new(),
        props: Vec::new(),
    });
    let at = SpawnType::AtPosition { x: 3, y: 4 };
    let potion = spawn_named_item(&pm, &"Health Potion".to_string(), at).unwrap();
    assert!(potion.consumable);
    assert_eq!(potion.effects.provides_healing, Some(8));
    assert_eq!(potion.pos, at);
    let dagger = spawn_named_item(&pm, &"Dagger".to_string(), at).unwrap();
    assert_eq!(dagger.equippable, Some(EquipmentSlot::Melee));
    assert_eq!(dagger.melee_power_bonus, Some(2));
    let buckler = spawn_named_item(&pm, &"Buckler".to_string(), at).unwrap();
    assert_eq!(buckler.equippable, Some(EquipmentSlot::Shield));
    assert_eq!(buckler.defense_bonus, Some(1));
    assert!(spawn_named_item(&pm, &"Sword".to_string(), at).is_none());
    assert!(matches!(spawn_named_entity(&pm, &"Dagger".to_string(), at), Some(EntityBlueprint::Item(_))));
    assert!(spawn_named_entity(&pm, &"Nothing".to_string(), at).is_none());
}
