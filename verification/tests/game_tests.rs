use rltk::RandomNumberGenerator;
use roguelike::ai::{carnivore_targets, entry_triggers, herbivore_threats, item_at, step_to, Trap};
use roguelike::combat::{melee_attack, melee_weapon_for, Fighter, MeleeKind};
use roguelike::components::{Attribute, EquipmentSlot, HungerClock, HungerState, MeleeWeapon, WeaponAttribute};
use roguelike::gui::{
    attribute_display, game_over, get_screen_bounds, item_menu_choice, item_menu_top, main_menu, ranged_target, AttrColor,
    GameOverResult, ItemMenuResult, MainMenuResult, MainMenuSelection, MenuKey,
};
use roguelike::inventory::{activate_item, healed};
use roguelike::map::TileMap;
use roguelike::point::Point;
use roguelike::state::{entities_to_remove_on_level_change, hp_on_descent, runs_systems, tick, LevelEntity, RunState, TickAction, TickInput};
use roguelike::systems::{
    apply_damage, bystander_move, bystander_step, can_heal, hunger_tick, level_after, player_command, rest_heal, state_after_command, the_dead, try_move_player,
    HungerEvent, Occupant, PlayerCommand, PlayerKey,
};
use roguelike::tile::TileType;

fn room(w: i32, h: i32) -> TileMap {
    let mut map = TileMap::new(1, w, h, String::new());
    for y in 1..h - 1 {
        for x in 1..w - 1 {
            let idx = map.xy_idx(x, y);
            map.tiles[idx] = TileType::Floor;
        }
    }
    map.populate_blocked();
    map
}

#[test]
fn menu_arrows_undo_each_other() {
    for s in [MainMenuSelection::NewGame, MainMenuSelection::LoadGame, MainMenuSelection::Quit] {
        let up = match main_menu(Some(s), true, Some(MenuKey::Up)) {
            MainMenuResult::NoSelection { selected } => selected,
            _ => panic!("an arrow selects nothing"),
        };
        assert_eq!(main_menu(Some(up), true, Some(MenuKey::Down)), MainMenuResult::NoSelection { selected: s });
    }
    assert_eq!(
        main_menu(Some(MainMenuSelection::NewGame), false, Some(MenuKey::Down)),
        MainMenuResult::NoSelection { selected: MainMenuSelection::Quit }
    );
    assert_eq!(
        main_menu(Some(MainMenuSelection::Quit), true, Some(MenuKey::Return)),
        MainMenuResult::Selected { selected: MainMenuSelection::Quit }
    );
    assert_eq!(
        main_menu(Some(MainMenuSelection::LoadGame), true, Some(MenuKey::Escape)),
        MainMenuResult::NoSelection { selected: MainMenuSelection::Quit }
    );
}

#[test]
fn item_menus_pick_by_letter() {
    assert_eq!(item_menu_choice(3, Some(MenuKey::Other), 1), (ItemMenuResult::Selected, Some(1)));
    assert_eq!(item_menu_choice(3, Some(MenuKey::Other), 3), (ItemMenuResult::NoResponse, None));
    assert_eq!(item_menu_choice(3, Some(MenuKey::Escape), 0), (ItemMenuResult::Cancel, None));
    assert_eq!(item_menu_choice(3, None, 0), (ItemMenuResult::NoResponse, None));
    assert_eq!(item_menu_top(6), 22);
    assert_eq!(game_over(true), GameOverResult::QuitToMenu);
}

#[test]
fn screen_bounds_centre_on_the_player() {
    assert_eq!(get_screen_bounds(40, 25), (16, 64, 3, 47));
}

#[test]
fn attributes_show_their_modifiers() {
    let low = Attribute { base: 11, modifiers: -2, bonus: 0 };
    assert_eq!(attribute_display(&low), (AttrColor::Red, 9, false));
    let high = Attribute { base: 14, modifiers: 1, bonus: 2 };
    assert_eq!(attribute_display(&high), (AttrColor::Green, 15, true));
    let plain = Attribute { base: 10, modifiers: 0, bonus: 0 };
    assert_eq!(attribute_display(&plain).0, AttrColor::White);
}

#[test]
fn targeting_offers_cells_in_range() {
    let bounds = (0, 48, 0, 44);
    let player = Point::new(10, 10);
    let visible = vec![Point::new(10, 10), Point::new(12, 10), Point::new(16, 10), Point::new(1, 1)];
    let (res, target, cells) = ranged_target(player, 3, bounds, Some(&visible), (13, 11), true);
    assert_eq!(cells, vec![Point::new(10, 10), Point::new(12, 10)]);
    assert_eq!(res, ItemMenuResult::Selected);
    assert_eq!(target, Some(Point::new(12, 10)));
    let (res, target, _) = ranged_target(player, 3, bounds, Some(&visible), (17, 11), true);
    assert_eq!((res, target), (ItemMenuResult::Cancel, None));
    let (res, _, _) = ranged_target(player, 3, bounds, Some(&visible), (17, 11), false);
    assert_eq!(res, ItemMenuResult::NoResponse);
    let (res, _, cells) = ranged_target(player, 3, bounds, None, (0, 0), true);
    assert_eq!(res, ItemMenuResult::Cancel);
    assert!(cells.is_empty());
}

#[test]
fn the_turn_goes_player_monsters_world() {
    let (s, a) = tick(RunState::PreRun, TickInput::Nothing);
    assert_eq!((s, a.len()), (RunState::AwaitingInput, 0));
    let (s, _) = tick(RunState::PlayerTurn, TickInput::AfterSystems { state: RunState::PlayerTurn });
    assert_eq!(s, RunState::MonsterTurn);
    let (s, _) = tick(RunState::MonsterTurn, TickInput::Nothing);
    assert_eq!(s, RunState::WorldTurn);
    let (s, _) = tick(RunState::WorldTurn, TickInput::Nothing);
    assert_eq!(s, RunState::AwaitingInput);
    assert!(runs_systems(RunState::MonsterTurn));
    assert!(!runs_systems(RunState::AwaitingInput));
}

#[test]
fn menus_lead_to_actions() {
    let (s, a) = tick(
        RunState::ShowInventory,
        TickInput::ItemMenu { result: ItemMenuResult::Selected, item: Some(4), ranged: None },
    );
    assert_eq!(s, RunState::PlayerTurn);
    assert_eq!(a, vec![TickAction::UseItem { item: 4, target: None }]);
    let (s, a) = tick(
        RunState::ShowInventory,
        TickInput::ItemMenu { result: ItemMenuResult::Selected, item: Some(4), ranged: Some(6) },
    );
    assert_eq!(s, RunState::ShowTargeting { range: 6, item: 4 });
    assert!(a.is_empty());
    let (s, a) = tick(RunState::NextLevel, TickInput::Nothing);
    assert_eq!((s, a), (RunState::PreRun, vec![TickAction::GotoNextLevel]));
    let (s, a) = tick(RunState::MagicMapReveal { row: 4 }, TickInput::MapHeight { height: 5 });
    assert_eq!((s, a), (RunState::MonsterTurn, vec![TickAction::RevealRow { row: 4 }]));
    assert_eq!(activate_item(Some(5), 9), RunState::ShowTargeting { range: 5, item: 9 });
    assert_eq!(activate_item(None, 9), RunState::PlayerTurn);
}

#[test]
fn hunger_worsens_step_by_step() {
    let clock = HungerClock { state: HungerState::WellFed, duration: 1 };
    let (next, ev) = hunger_tick(clock, true, RunState::PlayerTurn);
    assert_eq!(next, HungerClock { state: HungerState::Normal, duration: 200 });
    assert_eq!(ev, Some(HungerEvent::NoLongerWellFed));
    let (same, ev) = hunger_tick(clock, true, RunState::MonsterTurn);
    assert_eq!((same, ev), (clock, None));
    let starving = HungerClock { state: HungerState::Starving, duration: 0 };
    assert_eq!(hunger_tick(starving, false, RunState::MonsterTurn).1, Some(HungerEvent::HungerPains));
    let (later, ev) = hunger_tick(HungerClock { state: HungerState::Hungry, duration: 5 }, true, RunState::PlayerTurn);
    assert_eq!((later.duration, ev), (4, None));
}

#[test]
fn healing_and_levels() {
    assert!(can_heal(false, Some(HungerState::Normal)));
    assert!(!can_heal(false, Some(HungerState::Hungry)));
    assert!(!can_heal(true, None));
    assert_eq!(rest_heal(9, 10), 10);
    assert_eq!(rest_heal(10, 10), 10);
    assert_eq!(rest_heal(3, 10), 4);
    assert_eq!(healed(5, 10, 8), 10);
    assert_eq!(level_after(2500, 2), Some(3));
    assert_eq!(level_after(999, 1), None);
    assert_eq!(hp_on_descent(3, 30), 15);
    assert_eq!(hp_on_descent(20, 30), 20);
    assert_eq!(hp_on_descent(-4, -3), -1);
}

#[test]
fn damage_adds_experience_for_kills_by_the_player() {
    assert_eq!(apply_damage(10, 2, &vec![(4, false), (7, true)]), (-1, 200));
    assert_eq!(apply_damage(10, 2, &vec![(3, true)]), (7, 0));
    let (over, dead) = the_dead(&vec![(1, 0, false), (2, 5, false), (3, -1, true)]);
    assert!(over);
    assert_eq!(dead, vec![1]);
}

#[test]
fn player_keys_become_commands() {
    assert_eq!(player_command(Some(PlayerKey::Move { dx: 1, dy: 0 })), PlayerCommand::Move { dx: 1, dy: 0 });
    assert_eq!(player_command(None), PlayerCommand::Nothing);
    assert_eq!(state_after_command(PlayerCommand::TryDescend, true), RunState::NextLevel);
    assert_eq!(state_after_command(PlayerCommand::TryDescend, false), RunState::PlayerTurn);
    assert_eq!(state_after_command(PlayerCommand::ShowInventory, false), RunState::ShowInventory);
}

#[test]
fn moving_into_occupants() {
    let mut map = room(5, 5);
    let target = map.xy_idx(2, 1);
    map.blocked[target] = true;
    let occ = vec![
        Occupant { entity: 7, swaps: false, fights: true, door: false },
        Occupant { entity: 8, swaps: false, fights: false, door: true },
    ];
    let plan = try_move_player(Point::new(1, 1), 1, 0, &map, &occ);
    assert_eq!(plan.attacked, vec![7]);
    assert_eq!(plan.opened, vec![8]);
    assert!(plan.swapped.is_empty());
    assert_eq!(plan.new_pos, None);
    assert!(plan.view_dirty);
    let free = try_move_player(Point::new(1, 1), 0, 1, &map, &vec![]);
    assert_eq!(free.new_pos, Some(Point::new(1, 2)));
    let off = try_move_player(Point::new(0, 0), -1, 0, &map, &occ);
    assert!(off.attacked.is_empty() && off.new_pos.is_none());
}

#[test]
fn melee_picks_the_wielded_weapon() {
    let sword = MeleeWeapon { attribute: WeaponAttribute::Might, damage_n_dice: 1, damage_die_type: 8, damage_bonus: 1, hit_bonus: 0 };
    let dagger = MeleeWeapon { attribute: WeaponAttribute::Quickness, damage_n_dice: 1, damage_die_type: 4, damage_bonus: 0, hit_bonus: 1 };
    let wielded = vec![(1, EquipmentSlot::Melee, sword), (2, EquipmentSlot::Melee, dagger), (1, EquipmentSlot::Shield, dagger)];
    assert_eq!(melee_weapon_for(1, &wielded), sword);
    assert_eq!(melee_weapon_for(3, &wielded).damage_die_type, 4);
    let mut rng = RandomNumberGenerator::seeded(4);
    let a = Fighter { hp: 10, might_bonus: 1, quickness_bonus: 0, melee_skill: 1, defense_skill: 0, well_fed: false };
    let dead = Fighter { hp: 0, ..a };
    assert_eq!(melee_attack(&mut rng, &a, &dead, &sword, 0).kind, MeleeKind::NotAlive);
    let mut hits = 0;
    for _ in 0..50 {
        let out = melee_attack(&mut rng, &a, &a, &sword, 0);
        assert!(out.natural_roll >= 1 && out.natural_roll <= 20);
        if let MeleeKind::Hit { base_damage, damage } = out.kind {
            assert!(base_damage >= 1 && base_damage <= 8);
            assert_eq!(damage, base_damage + 3);
            hits += 1;
        }
    }
    assert!(hits > 0);
}

#[test]
fn level_change_keeps_the_player_and_their_things() {
    let ents = vec![
        LevelEntity { entity: 1, is_player: true, in_backpack: false, equipped: false },
        LevelEntity { entity: 2, is_player: false, in_backpack: true, equipped: false },
        LevelEntity { entity: 3, is_player: false, in_backpack: false, equipped: false },
        LevelEntity { entity: 4, is_player: false, in_backpack: false, equipped: true },
        LevelEntity { entity: 5, is_player: false, in_backpack: false, equipped: false },
    ];
    assert_eq!(entities_to_remove_on_level_change(&ents), vec![3, 5]);
}

#[test]
fn animals_react_to_what_they_see() {
    let mut map = room(6, 6);
    let a = map.xy_idx(2, 2);
    let b = map.xy_idx(4, 4);
    map.tile_content[a] = vec![10, 11];
    map.tile_content[b] = vec![12];
    let seen = vec![Point::new(2, 2), Point::new(4, 4)];
    assert_eq!(herbivore_threats(&map, &seen, &vec![11]), vec![a, b]);
    assert_eq!(herbivore_threats(&map, &seen, &vec![]), vec![a, a, b]);
    let (bite, chase) = carnivore_targets(&map, Point::new(3, 3), &seen, &vec![10], 12);
    assert_eq!(bite, vec![10, 12]);
    assert!(chase.is_empty());
    let (bite, chase) = carnivore_targets(&map, Point::new(1, 1), &seen, &vec![10], 12);
    assert_eq!(bite, vec![10]);
    assert_eq!(chase, vec![b]);
    let here = map.xy_idx(1, 1);
    map.blocked[here] = true;
    let to = map.xy_idx(1, 2);
    assert_eq!(step_to(&mut map, Point::new(1, 1), Some(to)), Point::new(1, 2));
    assert!(!map.blocked[here] && map.blocked[to]);
    assert_eq!(step_to(&mut map, Point::new(1, 2), Some(to)), Point::new(1, 2));
    assert_eq!(step_to(&mut map, Point::new(1, 2), None), Point::new(1, 2));
}

#[test]
fn traps_spring_on_whoever_steps_in() {
    let traps = vec![
        Trap { entity: 5, damage: Some(6), single_activation: true },
        Trap { entity: 6, damage: None, single_activation: false },
    ];
    let sprung = entry_triggers(1, &vec![1, 5, 9, 6], &traps);
    assert_eq!(sprung, traps);
    assert!(entry_triggers(5, &vec![5], &traps).is_empty());
}

#[test]
fn picking_up_takes_the_last_item_here() {
    let items = vec![(1, Point::new(2, 2)), (2, Point::new(3, 2)), (3, Point::new(2, 2))];
    assert_eq!(item_at(&items, Point::new(2, 2)), Some(3));
    assert_eq!(item_at(&items, Point::new(3, 2)), Some(2));
    assert_eq!(item_at(&items, Point::new(9, 9)), None);
}

#[test]
fn bystanders_step_where_the_roll_says_unless_blocked() {
    let mut map = room(6, 6);
    let pos = Point::new(2, 2);
    assert_eq!(bystander_move(&map, pos, 1), Point::new(1, 2));
    assert_eq!(bystander_move(&map, pos, 2), Point::new(3, 2));
    assert_eq!(bystander_move(&map, pos, 3), Point::new(2, 1));
    assert_eq!(bystander_move(&map, pos, 4), Point::new(2, 3));
    assert_eq!(bystander_move(&map, pos, 5), pos);
    let east = map.xy_idx(3, 2);
    map.blocked[east] = true;
    assert_eq!(bystander_move(&map, pos, 2), pos);
    assert_eq!(bystander_move(&map, Point::new(0, 0), 1), Point::new(0, 0));
    let mut rng = RandomNumberGenerator::seeded(8);
    for _ in 0..20 {
        let r = bystander_step(&mut rng, &map, pos);
        assert!(r == pos || (r.x - pos.x).abs() + (r.y - pos.y).abs() == 1);
    }
}
