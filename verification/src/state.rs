use vstd::prelude::*;
use crate::gui::{MainMenuSelection, MainMenuResult, ItemMenuResult, GameOverResult};
use crate::point::Point;
use crate::rect::half_toward_zero;

verus! {

/// What the game is doing: the phase of a turn, a menu on screen, or map
/// generation being shown.
#[derive(Clone, Copy, Debug, PartialEq, Eq, Structural)]
pub enum RunState {
    AwaitingInput,
    PreRun,
    PlayerTurn,
    MonsterTurn,
    WorldTurn,
    ShowInventory,
    ShowDropItem,
    ShowRemoveItem,
    /// Picking a target for item `item`, within `range` cells.
    ShowTargeting { range: i32, item: u64 },
    MainMenu { menu_selection: MainMenuSelection },
    SaveGame,
    NextLevel,
    GameOver,
    /// Revealing the map one row a frame, from row `row`.
    MagicMapReveal { row: i32 },
    MapGeneration,
}

/// What a frame brought to the state that asks for it.
#[derive(Clone, Copy, Debug, PartialEq, Eq, Structural)]
pub enum TickInput {
    /// The state asks for nothing.
    Nothing,
    /// Whether the display of map generation is over, and the state to go on with.
    MapGeneration { finished: bool, next: Option<RunState> },
    /// The state the player's key press leads to.
    PlayerInput { chosen: RunState },
    /// The state the systems left after running.
    AfterSystems { state: RunState },
    /// The answer of an item menu: the item picked, and its range if it is
    /// used at a distance.
    ItemMenu { result: ItemMenuResult, item: Option<u64>, ranged: Option<i32> },
    /// The answer of target selection.
    Targeting { result: ItemMenuResult, target: Option<Point> },
    MainMenu { result: MainMenuResult },
    GameOver { result: GameOverResult },
    /// The height of the map being revealed.
    MapHeight { height: i32 },
}

/// What the game must do after a frame's decision.
#[derive(Clone, Copy, Debug, PartialEq, Eq, Structural)]
pub enum TickAction {
    /// The player uses `item`, at `target` if one was picked.
    UseItem { item: u64, target: Option<Point> },
    DropItem { item: u64 },
    RemoveItem { item: u64 },
    LoadGame,
    DeleteSave,
    Quit,
    GameOverCleanup,
    SaveGame,
    GotoNextLevel,
    /// Mark row `row` of the map as revealed.
    RevealRow { row: i32 },
}

/// The states in which the game systems run before the decision.
pub open spec fn spec_runs_systems(s: RunState) -> bool {
    s is PreRun || s is PlayerTurn || s is MonsterTurn || s is WorldTurn
}

/// Whether the game systems run in this state before the decision.
pub fn runs_systems(s: RunState) -> (r: bool)
    ensures
        r == spec_runs_systems(s),
{
    match s {
        RunState::PreRun | RunState::PlayerTurn | RunState::MonsterTurn | RunState::WorldTurn => true,
        _ => false,
    }
}

/// Whether the map and the side panel are drawn: always but in the main
/// menu and on the game-over screen.
pub fn draws_ui(s: RunState) -> (r: bool)
    ensures
        r == !(s is MainMenu || s is GameOver),
{
    match s {
        RunState::MainMenu { .. } | RunState::GameOver => false,
        _ => true,
    }
}

/// An input a frame in `state` can be given: not a finished map
/// generation with no state to go on to, nor an item menu that reports a
/// selection without an item; during a magic map reveal the row counts stay within `i32`.
pub open spec fn tick_input_ok(state: RunState, input: TickInput) -> bool {
    match state {
        RunState::MapGeneration => match input {
            TickInput::MapGeneration { finished, next } => finished ==> next is Some,
            _ => true,
        },
        RunState::ShowInventory | RunState::ShowDropItem | RunState::ShowRemoveItem => match input {
            TickInput::ItemMenu { result, item, .. } => result is Selected ==> item is Some,
            _ => true,
        },
        RunState::MagicMapReveal { row } => row < i32::MAX && match input {
            TickInput::MapHeight { height } => height > i32::MIN,
            _ => true,
        },
        _ => true,
    }
}

/// The next state, and what to do, after a frame in `state` that brought
/// `input`. An input meant for another state changes nothing.
pub open spec fn spec_tick(state: RunState, input: TickInput) -> (RunState, Seq<TickAction>) {
    let stay = (state, Seq::<TickAction>::empty());
    match state {
        RunState::MapGeneration => match input {
            TickInput::MapGeneration { finished, next } => if finished { (next->0, seq![]) } else { stay },
            _ => stay,
        },
        RunState::PreRun => (RunState::AwaitingInput, seq![]),
        RunState::AwaitingInput => match input {
            TickInput::PlayerInput { chosen } => (chosen, seq![]),
            _ => stay,
        },
        RunState::PlayerTurn => match input {
            TickInput::AfterSystems { state: after } => (if after is PlayerTurn { RunState::MonsterTurn } else { after }, seq![]),
            _ => stay,
        },
        RunState::MonsterTurn => (RunState::WorldTurn, seq![]),
        RunState::WorldTurn => (RunState::AwaitingInput, seq![]),
        RunState::ShowInventory => match input {
            TickInput::ItemMenu { result, item, ranged } => match result {
                ItemMenuResult::Cancel => (RunState::AwaitingInput, seq![]),
                ItemMenuResult::NoResponse => stay,
                ItemMenuResult::Selected => match ranged {
                    Some(range) => (RunState::ShowTargeting { range, item: item->0 }, seq![]),
                    None => (RunState::PlayerTurn, seq![TickAction::UseItem { item: item->0, target: None }]),
                },
            },
            _ => stay,
        },
        RunState::ShowDropItem => match input {
            TickInput::ItemMenu { result, item, .. } => match result {
                ItemMenuResult::Cancel => (RunState::AwaitingInput, seq![]),
                ItemMenuResult::NoResponse => stay,
                ItemMenuResult::Selected => (RunState::PlayerTurn, seq![TickAction::DropItem { item: item->0 }]),
            },
            _ => stay,
        },
        RunState::ShowRemoveItem => match input {
            TickInput::ItemMenu { result, item, .. } => match result {
                ItemMenuResult::Cancel => (RunState::AwaitingInput, seq![]),
                ItemMenuResult::NoResponse => stay,
                ItemMenuResult::Selected => (RunState::PlayerTurn, seq![TickAction::RemoveItem { item: item->0 }]),
            },
            _ => stay,
        },
        RunState::ShowTargeting { range, item } => match input {
            TickInput::Targeting { result, target } => match result {
                ItemMenuResult::Cancel => (RunState::AwaitingInput, seq![]),
                ItemMenuResult::NoResponse => stay,
                ItemMenuResult::Selected => (RunState::PlayerTurn, seq![TickAction::UseItem { item, target }]),
            },
            _ => stay,
        },
        RunState::MainMenu { .. } => match input {
            TickInput::MainMenu { result } => match result {
                MainMenuResult::NoSelection { selected } => (RunState::MainMenu { menu_selection: selected }, seq![]),
                MainMenuResult::Selected { selected } => match selected {
                    MainMenuSelection::NewGame => (RunState::PreRun, seq![]),
                    MainMenuSelection::LoadGame => (RunState::PreRun, seq![TickAction::LoadGame, TickAction::DeleteSave]),
                    MainMenuSelection::Quit => (state, seq![TickAction::Quit]),
                },
            },
            _ => stay,
        },
        RunState::GameOver => match input {
            TickInput::GameOver { result } => match result {
                GameOverResult::NoSelection => stay,
                GameOverResult::QuitToMenu => (
                    RunState::MainMenu { menu_selection: MainMenuSelection::NewGame },
                    seq![TickAction::GameOverCleanup],
                ),
            },
            _ => stay,
        },
        RunState::SaveGame => (RunState::MainMenu { menu_selection: MainMenuSelection::LoadGame }, seq![TickAction::SaveGame]),
        RunState::NextLevel => (RunState::PreRun, seq![TickAction::GotoNextLevel]),
        RunState::MagicMapReveal { row } => match input {
            TickInput::MapHeight { height } => (
                if row >= height - 1 { RunState::MonsterTurn } else { RunState::MagicMapReveal { row: (row + 1) as i32 } },
                seq![TickAction::RevealRow { row }],
            ),
            _ => stay,
        },
    }
}

/// The item an item menu's answer reports, if the input is one.
pub open spec fn menu_item(input: TickInput) -> Option<u64> {
    match input {
        TickInput::ItemMenu { item, .. } => item,
        _ => None,
    }
}

/// Which menu leads to which item action: a selection in the drop menu
/// gives exactly one action, dropping the item picked; in the remove menu,
/// exactly one, taking it off; in the inventory, for an item used on the
/// spot, using it. Whatever the state and input, only the inventory and
/// targeting give a use, only the drop menu a drop and only the remove menu
/// a removal, and a drop or removal is of the item the menu reported.
pub proof fn lemma_menus_give_their_own_actions(state: RunState, input: TickInput)
    requires
        tick_input_ok(state, input),
    ensures
        forall|i: u64, r: Option<i32>|
            #[trigger] spec_tick(RunState::ShowDropItem, TickInput::ItemMenu { result: ItemMenuResult::Selected, item: Some(i), ranged: r })
                == (RunState::PlayerTurn, seq![TickAction::DropItem { item: i }]),
        forall|i: u64, r: Option<i32>|
            #[trigger] spec_tick(RunState::ShowRemoveItem, TickInput::ItemMenu { result: ItemMenuResult::Selected, item: Some(i), ranged: r })
                == (RunState::PlayerTurn, seq![TickAction::RemoveItem { item: i }]),
        forall|i: u64|
            #[trigger] spec_tick(RunState::ShowInventory, TickInput::ItemMenu { result: ItemMenuResult::Selected, item: Some(i), ranged: None })
                == (RunState::PlayerTurn, seq![TickAction::UseItem { item: i, target: None }]),
        forall|k: int| 0 <= k < spec_tick(state, input).1.len() ==> {
            let a = #[trigger] spec_tick(state, input).1[k];
            &&& a is UseItem ==> (state is ShowInventory || state is ShowTargeting)
            &&& a matches TickAction::DropItem { item } ==> state is ShowDropItem && menu_item(input) == Some(item)
            &&& a matches TickAction::RemoveItem { item } ==> state is ShowRemoveItem && menu_item(input) == Some(item)
        },
{
    let acts = spec_tick(state, input).1;
    assert forall|k: int| 0 <= k < acts.len() implies {
        let a = #[trigger] spec_tick(state, input).1[k];
        &&& a is UseItem ==> (state is ShowInventory || state is ShowTargeting)
        &&& a matches TickAction::DropItem { item } ==> state is ShowDropItem && menu_item(input) == Some(item)
        &&& a matches TickAction::RemoveItem { item } ==> state is ShowRemoveItem && menu_item(input) == Some(item)
    } by {
        let a = acts[k];
        if state is MainMenu {
            if acts.len() == 2 {
                assert(a == TickAction::LoadGame || a == TickAction::DeleteSave);
            } else if acts.len() == 1 {
                assert(a == TickAction::Quit);
            }
        }
    }
}

/// The game's decision for one frame: the next state and what to do. The
/// turn runs player, monsters, world; menus lead to the player's turn with
/// the item used, dropped or removed, or back to waiting on a cancel; the
/// magic-mapping reveal goes row by row and then hands over to the monsters.
pub fn tick(state: RunState, input: TickInput) -> (r: (RunState, Vec<TickAction>))
    requires
        tick_input_ok(state, input),
    ensures
        r.0 == spec_tick(state, input).0,
        r.1@ == spec_tick(state, input).1,
{
    let mut actions: Vec<TickAction> = Vec::new();
    let next = match state {
        RunState::MapGeneration => match input {
            TickInput::MapGeneration { finished, next } => if finished {
                match next { Some(n) => n, None => state }
            } else {
                state
            },
            _ => state,
        },
        RunState::PreRun => RunState::AwaitingInput,
        RunState::AwaitingInput => match input {
            TickInput::PlayerInput { chosen } => chosen,
            _ => state,
        },
        RunState::PlayerTurn => match input {
            TickInput::AfterSystems { state: after } => if after == RunState::PlayerTurn { RunState::MonsterTurn } else { after },
            _ => state,
        },
        RunState::MonsterTurn => RunState::WorldTurn,
        RunState::WorldTurn => RunState::AwaitingInput,
        RunState::ShowInventory => match input {
            TickInput::ItemMenu { result, item, ranged } => match result {
                ItemMenuResult::Cancel => RunState::AwaitingInput,
                ItemMenuResult::NoResponse => state,
                ItemMenuResult::Selected => {
                    let it = match item { Some(i) => i, None => 0 };
                    match ranged {
                        Some(range) => RunState::ShowTargeting { range, item: it },
                        None => {
                            actions.push(TickAction::UseItem { item: it, target: None });
                            RunState::PlayerTurn
                        },
                    }
                },
            },
            _ => state,
        },
        RunState::ShowDropItem => match input {
            TickInput::ItemMenu { result, item, .. } => match result {
                ItemMenuResult::Cancel => RunState::AwaitingInput,
                ItemMenuResult::NoResponse => state,
                ItemMenuResult::Selected => {
                    let it = match item { Some(i) => i, None => 0 };
                    actions.push(TickAction::DropItem { item: it });
                    RunState::PlayerTurn
                },
            },
            _ => state,
        },
        RunState::ShowRemoveItem => match input {
            TickInput::ItemMenu { result, item, .. } => match result {
                ItemMenuResult::Cancel => RunState::AwaitingInput,
                ItemMenuResult::NoResponse => state,
                ItemMenuResult::Selected => {
                    let it = match item { Some(i) => i, None => 0 };
                    actions.push(TickAction::RemoveItem { item: it });
                    RunState::PlayerTurn
                },
            },
            _ => state,
        },
        RunState::ShowTargeting { range, item } => match input {
            TickInput::Targeting { result, target } => match result {
                ItemMenuResult::Cancel => RunState::AwaitingInput,
                ItemMenuResult::NoResponse => state,
                ItemMenuResult::Selected => {
                    actions.push(TickAction::UseItem { item, target });
                    RunState::PlayerTurn
                },
            },
            _ => state,
        },
        RunState::MainMenu { .. } => match input {
            TickInput::MainMenu { result } => match result {
                MainMenuResult::NoSelection { selected } => RunState::MainMenu { menu_selection: selected },
                MainMenuResult::Selected { selected } => match selected {
                    MainMenuSelection::NewGame => RunState::PreRun,
                    MainMenuSelection::LoadGame => {
                        actions.push(TickAction::LoadGame);
                        actions.push(TickAction::DeleteSave);
                        RunState::PreRun
                    },
                    MainMenuSelection::Quit => {
                        actions.push(TickAction::Quit);
                        state
                    },
                },
            },
            _ => state,
        },
        RunState::GameOver => match input {
            TickInput::GameOver { result } => match result {
                GameOverResult::NoSelection => state,
                GameOverResult::QuitToMenu => {
                    actions.push(TickAction::GameOverCleanup);
                    RunState::MainMenu { menu_selection: MainMenuSelection::NewGame }
                },
            },
            _ => state,
        },
        RunState::SaveGame => {
            actions.push(TickAction::SaveGame);
            RunState::MainMenu { menu_selection: MainMenuSelection::LoadGame }
        },
        RunState::NextLevel => {
            actions.push(TickAction::GotoNextLevel);
            RunState::PreRun
        },
        RunState::MagicMapReveal { row } => match input {
            TickInput::MapHeight { height } => {
                actions.push(TickAction::RevealRow { row });
                if row >= height - 1 { RunState::MonsterTurn } else { RunState::MagicMapReveal { row: row + 1 } }
            },
            _ => state,
        },
    };
    proof {
        assert(actions@ =~= spec_tick(state, input).1);
    }
    (next, actions)
}

} // verus!

verus! {

/// What the world holds of an entity when the player goes down a level.
#[derive(Clone, Copy, Debug, PartialEq, Eq, Structural)]
pub struct LevelEntity {
    pub entity: u64,
    pub is_player: bool,
    pub in_backpack: bool,
    pub equipped: bool,
}

/// The entities that go with the old level: all but the player and what
/// the player carries or wears, in order.
pub open spec fn left_behind(entities: Seq<LevelEntity>) -> Seq<u64> {
    entities.filter(|e: LevelEntity| !e.is_player && !e.in_backpack && !e.equipped).map_values(|e: LevelEntity| e.entity)
}

/// The entities to delete on going down a level (see `left_behind`).
pub fn entities_to_remove_on_level_change(entities: &Vec<LevelEntity>) -> (r: Vec<u64>)
    ensures
        r@ == left_behind(entities@),
{
    let ghost pred = |e: LevelEntity| !e.is_player && !e.in_backpack && !e.equipped;
    let ghost proj = |e: LevelEntity| e.entity;
    let mut out: Vec<u64> = Vec::new();
    for k in 0..entities.len()
        invariant
            pred == (|e: LevelEntity| !e.is_player && !e.in_backpack && !e.equipped),
            proj == (|e: LevelEntity| e.entity),
            out@ == entities@.take(k as int).filter(pred).map_values(proj),
    {
        let e = entities[k];
        proof {
            assert(entities@.take(k + 1) =~= entities@.take(k as int).push(e));
            entities@.take(k as int).lemma_filter_push(e, pred);
            let f = entities@.take(k as int).filter(pred);
            assert(f.push(e).map_values(proj) =~= f.map_values(proj).push(e.entity));
        }
        if !e.is_player && !e.in_backpack && !e.equipped {
            out.push(e.entity);
        }
    }
    proof {
        assert(entities@.take(entities@.len() as int) =~= entities@);
    }
    out
}

/// The player's hit points on reaching a new level: at least half the
/// maximum (rounded towards zero).
pub fn hp_on_descent(hp: i32, max_hp: i32) -> (r: i32)
    ensures
        r == (if hp >= half_toward_zero(max_hp as int) { hp as int } else { half_toward_zero(max_hp as int) }),
{
    let half = max_hp / 2;
    if hp >= half { hp } else { half }
}

} // verus!
