use vstd::prelude::*;
use rltk::RandomNumberGenerator;
use crate::astar::{a_star_search, path_sized, reachable, is_walk};
use crate::components::{HungerClock, HungerState, Position};
use crate::map::{TileMap, lemma_cell_index};
use crate::point::{Point, spec_distance_squared, distance_squared};
use crate::rng::roll_dice;
use crate::state::RunState;
use crate::tile::TileType;

verus! {

/// What a turn of hunger tells the player.
#[derive(Clone, Copy, Debug, PartialEq, Eq, Structural)]
pub enum HungerEvent {
    NoLongerWellFed,
    Hungry,
    Starving,
    /// Starving hurts: one hit point of damage.
    HungerPains,
}

/// Whether the clock of this creature runs in this state: the player's in
/// the player's turn, the others' in the monsters' turn.
pub open spec fn clock_runs(is_player: bool, state: RunState) -> bool {
    (state is PlayerTurn && is_player) || (state is MonsterTurn && !is_player)
}

/// One turn of a hunger clock: it counts down, and when it runs out the
/// creature gets hungrier (well fed, normal, hungry, starving, each lasting
/// 200 turns), or, already starving, takes a point of damage.
pub fn hunger_tick(clock: HungerClock, is_player: bool, state: RunState) -> (r: (HungerClock, Option<HungerEvent>))
    requires
        clock.duration > i32::MIN,
    ensures
        !clock_runs(is_player, state) ==> r == (clock, None::<HungerEvent>),
        clock_runs(is_player, state) && clock.duration - 1 >= 1 ==>
            r == (HungerClock { state: clock.state, duration: (clock.duration - 1) as i32 }, None::<HungerEvent>),
        clock_runs(is_player, state) && clock.duration - 1 < 1 ==> r == match clock.state {
            HungerState::WellFed => (HungerClock { state: HungerState::Normal, duration: 200 }, Some(HungerEvent::NoLongerWellFed)),
            HungerState::Normal => (HungerClock { state: HungerState::Hungry, duration: 200 }, Some(HungerEvent::Hungry)),
            HungerState::Hungry => (HungerClock { state: HungerState::Starving, duration: 200 }, Some(HungerEvent::Starving)),
            HungerState::Starving => (HungerClock { state: HungerState::Starving, duration: (clock.duration - 1) as i32 }, Some(HungerEvent::HungerPains)),
        },
{
    let proceed = match state {
        RunState::PlayerTurn => is_player,
        RunState::MonsterTurn => !is_player,
        _ => false,
    };
    if !proceed {
        return (clock, None);
    }
    let duration = clock.duration - 1;
    if duration >= 1 {
        return (HungerClock { state: clock.state, duration }, None);
    }
    match clock.state {
        HungerState::WellFed => (HungerClock { state: HungerState::Normal, duration: 200 }, Some(HungerEvent::NoLongerWellFed)),
        HungerState::Normal => (HungerClock { state: HungerState::Hungry, duration: 200 }, Some(HungerEvent::Hungry)),
        HungerState::Hungry => (HungerClock { state: HungerState::Starving, duration: 200 }, Some(HungerEvent::Starving)),
        HungerState::Starving => (HungerClock { state: HungerState::Starving, duration }, Some(HungerEvent::HungerPains)),
    }
}

/// What a monster does on its turn.
#[derive(Clone, Copy, Debug, PartialEq, Eq, Structural)]
pub enum MonsterAction {
    /// It is confused and loses the turn; `turns` are left, and the
    /// confusion ends when none are.
    Confused { turns: i32 },
    /// It attacks the player next to it.
    Attack,
    /// It steps along its path towards the player.
    Step { to: Point },
    /// It stays where it is.
    Wait,
}

/// The points are at most one step apart each way: a straight-line
/// distance below 1.5.
pub open spec fn next_to(a: Point, b: Point) -> bool {
    spec_distance_squared(a, b) <= 2
}

/// A monster's decision: a confused monster only counts down its
/// confusion; one next to the player attacks; one that sees the player
/// steps onto the second point of a path to the player, when there is one
/// longer than a single point; otherwise it waits.
pub fn monster_turn(confusion: Option<i32>, pos: Point, player: Point, sees_player: bool, map: &TileMap) -> (r: MonsterAction)
    requires
        path_sized(map),
        map.in_bounds(pos.x as int, pos.y as int),
        map.in_bounds(player.x as int, player.y as int),
        confusion matches Some(t) ==> t > i32::MIN,
    ensures
        confusion matches Some(t) ==> r == (MonsterAction::Confused { turns: (t - 1) as i32 }),
        confusion is None && next_to(pos, player) ==> r == MonsterAction::Attack,
        confusion is None && !next_to(pos, player) && !sees_player ==> r == MonsterAction::Wait,
        confusion is None && !next_to(pos, player) && sees_player && !reachable(map, pos, player) ==> r == MonsterAction::Wait,
        r matches MonsterAction::Step { to } ==> confusion is None && !next_to(pos, player) && sees_player
            && reachable(map, pos, player) && exists|path: Seq<Point>| #[trigger] is_walk(map, path)
                && path.len() > 1 && path[0] == pos && path.last() == player && path[1] == to,
{
    match confusion {
        Some(t) => MonsterAction::Confused { turns: t - 1 },
        None => {
            let d = distance_squared(pos, player);
            if d <= 2 {
                MonsterAction::Attack
            } else if sees_player {
                match a_star_search(pos, player, map) {
                    Some((path, _cost)) => {
                        if path.len() > 1 {
                            MonsterAction::Step { to: path[1] }
                        } else {
                            MonsterAction::Wait
                        }
                    },
                    None => MonsterAction::Wait,
                }
            } else {
                MonsterAction::Wait
            }
        },
    }
}

/// Moves whatever blocks cell `from` to cell `to`: `from` is freed and
/// `to` blocked; nothing else changes.
pub fn move_blocker(map: &mut TileMap, from: Point, to: Point)
    requires
        old(map).wf(),
        old(map).in_bounds(from.x as int, from.y as int),
        old(map).in_bounds(to.x as int, to.y as int),
    ensures
        final(map).wf(),
        final(map).tiles == old(map).tiles,
        final(map).width == old(map).width,
        final(map).height == old(map).height,
        final(map).tile_content == old(map).tile_content,
        final(map).revealed_tiles == old(map).revealed_tiles,
        final(map).visible_tiles == old(map).visible_tiles,
        final(map).blocked@ == old(map).blocked@.update(old(map).idx(from.x as int, from.y as int), false)
            .update(old(map).idx(to.x as int, to.y as int), true),
{
    proof {
        lemma_cell_index(map.width as int, map.height as int, from.x as int, from.y as int);
        lemma_cell_index(map.width as int, map.height as int, to.x as int, to.y as int);
    }
    let a = map.xy_idx(from.x, from.y);
    map.blocked.set(a, false);
    let b = map.xy_idx(to.x, to.y);
    map.blocked.set(b, true);
}

/// Where a bystander at `pos` ends up for a d5 roll of `roll`: 1 to 4 pick
/// the cell west, east, north or south, anything else staying put; it moves
/// there when the cell lies on the map (short of the last row and column)
/// and is not blocked, and otherwise stays.
pub open spec fn spec_bystander_move(map: &TileMap, pos: Point, roll: int) -> Point {
    let (x, y) = if roll == 1 {
        (pos.x - 1, pos.y as int)
    } else if roll == 2 {
        (pos.x + 1, pos.y as int)
    } else if roll == 3 {
        (pos.x as int, pos.y - 1)
    } else if roll == 4 {
        (pos.x as int, pos.y + 1)
    } else {
        (pos.x as int, pos.y as int)
    };
    if 0 <= x < map.width - 1 && 0 <= y < map.height - 1 && !map.blocked@[map.idx(x, y)] {
        Point { x: x as i32, y: y as i32 }
    } else {
        pos
    }
}

/// Where a bystander at `pos` ends up for the d5 roll `roll` (see
/// [`spec_bystander_move`]).
pub fn bystander_move(map: &TileMap, pos: Point, roll: i32) -> (r: Point)
    requires
        map.wf(),
        -0x1000_0000 <= pos.x <= 0x1000_0000,
        -0x1000_0000 <= pos.y <= 0x1000_0000,
    ensures
        r == spec_bystander_move(map, pos, roll as int),
{
    let mut x = pos.x;
    let mut y = pos.y;
    if roll == 1 {
        x = x - 1;
    } else if roll == 2 {
        x = x + 1;
    } else if roll == 3 {
        y = y - 1;
    } else if roll == 4 {
        y = y + 1;
    }
    if x >= 0 && x < map.width - 1 && y >= 0 && y < map.height - 1 {
        proof { lemma_cell_index(map.width as int, map.height as int, x as int, y as int); }
        let dest = map.xy_idx(x, y);
        if !map.blocked[dest] {
            return Point { x, y };
        }
    }
    pos
}

/// A bystander's wander: a d5 is rolled and the bystander moves as
/// [`bystander_move`] says for that roll. Gives back where it ends up.
pub fn bystander_step(rng: &mut RandomNumberGenerator, map: &TileMap, pos: Point) -> (r: Point)
    requires
        map.wf(),
        -0x1000_0000 <= pos.x <= 0x1000_0000,
        -0x1000_0000 <= pos.y <= 0x1000_0000,
    ensures
        exists|roll: int| 1 <= roll <= 5 && r == #[trigger] spec_bystander_move(map, pos, roll),
        r == pos || ({
            &&& 0 <= r.x < map.width - 1
            &&& 0 <= r.y < map.height - 1
            &&& !map.blocked@[map.idx(r.x as int, r.y as int)]
            &&& ((r.x == pos.x && (r.y == pos.y - 1 || r.y == pos.y + 1)) || (r.y == pos.y && (r.x == pos.x - 1 || r.x == pos.x + 1)))
        }),
{
    let roll = roll_dice(rng, 1, 5);
    bystander_move(map, pos, roll)
}

/// An entity standing on the map: its identifier, where it stands, and
/// whether it blocks the cell.
#[derive(Clone, Copy, Debug, PartialEq, Eq, Structural)]
pub struct Placed {
    pub entity: u64,
    pub pos: Position,
    pub blocks: bool,
}

/// The entities, in order, that stand on cell `i`.
pub open spec fn standing_on(map: &TileMap, placed: Seq<Placed>, i: int) -> Seq<u64> {
    placed.filter(|p: Placed| map.idx(p.pos.x as int, p.pos.y as int) == i).map_values(|p: Placed| p.entity)
}

/// Rebuilds the map's index of entities: a cell is blocked when its tile
/// cannot be walked on or a blocking entity stands there, and each cell
/// lists the entities standing on it, in order.
pub fn index_map(map: &mut TileMap, placed: &Vec<Placed>)
    requires
        old(map).wf(),
        forall|k: int| 0 <= k < placed@.len() ==> old(map).in_bounds((#[trigger] placed@[k]).pos.x as int, placed@[k].pos.y as int),
    ensures
        final(map).wf(),
        final(map).tiles == old(map).tiles,
        final(map).width == old(map).width,
        final(map).height == old(map).height,
        final(map).revealed_tiles == old(map).revealed_tiles,
        final(map).visible_tiles == old(map).visible_tiles,
        forall|i: int| 0 <= i < final(map).blocked@.len() ==> #[trigger] final(map).blocked@[i] == (
            !crate::tile::spec_tile_walkable(old(map).tiles@[i])
            || exists|k: int| 0 <= k < placed@.len() && (#[trigger] placed@[k]).blocks
                && old(map).idx(placed@[k].pos.x as int, placed@[k].pos.y as int) == i),
        forall|i: int| 0 <= i < final(map).tile_content@.len() ==>
            (#[trigger] final(map).tile_content@[i])@ == standing_on(old(map), placed@, i),
{
    let ghost m0 = *map;
    map.populate_blocked();
    map.clear_content_index();
    let ghost m1 = *map;
    for k in 0..placed.len()
        invariant
            map.wf(),
            map.tiles == m0.tiles,
            map.width == m0.width,
            map.height == m0.height,
            map.revealed_tiles == m0.revealed_tiles,
            map.visible_tiles == m0.visible_tiles,
            m0.wf(),
            forall|j: int| 0 <= j < placed@.len() ==> m0.in_bounds((#[trigger] placed@[j]).pos.x as int, placed@[j].pos.y as int),
            forall|i: int| 0 <= i < map.blocked@.len() ==> #[trigger] map.blocked@[i] == (
                !crate::tile::spec_tile_walkable(m0.tiles@[i])
                || exists|q: int| 0 <= q < k && (#[trigger] placed@[q]).blocks
                    && m0.idx(placed@[q].pos.x as int, placed@[q].pos.y as int) == i),
            forall|i: int| 0 <= i < map.tile_content@.len() ==>
                (#[trigger] map.tile_content@[i])@ == standing_on(&m0, placed@.take(k as int), i),
    {
        let p = placed[k];
        assert(m0.in_bounds(placed@[k as int].pos.x as int, placed@[k as int].pos.y as int));
        proof { lemma_cell_index(map.width as int, map.height as int, p.pos.x as int, p.pos.y as int); }
        let idx = map.xy_idx(p.pos.x, p.pos.y);
        let ghost b0 = map.blocked@;
        let ghost c0 = map.tile_content@;
        if p.blocks {
            map.blocked.set(idx, true);
        }
        let mut cell = map.tile_content[idx].clone();
        proof { assert(cell@ == c0[idx as int]@); }
        cell.push(p.entity);
        map.tile_content.set(idx, cell);
        proof {
            let pred = |pp: Placed| m0.idx(pp.pos.x as int, pp.pos.y as int) == idx as int;
            assert(placed@.take(k + 1) == placed@.take(k as int).push(p));
            assert forall|i: int| 0 <= i < map.blocked@.len() implies #[trigger] map.blocked@[i] == (
                !crate::tile::spec_tile_walkable(m0.tiles@[i])
                || exists|q: int| 0 <= q < k + 1 && (#[trigger] placed@[q]).blocks
                    && m0.idx(placed@[q].pos.x as int, placed@[q].pos.y as int) == i) by {
                if i != idx as int {
                    assert(map.blocked@[i] == b0[i]);
                    if exists|q: int| 0 <= q < k + 1 && (#[trigger] placed@[q]).blocks
                        && m0.idx(placed@[q].pos.x as int, placed@[q].pos.y as int) == i {
                        let q = choose|q: int| 0 <= q < k + 1 && (#[trigger] placed@[q]).blocks
                            && m0.idx(placed@[q].pos.x as int, placed@[q].pos.y as int) == i;
                        assert(q < k);
                    }
                } else if p.blocks {
                    assert(placed@[k as int].blocks);
                }
            }
            assert forall|i: int| 0 <= i < map.tile_content@.len() implies
                (#[trigger] map.tile_content@[i])@ == standing_on(&m0, placed@.take(k + 1), i) by {
                let pi = |pp: Placed| m0.idx(pp.pos.x as int, pp.pos.y as int) == i;
                let f = |pp: Placed| pp.entity;
                placed@.take(k as int).lemma_filter_push(p, pi);
                if i == idx as int {
                    assert(placed@.take(k as int).filter(pi).push(p).map_values(f)
                        =~= placed@.take(k as int).filter(pi).map_values(f).push(p.entity));
                } else {
                    assert(map.tile_content@[i] == c0[i]);
                }
            }
        }
    }
    proof { assert(placed@.take(placed@.len() as int) == placed@); }
}

/// The visible points a viewshed keeps: those on the map, short of its
/// last row and column.
pub open spec fn kept_visible(map: &TileMap, p: Point) -> bool {
    0 <= p.x < map.width - 1 && 0 <= p.y < map.height - 1
}

/// Drops from the points seen those outside the map's inner area.
pub fn retain_visible(map: &TileMap, seen: &Vec<Point>) -> (r: Vec<Point>)
    requires
        map.wf(),
    ensures
        r@ == seen@.filter(|p: Point| kept_visible(map, p)),
{
    let ghost pred = |p: Point| kept_visible(map, p);
    let mut r: Vec<Point> = Vec::new();
    for k in 0..seen.len()
        invariant
            map.wf(),
            pred == (|p: Point| kept_visible(map, p)),
            r@ == seen@.take(k as int).filter(pred),
    {
        let p = seen[k];
        proof {
            assert(seen@.take(k + 1) == seen@.take(k as int).push(p));
            seen@.take(k as int).lemma_filter_push(p, pred);
        }
        if p.x >= 0 && p.x < map.width - 1 && p.y >= 0 && p.y < map.height - 1 {
            r.push(p);
        }
    }
    proof { assert(seen@.take(seen@.len() as int) == seen@); }
    r
}

/// Marks the points the player sees as revealed and visible.
pub fn reveal_seen(map: &mut TileMap, seen: &Vec<Point>)
    requires
        old(map).wf(),
        forall|k: int| 0 <= k < seen@.len() ==> old(map).in_bounds((#[trigger] seen@[k]).x as int, seen@[k].y as int),
    ensures
        final(map).wf(),
        final(map).tiles == old(map).tiles,
        final(map).width == old(map).width,
        final(map).height == old(map).height,
        final(map).blocked == old(map).blocked,
        final(map).tile_content == old(map).tile_content,
        forall|i: int| 0 <= i < final(map).revealed_tiles@.len() ==> #[trigger] final(map).revealed_tiles@[i] == (
            old(map).revealed_tiles@[i] || exists|k: int| 0 <= k < seen@.len() && old(map).idx((#[trigger] seen@[k]).x as int, seen@[k].y as int) == i),
        forall|i: int| 0 <= i < final(map).visible_tiles@.len() ==> #[trigger] final(map).visible_tiles@[i] == (
            old(map).visible_tiles@[i] || exists|k: int| 0 <= k < seen@.len() && old(map).idx((#[trigger] seen@[k]).x as int, seen@[k].y as int) == i),
{
    let ghost m0 = *map;
    for k in 0..seen.len()
        invariant
            map.wf(),
            m0.wf(),
            map.tiles == m0.tiles,
            map.width == m0.width,
            map.height == m0.height,
            map.blocked == m0.blocked,
            map.tile_content == m0.tile_content,
            forall|j: int| 0 <= j < seen@.len() ==> m0.in_bounds((#[trigger] seen@[j]).x as int, seen@[j].y as int),
            forall|i: int| 0 <= i < map.revealed_tiles@.len() ==> #[trigger] map.revealed_tiles@[i] == (
                m0.revealed_tiles@[i] || exists|q: int| 0 <= q < k && m0.idx((#[trigger] seen@[q]).x as int, seen@[q].y as int) == i),
            forall|i: int| 0 <= i < map.visible_tiles@.len() ==> #[trigger] map.visible_tiles@[i] == (
                m0.visible_tiles@[i] || exists|q: int| 0 <= q < k && m0.idx((#[trigger] seen@[q]).x as int, seen@[q].y as int) == i),
    {
        let p = seen[k];
        assert(m0.in_bounds(seen@[k as int].x as int, seen@[k as int].y as int));
        proof { lemma_cell_index(map.width as int, map.height as int, p.x as int, p.y as int); }
        let idx = map.xy_idx(p.x, p.y);
        let ghost r0 = map.revealed_tiles@;
        let ghost v0 = map.visible_tiles@;
        map.revealed_tiles.set(idx, true);
        map.visible_tiles.set(idx, true);
        proof {
            assert forall|i: int| 0 <= i < map.revealed_tiles@.len() implies #[trigger] map.revealed_tiles@[i] == (
                m0.revealed_tiles@[i] || exists|q: int| 0 <= q < k + 1 && m0.idx((#[trigger] seen@[q]).x as int, seen@[q].y as int) == i) by {
                if i == idx as int {
                    assert(m0.idx(seen@[k as int].x as int, seen@[k as int].y as int) == i);
                } else {
                    assert(map.revealed_tiles@[i] == r0[i]);
                    if exists|q: int| 0 <= q < k + 1 && m0.idx((#[trigger] seen@[q]).x as int, seen@[q].y as int) == i {
                        let q = choose|q: int| 0 <= q < k + 1 && m0.idx((#[trigger] seen@[q]).x as int, seen@[q].y as int) == i;
                        assert(q < k);
                    }
                }
            }
            assert forall|i: int| 0 <= i < map.visible_tiles@.len() implies #[trigger] map.visible_tiles@[i] == (
                m0.visible_tiles@[i] || exists|q: int| 0 <= q < k + 1 && m0.idx((#[trigger] seen@[q]).x as int, seen@[q].y as int) == i) by {
                if i == idx as int {
                    assert(m0.idx(seen@[k as int].x as int, seen@[k as int].y as int) == i);
                } else {
                    assert(map.visible_tiles@[i] == v0[i]);
                    if exists|q: int| 0 <= q < k + 1 && m0.idx((#[trigger] seen@[q]).x as int, seen@[q].y as int) == i {
                        let q = choose|q: int| 0 <= q < k + 1 && m0.idx((#[trigger] seen@[q]).x as int, seen@[q].y as int) == i;
                        assert(q < k);
                    }
                }
            }
        }
    }
}

/// Whether the player may go down: the cell they stand on holds down stairs.
pub fn try_next_level(map: &TileMap, player: Point) -> (r: bool)
    requires
        map.wf(),
        map.in_bounds(player.x as int, player.y as int),
    ensures
        r == (map.tile_at(player.x as int, player.y as int) is DownStairs),
{
    proof { lemma_cell_index(map.width as int, map.height as int, player.x as int, player.y as int); }
    let idx = map.xy_idx(player.x, player.y);
    map.tiles[idx] == TileType::DownStairs
}

/// Whether waiting a turn heals the player: no monster in sight and the
/// player neither hungry nor starving.
pub fn can_heal(monster_in_view: bool, hunger: Option<HungerState>) -> (r: bool)
    ensures
        r == (!monster_in_view && !(hunger == Some(HungerState::Hungry) || hunger == Some(HungerState::Starving))),
{
    let mut ok = !monster_in_view;
    match hunger {
        Some(HungerState::Hungry) | Some(HungerState::Starving) => { ok = false; },
        _ => {},
    }
    ok
}

/// The hit points after a turn's rest: one more, up to the maximum.
pub fn rest_heal(current: i32, max: i32) -> (r: i32)
    requires
        current < i32::MAX,
    ensures
        r == (if current + 1 < max { current + 1 } else { max as int }),
{
    if current + 1 < max { current + 1 } else { max }
}

/// The keys the player acts with; every other key is `Other`.
#[derive(Clone, Copy, Debug, PartialEq, Eq, Structural)]
pub enum PlayerKey {
    /// A movement key, with its direction.
    Move { dx: i32, dy: i32 },
    PickUp,
    Inventory,
    Drop,
    Remove,
    Escape,
    Descend,
    Wait,
    Other,
}

/// What a key press asks of the game.
#[derive(Clone, Copy, Debug, PartialEq, Eq, Structural)]
pub enum PlayerCommand {
    /// Nothing was pressed.
    Nothing,
    /// Try to move (or attack, or open a door) in this direction.
    Move { dx: i32, dy: i32 },
    PickUp,
    ShowInventory,
    ShowDrop,
    ShowRemove,
    SaveGame,
    TryDescend,
    SkipTurn,
    /// Any other key: the turn passes.
    PassTurn,
}

/// The command a key press gives.
pub fn player_command(key: Option<PlayerKey>) -> (r: PlayerCommand)
    ensures
        r == match key {
            None => PlayerCommand::Nothing,
            Some(PlayerKey::Move { dx, dy }) => PlayerCommand::Move { dx, dy },
            Some(PlayerKey::PickUp) => PlayerCommand::PickUp,
            Some(PlayerKey::Inventory) => PlayerCommand::ShowInventory,
            Some(PlayerKey::Drop) => PlayerCommand::ShowDrop,
            Some(PlayerKey::Remove) => PlayerCommand::ShowRemove,
            Some(PlayerKey::Escape) => PlayerCommand::SaveGame,
            Some(PlayerKey::Descend) => PlayerCommand::TryDescend,
            Some(PlayerKey::Wait) => PlayerCommand::SkipTurn,
            Some(PlayerKey::Other) => PlayerCommand::PassTurn,
        },
{
    match key {
        None => PlayerCommand::Nothing,
        Some(PlayerKey::Move { dx, dy }) => PlayerCommand::Move { dx, dy },
        Some(PlayerKey::PickUp) => PlayerCommand::PickUp,
        Some(PlayerKey::Inventory) => PlayerCommand::ShowInventory,
        Some(PlayerKey::Drop) => PlayerCommand::ShowDrop,
        Some(PlayerKey::Remove) => PlayerCommand::ShowRemove,
        Some(PlayerKey::Escape) => PlayerCommand::SaveGame,
        Some(PlayerKey::Descend) => PlayerCommand::TryDescend,
        Some(PlayerKey::Wait) => PlayerCommand::SkipTurn,
        Some(PlayerKey::Other) => PlayerCommand::PassTurn,
    }
}

/// The state the game moves to after a command that has been carried out:
/// waiting for input when nothing was pressed, a menu for the menu keys,
/// saving on Escape, the next level when descending succeeded, and the
/// player's turn otherwise.
pub fn state_after_command(cmd: PlayerCommand, descended: bool) -> (r: RunState)
    ensures
        r == match cmd {
            PlayerCommand::Nothing => RunState::AwaitingInput,
            PlayerCommand::ShowInventory => RunState::ShowInventory,
            PlayerCommand::ShowDrop => RunState::ShowDropItem,
            PlayerCommand::ShowRemove => RunState::ShowRemoveItem,
            PlayerCommand::SaveGame => RunState::SaveGame,
            PlayerCommand::TryDescend => if descended { RunState::NextLevel } else { RunState::PlayerTurn },
            _ => RunState::PlayerTurn,
        },
{
    match cmd {
        PlayerCommand::Nothing => RunState::AwaitingInput,
        PlayerCommand::ShowInventory => RunState::ShowInventory,
        PlayerCommand::ShowDrop => RunState::ShowDropItem,
        PlayerCommand::ShowRemove => RunState::ShowRemoveItem,
        PlayerCommand::SaveGame => RunState::SaveGame,
        PlayerCommand::TryDescend => if descended { RunState::NextLevel } else { RunState::PlayerTurn },
        _ => RunState::PlayerTurn,
    }
}

/// What stands on the cell the player moves into, as the move sees it.
#[derive(Clone, Copy, Debug, PartialEq, Eq, Structural)]
pub struct Occupant {
    pub entity: u64,
    /// A bystander or a vendor, who swaps places with the player.
    pub swaps: bool,
    /// Something with hit points, which the player attacks.
    pub fights: bool,
    /// A door, which opens.
    pub door: bool,
}

/// What a move of the player does.
pub struct MovePlan {
    /// Those who move to the player's old cell.
    pub swapped: Vec<u64>,
    /// Those the player attacks.
    pub attacked: Vec<u64>,
    /// Doors that open.
    pub opened: Vec<u64>,
    /// Where the player goes, if they move.
    pub new_pos: Option<Point>,
    /// The player's view must be worked out again.
    pub view_dirty: bool,
}

/// The occupants chosen by `pick`, in order, by identifier.
pub open spec fn occupants_where(occ: Seq<Occupant>, pick: spec_fn(Occupant) -> bool) -> Seq<u64> {
    occ.filter(pick).map_values(|o: Occupant| o.entity)
}

pub open spec fn swapper() -> spec_fn(Occupant) -> bool { |o: Occupant| o.swaps }
pub open spec fn fighter() -> spec_fn(Occupant) -> bool { |o: Occupant| !o.swaps && o.fights }
pub open spec fn door_of() -> spec_fn(Occupant) -> bool { |o: Occupant| o.door }

fn collect_occupants(occ: &Vec<Occupant>, kind: u8) -> (r: Vec<u64>)
    requires
        kind < 3,
    ensures
        r@ == occupants_where(occ@, if kind == 0 { swapper() } else if kind == 1 { fighter() } else { door_of() }),
{
    let ghost pick = if kind == 0 { swapper() } else if kind == 1 { fighter() } else { door_of() };
    let ghost f = |o: Occupant| o.entity;
    let mut r: Vec<u64> = Vec::new();
    for k in 0..occ.len()
        invariant
            kind < 3,
            pick == (if kind == 0 { swapper() } else if kind == 1 { fighter() } else { door_of() }),
            f == (|o: Occupant| o.entity),
            r@ == occ@.take(k as int).filter(pick).map_values(f),
    {
        let o = occ[k];
        proof {
            assert(occ@.take(k + 1) == occ@.take(k as int).push(o));
            occ@.take(k as int).lemma_filter_push(o, pick);
        }
        let chosen = if kind == 0 { o.swaps } else if kind == 1 { !o.swaps && o.fights } else { o.door };
        assert(chosen == pick(o));
        if chosen {
            r.push(o.entity);
            proof {
                let fs = occ@.take(k as int).filter(pick);
                assert(fs.push(o).map_values(f) =~= fs.map_values(f).push(o.entity)) by {
                    assert forall|i: int| 0 <= i < fs.len() + 1 implies #[trigger] fs.push(o).map_values(f)[i] == fs.map_values(f).push(o.entity)[i] by {
                        if i < fs.len() { assert(fs.push(o)[i] == fs[i]); }
                    }
                }
            }
        }
    }
    proof { assert(occ@.take(occ@.len() as int) == occ@); }
    r
}

/// The player at `pos` tries to move by `(dx, dy)` onto a cell holding the
/// occupants. Off the map nothing happens. Otherwise bystanders and vendors
/// swap places with the player, creatures with hit points are attacked,
/// doors open (and the view must be worked out again), and the player
/// moves when the cell is not blocked or someone swapped out of it.
pub fn try_move_player(pos: Point, dx: i32, dy: i32, map: &TileMap, occupants: &Vec<Occupant>) -> (r: MovePlan)
    requires
        map.wf(),
        i32::MIN <= pos.x + dx <= i32::MAX,
        i32::MIN <= pos.y + dy <= i32::MAX,
    ensures
        ({
            let x = pos.x + dx;
            let y = pos.y + dy;
            if !map.in_bounds(x, y) {
                &&& r.swapped@.len() == 0
                &&& r.attacked@.len() == 0
                &&& r.opened@.len() == 0
                &&& r.new_pos is None
                &&& !r.view_dirty
            } else {
                let moves = !map.blocked@[map.idx(x, y)] || occupants_where(occupants@, swapper()).len() > 0;
                &&& r.swapped@ == occupants_where(occupants@, swapper())
                &&& r.attacked@ == occupants_where(occupants@, fighter())
                &&& r.opened@ == occupants_where(occupants@, door_of())
                &&& r.new_pos == (if moves { Some(Point { x: x as i32, y: y as i32 }) } else { None })
                &&& r.view_dirty == (moves || r.opened@.len() > 0)
            }
        }),
{
    let x = pos.x + dx;
    let y = pos.y + dy;
    if x < 0 || x > map.width - 1 || y < 0 || y > map.height - 1 {
        return MovePlan { swapped: Vec::new(), attacked: Vec::new(), opened: Vec::new(), new_pos: None, view_dirty: false };
    }
    let swapped = collect_occupants(occupants, 0);
    let attacked = collect_occupants(occupants, 1);
    let opened = collect_occupants(occupants, 2);
    proof { lemma_cell_index(map.width as int, map.height as int, x as int, y as int); }
    let idx = map.xy_idx(x, y);
    let moves = !map.blocked[idx] || swapped.len() > 0;
    let view_dirty = moves || opened.len() > 0;
    MovePlan {
        swapped,
        attacked,
        opened,
        new_pos: if moves { Some(Point { x, y }) } else { None },
        view_dirty,
    }
}

/// Hit points and experience after a turn's damage.
pub open spec fn damage_result(hp: int, level: int, amounts: Seq<(i32, bool)>) -> (int, int)
    decreases amounts.len(),
{
    if amounts.len() == 0 {
        (hp, 0)
    } else {
        let (h, xp) = damage_result(hp, level, amounts.drop_last());
        let (dmg, from_player) = amounts.last();
        let h2 = h - dmg;
        (h2, xp + if h2 < 1 && from_player { level * 100 } else { 0 })
    }
}

/// Applies the damage suffered in a turn, in order: each amount comes off
/// the hit points, and each blow from the player that leaves them below 1
/// earns the player 100 experience per level of the victim.
pub fn apply_damage(hp: i32, level: i32, amounts: &Vec<(i32, bool)>) -> (r: (i32, i32))
    requires
        i32::MIN <= level * 100 <= i32::MAX,
        forall|k: int| 0 <= k <= amounts@.len() ==> {
            &&& i32::MIN <= (#[trigger] damage_result(hp as int, level as int, amounts@.take(k))).0 <= i32::MAX
            &&& i32::MIN <= damage_result(hp as int, level as int, amounts@.take(k)).1 <= i32::MAX
        },
    ensures
        r.0 == damage_result(hp as int, level as int, amounts@).0,
        r.1 == damage_result(hp as int, level as int, amounts@).1,
{
    let mut h: i32 = hp;
    let mut xp: i32 = 0;
    proof { assert(amounts@.take(0) =~= Seq::<(i32, bool)>::empty()); }
    for k in 0..amounts.len()
        invariant
            i32::MIN <= level * 100 <= i32::MAX,
            forall|j: int| 0 <= j <= amounts@.len() ==> {
                &&& i32::MIN <= (#[trigger] damage_result(hp as int, level as int, amounts@.take(j))).0 <= i32::MAX
                &&& i32::MIN <= damage_result(hp as int, level as int, amounts@.take(j)).1 <= i32::MAX
            },
            (h as int, xp as int) == damage_result(hp as int, level as int, amounts@.take(k as int)),
    {
        let (dmg, from_player) = amounts[k];
        proof {
            assert(amounts@.take(k + 1).drop_last() == amounts@.take(k as int));
            assert(amounts@.take(k + 1).last() == amounts@[k as int]);
            let next = damage_result(hp as int, level as int, amounts@.take(k + 1));
            assert(i32::MIN <= next.0 <= i32::MAX);
            assert(i32::MIN <= next.1 <= i32::MAX);
        }
        h = h - dmg;
        if h < 1 && from_player {
            let step = level * 100;
            xp = xp + step;
        }
    }
    proof { assert(amounts@.take(amounts@.len() as int) == amounts@); }
    (h, xp)
}

/// The level a player with this experience reaches, if above the current
/// one: a level for each 1000 points, plus one.
pub fn level_after(experience: i32, level: i32) -> (r: Option<i32>)
    requires
        0 <= level <= 0x10000,
        0 <= experience,
    ensures
        r == (if experience >= level * 1000 { Some((experience / 1000 + 1) as i32) } else { None }),
{
    if experience >= level * 1000 {
        Some(experience / 1000 + 1)
    } else {
        None
    }
}

/// The items that fall to the ground when the creatures in `dead` die:
/// given each carried item with its owner, those whose owner is dead, in
/// order.
pub fn items_to_drop(dead: &Vec<u64>, held: &Vec<(u64, u64)>) -> (r: Vec<u64>)
    ensures
        r@ == held@.filter(|h: (u64, u64)| dead@.contains(h.1)).map_values(|h: (u64, u64)| h.0),
{
    let ghost pick = |h: (u64, u64)| dead@.contains(h.1);
    let ghost f = |h: (u64, u64)| h.0;
    let mut r: Vec<u64> = Vec::new();
    for k in 0..held.len()
        invariant
            pick == (|h: (u64, u64)| dead@.contains(h.1)),
            f == (|h: (u64, u64)| h.0),
            r@ == held@.take(k as int).filter(pick).map_values(f),
    {
        let h = held[k];
        proof {
            assert(held@.take(k + 1) == held@.take(k as int).push(h));
            held@.take(k as int).lemma_filter_push(h, pick);
        }
        let mut owner_dead = false;
        for j in 0..dead.len()
            invariant
                owner_dead == exists|i: int| 0 <= i < j && dead@[i] == h.1,
        {
            if dead[j] == h.1 {
                owner_dead = true;
            }
        }
        if owner_dead {
            r.push(h.0);
            proof {
                let fs = held@.take(k as int).filter(pick);
                assert(fs.push(h).map_values(f) =~= fs.map_values(f).push(h.0)) by {
                    assert forall|i: int| 0 <= i < fs.len() + 1 implies #[trigger] fs.push(h).map_values(f)[i] == fs.map_values(f).push(h.0)[i] by {
                        if i < fs.len() { assert(fs.push(h)[i] == fs[i]); }
                    }
                }
            }
        }
    }
    proof {
        assert(held@.take(held@.len() as int) =~= held@);
    }
    r
}

/// Sorts out who died this turn: the player's death ends the game, and the
/// others with no hit points left are removed, in order.
pub fn the_dead(pools: &Vec<(u64, i32, bool)>) -> (r: (bool, Vec<u64>))
    ensures
        r.0 == exists|k: int| 0 <= k < pools@.len() && (#[trigger] pools@[k]).1 < 1 && pools@[k].2,
        r.1@ == pools@.filter(|p: (u64, i32, bool)| p.1 < 1 && !p.2).map_values(|p: (u64, i32, bool)| p.0),
{
    let ghost pick = |p: (u64, i32, bool)| p.1 < 1 && !p.2;
    let ghost f = |p: (u64, i32, bool)| p.0;
    let mut game_over = false;
    let mut dead: Vec<u64> = Vec::new();
    for k in 0..pools.len()
        invariant
            pick == (|p: (u64, i32, bool)| p.1 < 1 && !p.2),
            f == (|p: (u64, i32, bool)| p.0),
            game_over == exists|j: int| 0 <= j < k && (#[trigger] pools@[j]).1 < 1 && pools@[j].2,
            dead@ == pools@.take(k as int).filter(pick).map_values(f),
    {
        let p = pools[k];
        proof {
            assert(pools@.take(k + 1) == pools@.take(k as int).push(p));
            pools@.take(k as int).lemma_filter_push(p, pick);
        }
        if p.1 < 1 {
            if p.2 {
                game_over = true;
            } else {
                dead.push(p.0);
                proof {
                    let fs = pools@.take(k as int).filter(pick);
                    assert(fs.push(p).map_values(f) =~= fs.map_values(f).push(p.0)) by {
                        assert forall|i: int| 0 <= i < fs.len() + 1 implies #[trigger] fs.push(p).map_values(f)[i] == fs.map_values(f).push(p.0)[i] by {
                            if i < fs.len() { assert(fs.push(p)[i] == fs[i]); }
                        }
                    }
                }
            }
        }
        proof {
            if p.1 < 1 && p.2 {
                assert(pools@[k as int].1 < 1 && pools@[k as int].2);
            }
        }
    }
    proof { assert(pools@.take(pools@.len() as int) == pools@); }
    (game_over, dead)
}

} // verus!
