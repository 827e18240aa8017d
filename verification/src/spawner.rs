use vstd::prelude::*;
use rltk::RandomNumberGenerator;
use crate::map::{TileMap, lemma_cell_index};
use crate::prefabs::{PrefabMaster, get_spawn_table_for_depth, table_for, weights_sum};
use crate::random_table::{RandomTable, pick};
use crate::rect::Rect;
use crate::rng::roll_dice;
use crate::tile::TileType;

verus! {

/// The most monsters a region gets before its depth is added.
pub const MAX_MONSTERS: i32 = 4;

/// The spawn table for a level at `map_depth`.
pub fn room_table(pm: &PrefabMaster, map_depth: i32) -> (r: RandomTable)
    requires
        -0x1000_0000 <= map_depth <= 0x1000_0000,
        forall|k: int| 0 <= k < pm.prefabs.spawn_table@.len() ==> -0x1000_0000 <= (#[trigger] pm.prefabs.spawn_table@[k]).weight <= 0x1000_0000,
        weights_sum(table_for(pm.prefabs.spawn_table@, map_depth as int)) <= i32::MAX,
    ensures
        r.wf(),
        crate::prefabs::table_view(&r) == table_for(pm.prefabs.spawn_table@, map_depth as int),
        r.total_weight == weights_sum(table_for(pm.prefabs.spawn_table@, map_depth as int)),
{
    get_spawn_table_for_depth(pm, map_depth)
}

/// `name` is what a roll of table `rt` can give.
pub open spec fn rolled(rt: &RandomTable, name: Seq<char>) -> bool {
    ||| (rt.total_weight == 0 && name == "None"@)
    ||| exists|v: int| 0 <= v < rt.total_weight && name == #[trigger] pick(rt.entries@, v)
}

/// No value occurs twice in `s`.
pub open spec fn no_dups(s: Seq<usize>) -> bool {
    forall|i: int, j: int| 0 <= i < j < s.len() ==> #[trigger] s[i] != #[trigger] s[j]
}

/// What `spawn_region` adds to a spawn list: entries at distinct cells of
/// the area, each named by a roll of the table; as many as the cells it
/// drew, `count`, when the area names no cell twice.
pub open spec fn region_spawns(area: Seq<usize>, rt: &RandomTable, added: Seq<(usize, String)>, count: int) -> bool {
    &&& forall|k: int| 0 <= k < added.len() ==> area.contains(#[trigger] added[k].0)
    &&& forall|k: int| 0 <= k < added.len() ==> rolled(rt, (#[trigger] added[k]).1@)
    &&& forall|i: int, j: int| 0 <= i < j < added.len() ==> (#[trigger] added[i]).0 != (#[trigger] added[j]).0
    &&& added.len() <= count
    &&& no_dups(area) ==> added.len() == count
}

/// The number of cells that a region of `len` cells at `depth` draws for a
/// die roll of `d` between 1 and `MAX_MONSTERS + 3`: the roll plus the depth
/// less four, but no more than there are cells (and none below zero).
pub open spec fn spawn_count(len: int, d: int, depth: int) -> int {
    let n = if len < d + (depth - 1) - 3 { len } else { d + (depth - 1) - 3 };
    if n < 0 { 0 } else { n }
}

/// Draws cells of `area` at random, each at most once, as many as a die
/// roll plus the depth says (see `spawn_count`), and adds to the spawn list
/// each drawn cell with a name rolled from the level's spawn table.
pub fn spawn_region(
    _map: &TileMap,
    pm: &PrefabMaster,
    rng: &mut RandomNumberGenerator,
    area: &Vec<usize>,
    map_depth: i32,
    spawn_list: &mut Vec<(usize, String)>,
)
    requires
        -0x1000_0000 <= map_depth <= 0x1000_0000,
        area@.len() < i32::MAX,
        forall|k: int| 0 <= k < pm.prefabs.spawn_table@.len() ==> -0x1000_0000 <= (#[trigger] pm.prefabs.spawn_table@[k]).weight <= 0x1000_0000,
        weights_sum(table_for(pm.prefabs.spawn_table@, map_depth as int)) < i32::MAX,
    ensures
        final(spawn_list)@.len() >= old(spawn_list)@.len(),
        final(spawn_list)@.subrange(0, old(spawn_list)@.len() as int) == old(spawn_list)@,
        exists|rt: RandomTable, d: int| {
            &&& crate::prefabs::table_view(&rt) == table_for(pm.prefabs.spawn_table@, map_depth as int)
            &&& rt.total_weight == weights_sum(table_for(pm.prefabs.spawn_table@, map_depth as int))
            &&& 1 <= d <= MAX_MONSTERS + 3
            &&& #[trigger] region_spawns(area@, &rt, final(spawn_list)@.subrange(old(spawn_list)@.len() as int, final(spawn_list)@.len() as int),
                spawn_count(area@.len() as int, d, map_depth as int))
        },
{
    let spawn_table = room_table(pm, map_depth);
    let mut spawn_points: Vec<(usize, String)> = Vec::new();
    let mut areas: Vec<usize> = area.clone();
    let roll = roll_dice(rng, 1, MAX_MONSTERS + 3);
    let wanted = roll + (map_depth - 1) - 3;
    let num_spawns = if (areas.len() as i32) < wanted { areas.len() as i32 } else { wanted };
    let ghost count = spawn_count(area@.len() as int, roll as int, map_depth as int);
    let sl0 = spawn_list.len();
    let ghost old_list = spawn_list@;
    if num_spawns > 0 {
        let mut i: i32 = 0;
        while i < num_spawns
            invariant
                spawn_table.wf(),
                spawn_table.total_weight < i32::MAX,
                0 <= i <= num_spawns,
                num_spawns <= area@.len(),
                area@.len() < i32::MAX,
                areas@.len() == area@.len() - i,
                forall|j: int| 0 <= j < areas@.len() ==> area@.contains(#[trigger] areas@[j]),
                region_spawns(area@, &spawn_table, spawn_points@, i as int),
                no_dups(area@) ==> no_dups(areas@),
                no_dups(area@) ==> forall|j: int, k: int| 0 <= j < areas@.len() && 0 <= k < spawn_points@.len()
                    ==> #[trigger] areas@[j] != #[trigger] spawn_points@[k].0,
            decreases num_spawns - i,
        {
            let array_index: usize = if area.len() == 1 {
                0
            } else {
                (roll_dice(rng, 1, areas.len() as i32) - 1) as usize
            };
            let map_idx = areas[array_index];
            let name = spawn_table.roll(rng);
            let ghost p0 = spawn_points@;
            let ghost a0 = areas@;
            let mut found: usize = spawn_points.len();
            for k in 0..spawn_points.len()
                invariant
                    found == spawn_points@.len() || (found < k && spawn_points@[found as int].0 == map_idx),
                    found == spawn_points@.len() ==> forall|q: int| 0 <= q < k ==> (#[trigger] spawn_points@[q]).0 != map_idx,
            {
                if found == spawn_points.len() && spawn_points[k].0 == map_idx {
                    found = k;
                }
            }
            if found < spawn_points.len() {
                spawn_points.set(found, (map_idx, name));
                proof {
                    assert forall|i1: int, j1: int| 0 <= i1 < j1 < spawn_points@.len() implies
                        (#[trigger] spawn_points@[i1]).0 != (#[trigger] spawn_points@[j1]).0 by {
                        assert(p0[i1].0 != p0[j1].0);
                    }
                    assert forall|k: int| 0 <= k < spawn_points@.len() implies area@.contains(#[trigger] spawn_points@[k].0) by {
                        if k != found {
                            assert(spawn_points@[k] == p0[k]);
                        }
                    }
                    assert forall|k: int| 0 <= k < spawn_points@.len() implies rolled(&spawn_table, (#[trigger] spawn_points@[k]).1@) by {
                        if k != found {
                            assert(spawn_points@[k] == p0[k]);
                        }
                    }
                    if no_dups(area@) {
                        assert(a0[array_index as int] != p0[found as int].0);
                    }
                }
            } else {
                spawn_points.push((map_idx, name));
                proof {
                    assert forall|i1: int, j1: int| 0 <= i1 < j1 < spawn_points@.len() implies
                        (#[trigger] spawn_points@[i1]).0 != (#[trigger] spawn_points@[j1]).0 by {
                        if j1 < p0.len() {
                            assert(p0[i1].0 != p0[j1].0);
                        } else {
                            assert(spawn_points@[i1] == p0[i1]);
                        }
                    }
                    assert forall|k: int| 0 <= k < spawn_points@.len() implies area@.contains(#[trigger] spawn_points@[k].0) by {
                        if k < p0.len() {
                            assert(spawn_points@[k] == p0[k]);
                        }
                    }
                    assert forall|k: int| 0 <= k < spawn_points@.len() implies rolled(&spawn_table, (#[trigger] spawn_points@[k]).1@) by {
                        if k < p0.len() {
                            assert(spawn_points@[k] == p0[k]);
                        }
                    }
                }
            }
            areas.remove(array_index);
            proof {
                assert forall|j: int| 0 <= j < areas@.len() implies area@.contains(#[trigger] areas@[j]) by {
                    if j < array_index {
                        assert(areas@[j] == a0[j]);
                    } else {
                        assert(areas@[j] == a0[j + 1]);
                    }
                }
                if no_dups(area@) {
                    assert forall|i1: int, j1: int| 0 <= i1 < j1 < areas@.len() implies #[trigger] areas@[i1] != #[trigger] areas@[j1] by {
                        let oi = if i1 < array_index { i1 } else { i1 + 1 };
                        let oj = if j1 < array_index { j1 } else { j1 + 1 };
                        assert(areas@[i1] == a0[oi] && areas@[j1] == a0[oj]);
                    }
                    assert forall|j: int, k: int| 0 <= j < areas@.len() && 0 <= k < spawn_points@.len()
                        implies #[trigger] areas@[j] != #[trigger] spawn_points@[k].0 by {
                        let oj = if j < array_index { j } else { j + 1 };
                        assert(areas@[j] == a0[oj]);
                        if k < p0.len() {
                            assert(spawn_points@[k] == p0[k]);
                        } else {
                            assert(spawn_points@[k].0 == a0[array_index as int]);
                        }
                    }
                }
            }
            i = i + 1;
        }
        assert(count == num_spawns);
    } else {
        assert(count == 0);
    }
    let n = spawn_points.len();
    for k in 0..n
        invariant
            n == spawn_points@.len(),
            sl0 == old_list.len(),
            spawn_list@.len() == sl0 + k,
            spawn_list@.subrange(0, sl0 as int) == old_list,
            forall|q: int| 0 <= q < k ==> #[trigger] spawn_list@[sl0 + q] == spawn_points@[q],
    {
        spawn_list.push((spawn_points[k].0, spawn_points[k].1.clone()));
        proof {
            assert(spawn_list@.subrange(0, sl0 as int) =~= old_list);
        }
    }
    proof {
        let added = spawn_list@.subrange(sl0 as int, spawn_list@.len() as int);
        assert forall|q: int| 0 <= q < added.len() implies added[q] == spawn_points@[q] by {
            assert(added[q] == spawn_list@[sl0 + q]);
        }
        assert(added =~= spawn_points@);
        assert(region_spawns(area@, &spawn_table, added, count));
    }
}

/// The floor cells strictly inside `room`, row by row.
pub open spec fn room_floor(map: &TileMap, room: Rect) -> Seq<usize> {
    let rw = room.x2 - room.x1 - 1;
    let rh = room.y2 - room.y1 - 1;
    Seq::new((if rw > 0 && rh > 0 { rw * rh } else { 0 }) as nat,
        |k: int| map.idx(room.x1 + 1 + k % rw, room.y1 + 1 + k / rw) as usize)
        .filter(|i: usize| map.tiles@[i as int] is Floor)
}

/// Spawns in a room: `spawn_region` over the floor cells strictly inside it.
pub fn spawn_room(
    map: &TileMap,
    pm: &PrefabMaster,
    rng: &mut RandomNumberGenerator,
    room: &Rect,
    map_depth: i32,
    spawn_list: &mut Vec<(usize, String)>,
)
    requires
        map.wf(),
        0 <= room.x1,
        0 <= room.y1,
        room.x2 <= map.width,
        room.y2 <= map.height,
        room.x1 < i32::MAX,
        room.y1 < i32::MAX,
        -0x1000_0000 <= map_depth <= 0x1000_0000,
        forall|k: int| 0 <= k < pm.prefabs.spawn_table@.len() ==> -0x1000_0000 <= (#[trigger] pm.prefabs.spawn_table@[k]).weight <= 0x1000_0000,
        weights_sum(table_for(pm.prefabs.spawn_table@, map_depth as int)) < i32::MAX,
    ensures
        final(spawn_list)@.len() >= old(spawn_list)@.len(),
        final(spawn_list)@.subrange(0, old(spawn_list)@.len() as int) == old(spawn_list)@,
        exists|rt: RandomTable, d: int| {
            &&& crate::prefabs::table_view(&rt) == table_for(pm.prefabs.spawn_table@, map_depth as int)
            &&& rt.total_weight == weights_sum(table_for(pm.prefabs.spawn_table@, map_depth as int))
            &&& 1 <= d <= MAX_MONSTERS + 3
            &&& #[trigger] region_spawns(room_floor(map, *room), &rt,
                final(spawn_list)@.subrange(old(spawn_list)@.len() as int, final(spawn_list)@.len() as int),
                spawn_count(room_floor(map, *room).len() as int, d, map_depth as int))
        },
{
    let mut possible_targets: Vec<usize> = Vec::new();
    let ghost rw = room.x2 - room.x1 - 1;
    let ghost rh = room.y2 - room.y1 - 1;
    let ghost cells = Seq::new((if rw > 0 && rh > 0 { rw * rh } else { 0 }) as nat,
        |k: int| map.idx(room.x1 + 1 + k % rw, room.y1 + 1 + k / rw) as usize);
    let ghost pred = |i: usize| map.tiles@[i as int] is Floor;
    let mut y = room.y1 + 1;
    let ghost mut done: int = 0;
    proof {
        assert(0 * rw == 0) by (nonlinear_arith);
        assert(cells.take(0) =~= Seq::<usize>::empty());
        assert(cells.take(0).filter(pred) =~= Seq::<usize>::empty());
    }
    while y < room.y2
        invariant
            map.wf(),
            0 <= room.x1,
            0 <= room.y1,
            room.x2 <= map.width,
            room.y2 <= map.height,
            rw == room.x2 - room.x1 - 1,
            rh == room.y2 - room.y1 - 1,
            cells == Seq::new((if rw > 0 && rh > 0 { rw * rh } else { 0 }) as nat,
                |k: int| map.idx(room.x1 + 1 + k % rw, room.y1 + 1 + k / rw) as usize),
            pred == (|i: usize| map.tiles@[i as int] is Floor),
            room.x1 < i32::MAX,
            room.y1 < i32::MAX,
            room.y1 + 1 <= y,
            y <= room.y2 || rh <= 0,
            rw > 0 ==> done == (y - room.y1 - 1) * rw,
            rw <= 0 ==> done == 0,
            0 <= done <= cells.len(),
            possible_targets@ == cells.take(done).filter(pred),
            possible_targets@.len() <= done,
        decreases room.y2 - y,
    {
        let mut x = room.x1 + 1;
        proof {
            if rw > 0 {
                assert((y - room.y1 - 1) * rw + rw <= rw * rh) by (nonlinear_arith)
                    requires y - room.y1 - 1 < rh, 0 < rw;
            }
        }
        while x < room.x2
            invariant
                map.wf(),
                0 <= room.x1,
                0 <= room.y1,
                room.x2 <= map.width,
                room.y2 <= map.height,
                rw == room.x2 - room.x1 - 1,
                rh == room.y2 - room.y1 - 1,
                cells == Seq::new((if rw > 0 && rh > 0 { rw * rh } else { 0 }) as nat,
                    |k: int| map.idx(room.x1 + 1 + k % rw, room.y1 + 1 + k / rw) as usize),
                pred == (|i: usize| map.tiles@[i as int] is Floor),
                room.x1 < i32::MAX,
                room.y1 < i32::MAX,
                room.y1 + 1 <= y < room.y2,
                room.x1 + 1 <= x,
                x <= room.x2 || rw <= 0,
                rw > 0 ==> (y - room.y1 - 1) * rw + rw <= rw * rh,
                rw > 0 ==> done == (y - room.y1 - 1) * rw + (x - room.x1 - 1),
                rw <= 0 ==> done == 0,
                0 <= done <= cells.len(),
                possible_targets@ == cells.take(done).filter(pred),
                possible_targets@.len() <= done,
            decreases room.x2 - x,
        {
            proof {
                lemma_cell_index(map.width as int, map.height as int, x as int, y as int);
                vstd::arithmetic::div_mod::lemma_fundamental_div_mod_converse(done, rw, y - room.y1 - 1, x - room.x1 - 1);
                assert(cells.take(done + 1) =~= cells.take(done).push(cells[done]));
                cells.take(done).lemma_filter_push(cells[done], pred);
            }
            let idx = map.xy_idx(x, y);
            assert(cells[done] == idx);
            if map.tiles[idx] == TileType::Floor {
                possible_targets.push(idx);
            }
            proof { done = done + 1; }
            x = x + 1;
        }
        proof {
            if rw > 0 {
                assert(x == room.x2);
                assert((y + 1 - room.y1 - 1) * rw == (y - room.y1 - 1) * rw + rw) by (nonlinear_arith);
            }
        }
        y = y + 1;
    }
    proof {
        if rw > 0 && rh > 0 {
            assert(done == rw * rh) by (nonlinear_arith)
                requires done == (y - room.y1 - 1) * rw, y == room.y2, rh == room.y2 - room.y1 - 1;
        }
        assert(cells.take(done) =~= cells);
        assert(possible_targets@ == room_floor(map, *room));
        assert(possible_targets@.len() < i32::MAX) by {
            if rw > 0 && rh > 0 {
                assert(rw * rh < map.width * map.height) by (nonlinear_arith)
                    requires rw <= map.width - 1, rh <= map.height - 1, 0 < rw, 0 < rh;
            }
        }
    }
    spawn_region(map, pm, rng, &possible_targets, map_depth, spawn_list);
}

} // verus!
