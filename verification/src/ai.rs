use vstd::prelude::*;
use crate::map::{TileMap, lemma_cell_index, lemma_index_cell};
use crate::point::{Point, spec_distance_squared, distance_squared};

verus! {

/// The cells of `pts` lie on the map.
pub open spec fn all_on_map(map: &TileMap, pts: Seq<Point>) -> bool {
    forall|k: int| 0 <= k < pts.len() ==> map.in_bounds((#[trigger] pts[k]).x as int, pts[k].y as int)
}

/// The map cell of `p`, as an index.
pub open spec fn cell_of(map: &TileMap, p: Point) -> usize {
    map.idx(p.x as int, p.y as int) as usize
}

/// The cells a herbivore that sees `visible` runs from: the cell of each
/// visible tile once for every entity on it that is not an item, tile by
/// tile in order.
pub open spec fn flee_sources(map: &TileMap, visible: Seq<Point>, items: Seq<u64>) -> Seq<usize>
    decreases visible.len(),
{
    if visible.len() == 0 {
        seq![]
    } else {
        let p = visible.last();
        let idx = cell_of(map, p);
        flee_sources(map, visible.drop_last(), items)
            + map.tile_content@[idx as int]@.filter(|e: u64| !items.contains(e)).map_values(|e: u64| idx)
    }
}

/// The cells a herbivore that sees `visible` runs away from (see `flee_sources`).
pub fn herbivore_threats(map: &TileMap, visible: &Vec<Point>, items: &Vec<u64>) -> (r: Vec<usize>)
    requires
        map.wf(),
        all_on_map(map, visible@),
    ensures
        r@ == flee_sources(map, visible@, items@),
{
    let mut out: Vec<usize> = Vec::new();
    for k in 0..visible.len()
        invariant
            map.wf(),
            all_on_map(map, visible@),
            out@ == flee_sources(map, visible@.take(k as int), items@),
    {
        let p = visible[k];
        proof {
            assert(map.in_bounds(visible@[k as int].x as int, visible@[k as int].y as int));
            lemma_cell_index(map.width as int, map.height as int, p.x as int, p.y as int);
            assert(visible@.take(k + 1).drop_last() =~= visible@.take(k as int));
            assert(visible@.take(k + 1).last() == p);
        }
        let idx = map.xy_idx(p.x, p.y);
        let content = &map.tile_content[idx];
        let ghost pred = |e: u64| !items@.contains(e);
        let ghost tag = |e: u64| idx;
        let ghost base = out@;
        for j in 0..content.len()
            invariant
                out@ == base + content@.take(j as int).filter(pred).map_values(tag),
                pred == (|e: u64| !items@.contains(e)),
                tag == (|e: u64| idx),
        {
            let e = content[j];
            let mut is_item = false;
            for q in 0..items.len()
                invariant
                    is_item <==> exists|m: int| 0 <= m < q && items@[m] == e,
            {
                if items[q] == e {
                    is_item = true;
                }
            }
            proof {
                assert(content@.take(j + 1) =~= content@.take(j as int).push(e));
                content@.take(j as int).lemma_filter_push(e, pred);
                assert(is_item == items@.contains(e));
                let f = content@.take(j as int).filter(pred);
                assert(f.push(e).map_values(tag) =~= f.map_values(tag).push(idx));
            }
            if !is_item {
                out.push(idx);
                proof {
                    assert(out@ =~= base + content@.take(j + 1).filter(pred).map_values(tag));
                }
            }
        }
        proof {
            assert(content@.take(content@.len() as int) =~= content@);
        }
    }
    proof {
        assert(visible@.take(visible@.len() as int) =~= visible@);
    }
    out
}

/// `e` is prey for a carnivore: a herbivore or the player.
pub open spec fn is_prey(e: u64, herbivores: Seq<u64>, player: u64) -> bool {
    herbivores.contains(e) || e == player
}

/// What a carnivore at `pos` that sees `visible` wants: the prey it can
/// bite (on a tile a straight-line distance below 1.5 away), and the cell
/// of each other tile once for every prey on it, tile by tile in order.
pub open spec fn hunt(map: &TileMap, pos: Point, visible: Seq<Point>, herbivores: Seq<u64>, player: u64) -> (Seq<u64>, Seq<usize>)
    decreases visible.len(),
{
    if visible.len() == 0 {
        (seq![], seq![])
    } else {
        let p = visible.last();
        let idx = cell_of(map, p);
        let (bite, chase) = hunt(map, pos, visible.drop_last(), herbivores, player);
        let prey = map.tile_content@[idx as int]@.filter(|e: u64| is_prey(e, herbivores, player));
        if spec_distance_squared(pos, p) <= 2 {
            (bite + prey, chase)
        } else {
            (bite, chase + prey.map_values(|e: u64| idx))
        }
    }
}

/// What a carnivore wants (see `hunt`): the prey to bite, and the cells to
/// run towards, which it does only when there is nothing to bite.
pub fn carnivore_targets(map: &TileMap, pos: Point, visible: &Vec<Point>, herbivores: &Vec<u64>, player: u64)
    -> (r: (Vec<u64>, Vec<usize>))
    requires
        map.wf(),
        map.in_bounds(pos.x as int, pos.y as int),
        all_on_map(map, visible@),
    ensures
        (r.0@, r.1@) == hunt(map, pos, visible@, herbivores@, player),
{
    let mut bite: Vec<u64> = Vec::new();
    let mut chase: Vec<usize> = Vec::new();
    for k in 0..visible.len()
        invariant
            map.wf(),
            map.in_bounds(pos.x as int, pos.y as int),
            all_on_map(map, visible@),
            (bite@, chase@) == hunt(map, pos, visible@.take(k as int), herbivores@, player),
    {
        let p = visible[k];
        proof {
            assert(map.in_bounds(visible@[k as int].x as int, visible@[k as int].y as int));
            lemma_cell_index(map.width as int, map.height as int, p.x as int, p.y as int);
            assert(visible@.take(k + 1).drop_last() =~= visible@.take(k as int));
            assert(visible@.take(k + 1).last() == p);
        }
        let idx = map.xy_idx(p.x, p.y);
        let close = distance_squared(pos, p) <= 2;
        let content = &map.tile_content[idx];
        let ghost pred = |e: u64| is_prey(e, herbivores@, player);
        let ghost tag = |e: u64| idx;
        let ghost b0 = bite@;
        let ghost c0 = chase@;
        for j in 0..content.len()
            invariant
                pred == (|e: u64| is_prey(e, herbivores@, player)),
                tag == (|e: u64| idx),
                close ==> bite@ == b0 + content@.take(j as int).filter(pred) && chase@ == c0,
                !close ==> bite@ == b0 && chase@ == c0 + content@.take(j as int).filter(pred).map_values(tag),
        {
            let e = content[j];
            let mut prey = e == player;
            for q in 0..herbivores.len()
                invariant
                    prey <==> (e == player || exists|m: int| 0 <= m < q && herbivores@[m] == e),
            {
                if herbivores[q] == e {
                    prey = true;
                }
            }
            proof {
                assert(content@.take(j + 1) =~= content@.take(j as int).push(e));
                content@.take(j as int).lemma_filter_push(e, pred);
                assert(prey == is_prey(e, herbivores@, player));
                let f = content@.take(j as int).filter(pred);
                assert(f.push(e).map_values(tag) =~= f.map_values(tag).push(idx));
            }
            if prey {
                if close {
                    bite.push(e);
                } else {
                    chase.push(idx);
                }
                proof {
                    assert(close ==> bite@ =~= b0 + content@.take(j + 1).filter(pred));
                    assert(!close ==> chase@ =~= c0 + content@.take(j + 1).filter(pred).map_values(tag));
                }
            }
        }
        proof {
            assert(content@.take(content@.len() as int) =~= content@);
        }
    }
    proof {
        assert(visible@.take(visible@.len() as int) =~= visible@);
    }
    (bite, chase)
}

/// Moves a creature at `pos` to cell `target`, when there is one and it is
/// not blocked: the blocking moves with it. Gives back where it ends up.
pub fn step_to(map: &mut TileMap, pos: Point, target: Option<usize>) -> (r: Point)
    requires
        old(map).wf(),
        old(map).in_bounds(pos.x as int, pos.y as int),
        target matches Some(t) ==> t < old(map).tiles@.len(),
    ensures
        final(map).wf(),
        final(map).tiles == old(map).tiles,
        final(map).width == old(map).width,
        final(map).height == old(map).height,
        final(map).tile_content == old(map).tile_content,
        final(map).revealed_tiles == old(map).revealed_tiles,
        final(map).visible_tiles == old(map).visible_tiles,
        match target {
            Some(t) if !old(map).blocked@[t as int] => {
                &&& r.x == t as int % old(map).width as int
                &&& r.y == t as int / old(map).width as int
                &&& final(map).blocked@ == old(map).blocked@.update(old(map).idx(pos.x as int, pos.y as int), false)
                    .update(t as int, true)
            },
            _ => r == pos && final(map).blocked == old(map).blocked,
        },
{
    match target {
        Some(t) => {
            if !map.blocked[t] {
                proof {
                    lemma_index_cell(map.width as int, map.height as int, t as int);
                    lemma_cell_index(map.width as int, map.height as int, pos.x as int, pos.y as int);
                }
                let from = map.xy_idx(pos.x, pos.y);
                map.blocked.set(from, false);
                map.blocked.set(t, true);
                let x = t as i32 % map.width;
                let y = t as i32 / map.width;
                return Point { x, y };
            }
            pos
        },
        None => pos,
    }
}

/// An entity that springs when something steps on its cell: how much harm
/// it does, if any, and whether it goes after springing once.
#[derive(Clone, Copy, Debug, PartialEq, Eq, Structural)]
pub struct Trap {
    pub entity: u64,
    pub damage: Option<i32>,
    pub single_activation: bool,
}

/// The first trap of `traps` that is entity `e`, if any.
pub open spec fn trap_of(traps: Seq<Trap>, e: u64) -> Option<Trap>
    decreases traps.len(),
{
    if traps.len() == 0 {
        None
    } else if traps[0].entity == e {
        Some(traps[0])
    } else {
        trap_of(traps.drop_first(), e)
    }
}

/// The traps that `mover` springs by stepping onto a cell holding
/// `content`: each entity of the cell other than the mover that is a trap,
/// in the cell's order.
pub open spec fn sprung(mover: u64, content: Seq<u64>, traps: Seq<Trap>) -> Seq<Trap>
    decreases content.len(),
{
    if content.len() == 0 {
        seq![]
    } else {
        let e = content.last();
        let rest = sprung(mover, content.drop_last(), traps);
        if e != mover && trap_of(traps, e) is Some { rest.push(trap_of(traps, e)->0) } else { rest }
    }
}

/// The first trap of `traps` that is entity `e`.
fn find_trap(traps: &Vec<Trap>, e: u64) -> (r: Option<Trap>)
    ensures
        r == trap_of(traps@, e),
{
    let mut k: usize = 0;
    proof {
        assert(traps@.subrange(0, traps@.len() as int) =~= traps@);
    }
    while k < traps.len()
        invariant
            0 <= k <= traps@.len(),
            trap_of(traps@, e) == trap_of(traps@.subrange(k as int, traps@.len() as int), e),
        decreases traps@.len() - k,
    {
        let ghost rest = traps@.subrange(k as int, traps@.len() as int);
        proof {
            assert(rest.drop_first() =~= traps@.subrange(k + 1, traps@.len() as int));
        }
        if traps[k].entity == e {
            return Some(traps[k]);
        }
        k = k + 1;
    }
    proof {
        assert(traps@.subrange(k as int, traps@.len() as int) =~= Seq::<Trap>::empty());
    }
    None
}

/// The traps that an entity springs by stepping onto a cell (see `sprung`):
/// each is revealed, harms the mover when it does harm, and goes when it
/// springs only once.
pub fn entry_triggers(mover: u64, content: &Vec<u64>, traps: &Vec<Trap>) -> (r: Vec<Trap>)
    ensures
        r@ == sprung(mover, content@, traps@),
{
    let mut out: Vec<Trap> = Vec::new();
    for k in 0..content.len()
        invariant
            out@ == sprung(mover, content@.take(k as int), traps@),
    {
        let e = content[k];
        proof {
            assert(content@.take(k + 1).drop_last() =~= content@.take(k as int));
            assert(content@.take(k + 1).last() == e);
        }
        if e != mover {
            match find_trap(traps, e) {
                Some(t) => out.push(t),
                None => {},
            }
        }
    }
    proof {
        assert(content@.take(content@.len() as int) =~= content@);
    }
    out
}

/// The item that the player picks up where they stand: the last of the
/// items at the player's position, if any.
pub fn item_at(items: &Vec<(u64, Point)>, player: Point) -> (r: Option<u64>)
    ensures
        r is None <==> forall|k: int| 0 <= k < items@.len() ==> (#[trigger] items@[k]).1 != player,
        r matches Some(e) ==> exists|k: int| {
            &&& 0 <= k < items@.len()
            &&& (#[trigger] items@[k]).0 == e
            &&& items@[k].1 == player
            &&& forall|j: int| k < j < items@.len() ==> (#[trigger] items@[j]).1 != player
        },
{
    let mut target: Option<u64> = None;
    let ghost mut at: int = -1;
    for k in 0..items.len()
        invariant
            -1 <= at < k,
            target is None <==> at == -1,
            at == -1 ==> forall|j: int| 0 <= j < k ==> (#[trigger] items@[j]).1 != player,
            at != -1 ==> {
                &&& target == Some(items@[at].0)
                &&& items@[at].1 == player
                &&& forall|j: int| at < j < k ==> (#[trigger] items@[j]).1 != player
            },
    {
        if items[k].1.x == player.x && items[k].1.y == player.y {
            target = Some(items[k].0);
            proof { at = k as int; }
        }
    }
    proof {
        if at != -1 {
            assert(items@[at].0 == target->0);
        }
    }
    target
}

} // verus!
