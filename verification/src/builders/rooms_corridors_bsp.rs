use vstd::prelude::*;
use rltk::RandomNumberGenerator;
use crate::builders::{BuilderMap, MetaMapBuilder};
use crate::builders::common::{draw_corridor, in_corridor};
use crate::map::{TileMap, only_tiles_changed, tiles_set_where};
use crate::rect::Rect;
use crate::rng::roll_dice;
use crate::tile::TileType;

verus! {

/// The distance between `a` and `b`.
pub open spec fn spec_abs_diff(a: int, b: int) -> int {
    if a >= b { a - b } else { b - a }
}

/// A room from which corridors can be dug: each of its spans is at least
/// one cell, and the cells `x1 + 1 ..= x1 + |x1 - x2|` and
/// `y1 + 1 ..= y1 + |y1 - y2|` lie on the map.
pub open spec fn corridor_room_ok(map: &TileMap, r: Rect) -> bool {
    &&& r.x1 != r.x2
    &&& r.y1 != r.y2
    &&& -1 <= r.x1
    &&& -1 <= r.y1
    &&& r.x1 + spec_abs_diff(r.x1 as int, r.x2 as int) < map.width
    &&& r.y1 + spec_abs_diff(r.y1 as int, r.y2 as int) < map.height
}

/// `(px, py)` is a cell a corridor may start or end at in room `r`.
pub open spec fn corridor_point_ok(r: Rect, px: int, py: int) -> bool {
    &&& r.x1 < px <= r.x1 + spec_abs_diff(r.x1 as int, r.x2 as int)
    &&& r.y1 < py <= r.y1 + spec_abs_diff(r.y1 as int, r.y2 as int)
}

/// Index `i` lies on corridor `k`, dug from `(ends[k].0, ends[k].1)` to
/// `(ends[k].2, ends[k].3)`.
pub open spec fn on_corridor_k(map: &TileMap, ends: Seq<(int, int, int, int)>, k: int, i: int) -> bool {
    in_corridor(map, ends[k].0, ends[k].1, ends[k].2, ends[k].3, i)
}

/// Joins each room to the next one in the list with a corridor between
/// cells chosen at random in the two rooms.
pub struct BspCorridors {}

fn corridor_rooms_ok(map: &TileMap, rooms: &Vec<Rect>) -> (r: bool)
    requires
        map.wf(),
    ensures
        r == forall|k: int| 0 <= k < rooms@.len() ==> corridor_room_ok(map, #[trigger] rooms@[k]),
{
    for k in 0..rooms.len()
        invariant
            map.wf(),
            forall|q: int| 0 <= q < k ==> corridor_room_ok(map, #[trigger] rooms@[q]),
    {
        let r = rooms[k];
        let dx: i64 = if r.x1 as i64 >= r.x2 as i64 { r.x1 as i64 - r.x2 as i64 } else { r.x2 as i64 - r.x1 as i64 };
        let dy: i64 = if r.y1 as i64 >= r.y2 as i64 { r.y1 as i64 - r.y2 as i64 } else { r.y2 as i64 - r.y1 as i64 };
        if !(r.x1 != r.x2 && r.y1 != r.y2 && -1 <= r.x1 && -1 <= r.y1 && r.x1 as i64 + dx < map.width as i64
            && r.y1 as i64 + dy < map.height as i64) {
            return false;
        }
    }
    true
}

/// `b` is `a` with a corridor dug between each room and the next, as
/// [`BspCorridors::corridors`] does.
pub open spec fn corridors_dug(a: BuilderMap, b: BuilderMap) -> bool {
    &&& b.wf()
    &&& only_tiles_changed(&a.map, &b.map)
    &&& b.rooms == a.rooms
    &&& b.starting_position == a.starting_position
    &&& b.spawn_list == a.spawn_list
    &&& ({
            let rooms = a.rooms->0@;
            exists|ends: Seq<(int, int, int, int)>| {
                &&& ends.len() == rooms.len() - 1
                &&& forall|k: int| 0 <= k < ends.len() ==> {
                    &&& corridor_point_ok(rooms[k], (#[trigger] ends[k]).0, ends[k].1)
                    &&& corridor_point_ok(rooms[k + 1], ends[k].2, ends[k].3)
                }
                &&& tiles_set_where(a.map.tiles@, b.map.tiles@,
                    |i: int| exists|k: int| 0 <= k < ends.len() && #[trigger] on_corridor_k(&a.map, ends, k, i),
                    TileType::Floor)
            }
        })
}

/// Rooms a corridor can be dug from: at least one, each fit for it.
pub open spec fn corridor_rooms(a: BuilderMap) -> bool {
    &&& a.rooms is Some
    &&& a.rooms->0@.len() >= 1
    &&& forall|k: int| 0 <= k < a.rooms->0@.len() ==> corridor_room_ok(&a.map, #[trigger] a.rooms->0@[k])
}

impl MetaMapBuilder for BspCorridors {
    /// Without rooms, or with rooms from which no corridor can be dug, the
    /// map is left as it is.
    fn build_map(&mut self, rng: &mut RandomNumberGenerator, build_data: &mut BuilderMap)
        ensures
            corridor_rooms(*old(build_data)) ==> corridors_dug(*old(build_data), *final(build_data)),
            !corridor_rooms(*old(build_data)) ==> *final(build_data) == *old(build_data),
    {
        let ok = match &build_data.rooms {
            Some(rooms) => rooms.len() >= 1 && corridor_rooms_ok(&build_data.map, rooms),
            None => false,
        };
        if ok {
            self.corridors(rng, build_data);
        }
    }
}

fn abs_diff(a: i32, b: i32) -> (r: i32)
    requires
        -0x2000_0000 <= a <= 0x2000_0000,
        -0x2000_0000 <= b <= 0x2000_0000,
    ensures
        r == spec_abs_diff(a as int, b as int),
{
    if a >= b { a - b } else { b - a }
}

impl BspCorridors {
    pub fn new() -> (r: Box<BspCorridors>) {
        Box::new(BspCorridors {})
    }

    /// For each room but the last, digs a corridor from a random cell of
    /// the room to a random cell of the next room; nothing else changes.
    pub fn corridors(&mut self, rng: &mut RandomNumberGenerator, build_data: &mut BuilderMap)
        requires
            old(build_data).wf(),
            old(build_data).rooms is Some,
            old(build_data).rooms->0@.len() >= 1,
            forall|k: int| 0 <= k < old(build_data).rooms->0@.len() ==> corridor_room_ok(&old(build_data).map, #[trigger] old(build_data).rooms->0@[k]),
        ensures
            final(build_data).wf(),
            only_tiles_changed(&old(build_data).map, &final(build_data).map),
            final(build_data).rooms == old(build_data).rooms,
            final(build_data).starting_position == old(build_data).starting_position,
            final(build_data).spawn_list == old(build_data).spawn_list,
            ({
                let rooms = old(build_data).rooms->0@;
                exists|ends: Seq<(int, int, int, int)>| {
                    &&& ends.len() == rooms.len() - 1
                    &&& forall|k: int| 0 <= k < ends.len() ==> {
                        &&& corridor_point_ok(rooms[k], (#[trigger] ends[k]).0, ends[k].1)
                        &&& corridor_point_ok(rooms[k + 1], ends[k].2, ends[k].3)
                    }
                    &&& tiles_set_where(old(build_data).map.tiles@, final(build_data).map.tiles@,
                        |i: int| exists|k: int| 0 <= k < ends.len() && #[trigger] on_corridor_k(&old(build_data).map, ends, k, i),
                        TileType::Floor)
                }
            }),
    {
        let rooms = match &build_data.rooms {
            Some(rs) => clone_room_list(rs),
            None => Vec::new(),
        };
        let ghost m0 = build_data.map;
        let ghost rs = rooms@;
        let ghost mut ends: Seq<(int, int, int, int)> = Seq::empty();
        let n = rooms.len() - 1;
        for i in 0..n
            invariant
                build_data.wf(),
                m0.wf(),
                m0 == old(build_data).map,
                rs == rooms@,
                rs == old(build_data).rooms->0@,
                n == rs.len() - 1,
                forall|k: int| 0 <= k < rs.len() ==> corridor_room_ok(&m0, #[trigger] rs[k]),
                only_tiles_changed(&m0, &build_data.map),
                build_data.rooms == old(build_data).rooms,
                build_data.starting_position == old(build_data).starting_position,
                build_data.spawn_list == old(build_data).spawn_list,
                ends.len() == i,
                forall|k: int| 0 <= k < ends.len() ==> {
                    &&& corridor_point_ok(rs[k], (#[trigger] ends[k]).0, ends[k].1)
                    &&& corridor_point_ok(rs[k + 1], ends[k].2, ends[k].3)
                },
                tiles_set_where(m0.tiles@, build_data.map.tiles@,
                    |c: int| exists|k: int| 0 <= k < ends.len() && #[trigger] on_corridor_k(&m0, ends, k, c),
                    TileType::Floor),
        {
            let room = rooms[i];
            let next_room = rooms[i + 1];
            assert(corridor_room_ok(&m0, rs[i as int]));
            assert(corridor_room_ok(&m0, rs[i + 1]));
            let start_x = room.x1 + roll_dice(rng, 1, abs_diff(room.x1, room.x2));
            let start_y = room.y1 + roll_dice(rng, 1, abs_diff(room.y1, room.y2));
            let end_x = next_room.x1 + roll_dice(rng, 1, abs_diff(next_room.x1, next_room.x2));
            let end_y = next_room.y1 + roll_dice(rng, 1, abs_diff(next_room.y1, next_room.y2));
            let ghost before = build_data.map.tiles@;
            let ghost old_ends = ends;
            draw_corridor(&mut build_data.map, start_x, start_y, end_x, end_y);
            proof {
                ends = ends.push((start_x as int, start_y as int, end_x as int, end_y as int));
                let tiles = build_data.map.tiles@;
                assert forall|c: int| 0 <= c < tiles.len() implies #[trigger] tiles[c] == (if exists|k: int| 0 <= k < ends.len() && #[trigger] on_corridor_k(&m0, ends, k, c) { TileType::Floor } else { m0.tiles@[c] }) by {
                    assert(ends[i as int] == (start_x as int, start_y as int, end_x as int, end_y as int));
                    if in_corridor(&m0, start_x as int, start_y as int, end_x as int, end_y as int, c) {
                        assert(on_corridor_k(&m0, ends, i as int, c));
                    }
                    if exists|k: int| 0 <= k < old_ends.len() && #[trigger] on_corridor_k(&m0, old_ends, k, c) {
                        let k = choose|k: int| 0 <= k < old_ends.len() && #[trigger] on_corridor_k(&m0, old_ends, k, c);
                        assert(ends[k] == old_ends[k]);
                        assert(on_corridor_k(&m0, ends, k, c));
                    }
                    if exists|k: int| 0 <= k < ends.len() && #[trigger] on_corridor_k(&m0, ends, k, c) {
                        let k = choose|k: int| 0 <= k < ends.len() && #[trigger] on_corridor_k(&m0, ends, k, c);
                        if k < old_ends.len() {
                            assert(ends[k] == old_ends[k]);
                            assert(on_corridor_k(&m0, old_ends, k, c));
                        }
                    }
                }
                assert forall|k: int| 0 <= k < ends.len() implies {
                    &&& corridor_point_ok(rs[k], (#[trigger] ends[k]).0, ends[k].1)
                    &&& corridor_point_ok(rs[k + 1], ends[k].2, ends[k].3)
                } by {
                    if k < old_ends.len() {
                        assert(ends[k] == old_ends[k]);
                    }
                }
            }
            build_data.take_snapshot();
        }
    }
}

fn clone_room_list(v: &Vec<Rect>) -> (r: Vec<Rect>)
    ensures
        r@ == v@,
{
    let mut r: Vec<Rect> = Vec::new();
    for k in 0..v.len()
        invariant
            r@ == v@.take(k as int),
    {
        r.push(v[k]);
        proof { assert(v@.take(k + 1) == v@.take(k as int).push(v@[k as int])); }
    }
    proof { assert(v@.take(v@.len() as int) == v@); }
    r
}

} // verus!
