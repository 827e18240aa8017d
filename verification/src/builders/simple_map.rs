use vstd::prelude::*;
use rltk::RandomNumberGenerator;
use crate::builders::{BuilderMap, InitialMapBuilder};
use crate::builders::common::{
    apply_horizontal_tunnel, apply_vertical_tunnel, apply_room_to_map, in_horizontal_tunnel,
    in_vertical_tunnel, in_room,
};
use crate::map::{TileMap, only_tiles_changed, tiles_set_where};
use crate::rect::Rect;
use crate::rng::{roll_dice, rng_range};
use crate::tile::TileType;

verus! {

/// How many rooms the builder tries to place.
pub const MAX_ROOMS: i32 = 30;
/// The smallest side of a room.
pub const MIN_SIZE: i32 = 6;
/// One more than the largest side of a room.
pub const MAX_SIZE: i32 = 10;

/// Index `i` lies on the L-shaped corridor from the centre of `a` to the
/// centre of `b`: along `a`'s row then `b`'s column when `horizontal_first`,
/// else along `a`'s column then `b`'s row.
pub open spec fn joined(map: &TileMap, a: Rect, b: Rect, horizontal_first: bool, i: int) -> bool {
    let (px, py) = a.spec_center();
    let (nx, ny) = b.spec_center();
    if horizontal_first {
        in_horizontal_tunnel(map, px, nx, py, i) || in_vertical_tunnel(map, py, ny, nx, i)
    } else {
        in_vertical_tunnel(map, py, ny, px, i) || in_horizontal_tunnel(map, px, nx, ny, i)
    }
}

/// Index `i` is carved for room `k`: it is inside the room, or on the
/// corridor joining the room before it to it.
pub open spec fn carved_by(map: &TileMap, rooms: Seq<Rect>, shapes: Seq<bool>, k: int, i: int) -> bool {
    in_room(map, rooms[k], i) || (k > 0 && joined(map, rooms[k - 1], rooms[k], shapes[k], i))
}

/// Index `i` is inside one of the rooms or on one of the corridors that join
/// each room to the one placed before it, the corridor of room `k` having
/// the orientation `shapes[k]`.
pub open spec fn carved(map: &TileMap, rooms: Seq<Rect>, shapes: Seq<bool>, i: int) -> bool {
    exists|k: int| 0 <= k < rooms.len() && #[trigger] carved_by(map, rooms, shapes, k, i)
}

/// A room this builder may place: its corner is on the map, its sides are
/// between `MIN_SIZE` and `MAX_SIZE - 1`, and it ends two cells short of the
/// right and bottom edges.
pub open spec fn simple_room_ok(map: &TileMap, r: Rect) -> bool {
    &&& 0 <= r.x1
    &&& 0 <= r.y1
    &&& MIN_SIZE <= r.x2 - r.x1 < MAX_SIZE
    &&& MIN_SIZE <= r.y2 - r.y1 < MAX_SIZE
    &&& r.x2 <= map.width - 2
    &&& r.y2 <= map.height - 2
}

/// No two of the rooms overlap or touch.
pub open spec fn rooms_apart(rooms: Seq<Rect>) -> bool {
    forall|a: int, b: int| #![trigger rooms[a], rooms[b]] 0 <= a < b < rooms.len() ==> !rooms[a].spec_intersects(&rooms[b])
}

proof fn lemma_carved_push(map: &TileMap, rooms: Seq<Rect>, shapes: Seq<bool>, r: Rect, s: bool, i: int)
    requires
        rooms.len() == shapes.len(),
    ensures
        carved(map, rooms.push(r), shapes.push(s), i) == (carved(map, rooms, shapes, i)
            || carved_by(map, rooms.push(r), shapes.push(s), rooms.len() as int, i)),
{
    let rs = rooms.push(r);
    let ss = shapes.push(s);
    if carved(map, rooms, shapes, i) {
        let k = choose|k: int| 0 <= k < rooms.len() && #[trigger] carved_by(map, rooms, shapes, k, i);
        assert(rs[k] == rooms[k]);
        assert(k > 0 ==> rs[k - 1] == rooms[k - 1]);
        assert(ss[k] == shapes[k]);
        assert(carved_by(map, rs, ss, k, i));
    }
    if carved(map, rs, ss, i) {
        let k = choose|k: int| 0 <= k < rs.len() && #[trigger] carved_by(map, rs, ss, k, i);
        if k < rooms.len() {
            assert(rs[k] == rooms[k]);
            assert(k > 0 ==> rs[k - 1] == rooms[k - 1]);
            assert(ss[k] == shapes[k]);
            assert(carved_by(map, rooms, shapes, k, i));
        }
    }
}

/// `b` is `a` after [`SimpleMapBuilder::rooms_and_corridors`].
pub open spec fn rooms_laid(a: BuilderMap, b: BuilderMap) -> bool {
    &&& b.wf()
    &&& only_tiles_changed(&a.map, &b.map)
    &&& b.starting_position == a.starting_position
    &&& b.spawn_list == a.spawn_list
    &&& b.rooms is Some
    &&& ({
            let rooms = b.rooms->0@;
            &&& rooms.len() <= MAX_ROOMS
            &&& forall|k: int| 0 <= k < rooms.len() ==> simple_room_ok(&a.map, #[trigger] rooms[k])
            &&& rooms_apart(rooms)
            &&& exists|shapes: Seq<bool>| shapes.len() == rooms.len() && tiles_set_where(
                a.map.tiles@, b.map.tiles@,
                |i: int| carved(&a.map, rooms, shapes, i), TileType::Floor)
        })
}

/// Lays down rooms at random, keeping those that meet no other, and joins
/// each to the one before it with an L-shaped corridor.
pub struct SimpleMapBuilder {}

impl InitialMapBuilder for SimpleMapBuilder {
    /// On a map narrower or shorter than 11 cells the rooms would not fit,
    /// and the map is left as it is.
    fn build_map(&mut self, rng: &mut RandomNumberGenerator, build_data: &mut BuilderMap)
        ensures
            old(build_data).map.width >= 11 && old(build_data).map.height >= 11
                ==> rooms_laid(*old(build_data), *final(build_data)),
            !(old(build_data).map.width >= 11 && old(build_data).map.height >= 11)
                ==> *final(build_data) == *old(build_data),
    {
        if build_data.map.width >= 11 && build_data.map.height >= 11 {
            self.rooms_and_corridors(rng, build_data);
        }
    }
}

impl SimpleMapBuilder {
    pub fn new() -> (r: Box<SimpleMapBuilder>) {
        Box::new(SimpleMapBuilder {})
    }

    /// Tries `MAX_ROOMS` random rooms and keeps those that meet none kept
    /// before; carves each kept room and, from the second one on, an
    /// L-shaped corridor from the centre of the room kept before it to its
    /// own centre, in an orientation chosen at random. The rooms kept are
    /// recorded in order.
    pub fn rooms_and_corridors(&mut self, rng: &mut RandomNumberGenerator, build_data: &mut BuilderMap)
        requires
            old(build_data).wf(),
            old(build_data).map.width >= 11,
            old(build_data).map.height >= 11,
        ensures
            final(build_data).wf(),
            only_tiles_changed(&old(build_data).map, &final(build_data).map),
            final(build_data).starting_position == old(build_data).starting_position,
            final(build_data).spawn_list == old(build_data).spawn_list,
            final(build_data).rooms is Some,
            ({
                let rooms = final(build_data).rooms->0@;
                &&& rooms.len() <= MAX_ROOMS
                &&& forall|k: int| 0 <= k < rooms.len() ==> simple_room_ok(&old(build_data).map, #[trigger] rooms[k])
                &&& rooms_apart(rooms)
                &&& exists|shapes: Seq<bool>| shapes.len() == rooms.len() && tiles_set_where(
                    old(build_data).map.tiles@, final(build_data).map.tiles@,
                    |i: int| carved(&old(build_data).map, rooms, shapes, i), TileType::Floor)
            }),
    {
        let ghost m0 = build_data.map;
        let mut rooms: Vec<Rect> = Vec::new();
        let ghost mut shapes: Seq<bool> = Seq::empty();
        let w_map = build_data.map.width;
        let h_map = build_data.map.height;
        for _i in 0..MAX_ROOMS
            invariant
                build_data.wf(),
                m0.wf(),
                w_map == m0.width,
                h_map == m0.height,
                w_map >= 11,
                h_map >= 11,
                only_tiles_changed(&m0, &build_data.map),
                build_data.starting_position == old(build_data).starting_position,
                build_data.spawn_list == old(build_data).spawn_list,
                m0 == old(build_data).map,
                rooms@.len() <= _i,
                shapes.len() == rooms@.len(),
                forall|k: int| 0 <= k < rooms@.len() ==> simple_room_ok(&m0, #[trigger] rooms@[k]),
                rooms_apart(rooms@),
                tiles_set_where(m0.tiles@, build_data.map.tiles@, |i: int| carved(&m0, rooms@, shapes, i), TileType::Floor),
        {
            let w = rng_range(rng, MIN_SIZE, MAX_SIZE);
            let h = rng_range(rng, MIN_SIZE, MAX_SIZE);
            let x = roll_dice(rng, 1, w_map - w - 1) - 1;
            let y = roll_dice(rng, 1, h_map - h - 1) - 1;
            let new_room = Rect::new(x, y, w, h);
            let mut ok = true;
            for j in 0..rooms.len()
                invariant
                    ok == forall|q: int| 0 <= q < j ==> !new_room.spec_intersects(&#[trigger] rooms@[q]),
            {
                if new_room.intersects(&rooms[j]) {
                    ok = false;
                }
            }
            if ok {
                let ghost before = build_data.map.tiles@;
                apply_room_to_map(&mut build_data.map, &new_room);
                build_data.take_snapshot();
                let ghost after_room = build_data.map.tiles@;
                let mut coin = false;
                let ghost after_h = after_room;
                if rooms.len() > 0 {
                    let (new_x, new_y) = new_room.center();
                    let (prev_x, prev_y) = rooms[rooms.len() - 1].center();
                    coin = rng_range(rng, 0, 2) == 1;
                    proof {
                        let w = build_data.map.width as int;
                        vstd::arithmetic::mul::lemma_mul_upper_bound(prev_y as int, 0x4000, w, 0x4000);
                        vstd::arithmetic::mul::lemma_mul_upper_bound(new_y as int, 0x4000, w, 0x4000);
                    }
                    if coin {
                        apply_horizontal_tunnel(&mut build_data.map, prev_x, new_x, prev_y);
                        proof { after_h = build_data.map.tiles@; }
                        apply_vertical_tunnel(&mut build_data.map, prev_y, new_y, new_x);
                    } else {
                        apply_vertical_tunnel(&mut build_data.map, prev_y, new_y, prev_x);
                        proof { after_h = build_data.map.tiles@; }
                        apply_horizontal_tunnel(&mut build_data.map, prev_x, new_x, new_y);
                    }
                }
                let ghost old_rooms = rooms@;
                let ghost old_shapes = shapes;
                rooms.push(new_room);
                proof {
                    shapes = shapes.push(coin);
                    assert forall|i: int| 0 <= i < build_data.map.tiles@.len() implies #[trigger] build_data.map.tiles@[i]
                        == (if carved(&m0, rooms@, shapes, i) { TileType::Floor } else { m0.tiles@[i] }) by {
                        lemma_carved_push(&m0, old_rooms, old_shapes, new_room, coin, i);
                        assert(rooms@[old_rooms.len() as int] == new_room);
                        if old_rooms.len() > 0 {
                            assert(rooms@[old_rooms.len() - 1] == old_rooms[old_rooms.len() - 1]);
                        }
                        assert(before[i] == (if carved(&m0, old_rooms, old_shapes, i) { TileType::Floor } else { m0.tiles@[i] }));
                        assert(after_room[i] == (if in_room(&m0, new_room, i) { TileType::Floor } else { before[i] }));
                    }
                    assert forall|a: int, b: int| #![trigger rooms@[a], rooms@[b]] 0 <= a < b < rooms@.len() implies !rooms@[a].spec_intersects(&rooms@[b]) by {
                        if b == old_rooms.len() {
                            assert(rooms@[a] == old_rooms[a]);
                            assert(!new_room.spec_intersects(&old_rooms[a]));
                        } else {
                            assert(rooms@[a] == old_rooms[a]);
                            assert(rooms@[b] == old_rooms[b]);
                        }
                    }
                }
                build_data.take_snapshot();
            }
        }
        proof {
            assert(shapes.len() == rooms@.len() && tiles_set_where(m0.tiles@, build_data.map.tiles@,
                |i: int| carved(&m0, rooms@, shapes, i), TileType::Floor));
        }
        build_data.rooms = Some(rooms);
    }
}

} // verus!
