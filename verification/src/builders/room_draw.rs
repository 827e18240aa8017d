use vstd::prelude::*;
use rltk::RandomNumberGenerator;
use crate::builders::{BuilderMap, MetaMapBuilder};
use crate::map::{TileMap, only_tiles_changed, tiles_set_where};
use crate::rect::Rect;
use crate::tile::TileType;

verus! {

/// Index `i` is the index `y * width + x` of a cell of row `y` with `x`
/// strictly right of the room's left edge and up to its right edge.
pub open spec fn in_room_row(room: Rect, width: int, y: int, i: int) -> bool {
    room.x1 < i - y * width <= room.x2
}

/// Index `i` is on the map and is the index of a cell `(x, y)` with
/// `x1 < x <= x2` and `y1 < y <= y2` (cells past the right edge of a row
/// have the indices of the next row's cells).
pub open spec fn room_cell(map: &TileMap, room: Rect, i: int) -> bool {
    &&& 0 <= i < map.width * map.height
    &&& exists|y: int| room.y1 < y <= room.y2 && #[trigger] in_room_row(room, map.width as int, y, i)
}

/// Index `i` is a cell of room `k`.
pub open spec fn drawn_by(map: &TileMap, rooms: Seq<Rect>, k: int, i: int) -> bool {
    room_cell(map, rooms[k], i)
}

/// Index `i` is a cell of one of the rooms.
pub open spec fn drawn(map: &TileMap, rooms: Seq<Rect>, i: int) -> bool {
    exists|k: int| 0 <= k < rooms.len() && #[trigger] drawn_by(map, rooms, k, i)
}

/// A room whose cells have indices that fit the machine: its left and top
/// edges are at least -1, so that no cell has a negative coordinate.
pub open spec fn room_indexable(room: Rect) -> bool {
    &&& -1 <= room.x1
    &&& -1 <= room.y1
}

/// `b` is `a` with the floor of each of its rooms carved, as
/// [`RoomDrawer::build`] does.
pub open spec fn rooms_drawn(a: BuilderMap, b: BuilderMap) -> bool {
    &&& b.wf()
    &&& only_tiles_changed(&a.map, &b.map)
    &&& b.rooms == a.rooms
    &&& b.starting_position == a.starting_position
    &&& b.spawn_list == a.spawn_list
    &&& tiles_set_where(a.map.tiles@, b.map.tiles@,
            |i: int| drawn(&a.map, a.rooms->0@, i), TileType::Floor)
}

/// Rooms that can be drawn: there are some, and each one's indices fit.
pub open spec fn drawable_rooms(a: BuilderMap) -> bool {
    &&& a.rooms is Some
    &&& forall|k: int| 0 <= k < a.rooms->0@.len() ==> room_indexable(#[trigger] a.rooms->0@[k])
}

/// Carves the floor of each room in turn.
pub struct RoomDrawer {}

impl MetaMapBuilder for RoomDrawer {
    /// Without rooms, or with a room whose indices do not fit, the map is
    /// left as it is.
    fn build_map(&mut self, rng: &mut RandomNumberGenerator, build_data: &mut BuilderMap)
        ensures
            drawable_rooms(*old(build_data)) ==> rooms_drawn(*old(build_data), *final(build_data)),
            !drawable_rooms(*old(build_data)) ==> *final(build_data) == *old(build_data),
    {
        let ok = match &build_data.rooms {
            Some(rooms) => all_indexable(rooms),
            None => false,
        };
        if ok {
            self.build(rng, build_data);
        }
    }
}

fn all_indexable(rooms: &Vec<Rect>) -> (r: bool)
    ensures
        r == forall|k: int| 0 <= k < rooms@.len() ==> room_indexable(#[trigger] rooms@[k]),
{
    for k in 0..rooms.len()
        invariant
            forall|q: int| 0 <= q < k ==> room_indexable(#[trigger] rooms@[q]),
    {
        let r = rooms[k];
        if !(-1 <= r.x1 && -1 <= r.y1) {
            return false;
        }
    }
    true
}

impl RoomDrawer {
    pub fn new() -> (r: Box<RoomDrawer>) {
        Box::new(RoomDrawer {})
    }

    /// Turns into floor every cell of every room that lies on the map,
    /// recording a snapshot after each room; nothing else changes.
    pub fn build(&mut self, _rng: &mut RandomNumberGenerator, build_data: &mut BuilderMap)
        requires
            old(build_data).wf(),
            old(build_data).rooms is Some,
            forall|k: int| 0 <= k < old(build_data).rooms->0@.len() ==> room_indexable(#[trigger] old(build_data).rooms->0@[k]),
        ensures
            final(build_data).wf(),
            only_tiles_changed(&old(build_data).map, &final(build_data).map),
            final(build_data).rooms == old(build_data).rooms,
            final(build_data).starting_position == old(build_data).starting_position,
            final(build_data).spawn_list == old(build_data).spawn_list,
            tiles_set_where(old(build_data).map.tiles@, final(build_data).map.tiles@,
                |i: int| drawn(&old(build_data).map, old(build_data).rooms->0@, i), TileType::Floor),
            final(build_data).history@.len() == old(build_data).history@.len() + old(build_data).rooms->0@.len(),
    {
        let rooms = match &build_data.rooms {
            Some(rs) => clone_rooms(rs),
            None => Vec::new(),
        };
        let ghost m0 = build_data.map;
        let ghost rs = rooms@;
        let w = build_data.map.width;
        let n = w as usize * build_data.map.height as usize;
        for k in 0..rooms.len()
            invariant
                build_data.wf(),
                m0.wf(),
                m0 == old(build_data).map,
                rs == rooms@,
                rs == old(build_data).rooms->0@,
                build_data.history@.len() == old(build_data).history@.len() + k,
                w == m0.width,
                n == m0.width * m0.height,
                forall|q: int| 0 <= q < rs.len() ==> room_indexable(#[trigger] rs[q]),
                only_tiles_changed(&m0, &build_data.map),
                build_data.rooms == old(build_data).rooms,
                build_data.starting_position == old(build_data).starting_position,
                build_data.spawn_list == old(build_data).spawn_list,
                tiles_set_where(m0.tiles@, build_data.map.tiles@,
                    |i: int| exists|q: int| 0 <= q < k && #[trigger] drawn_by(&m0, rs, q, i), TileType::Floor),
        {
            let room = rooms[k];
            assert(room_indexable(rs[k as int]));
            let mut y: i64 = room.y1 as i64 + 1;
            while y <= room.y2 as i64
                invariant
                    build_data.wf(),
                    m0.wf(),
                    m0 == old(build_data).map,
                    rs == rooms@,
                    0 <= k < rs.len(),
                    room == rs[k as int],
                    room_indexable(room),
                    build_data.history@.len() == old(build_data).history@.len() + k,
                    w == m0.width,
                    n == m0.width * m0.height,
                    room.y1 + 1 <= y,
                    y <= room.y2 + 1 || y == room.y1 + 1,
                    only_tiles_changed(&m0, &build_data.map),
                    build_data.rooms == old(build_data).rooms,
                    build_data.starting_position == old(build_data).starting_position,
                    build_data.spawn_list == old(build_data).spawn_list,
                    tiles_set_where(m0.tiles@, build_data.map.tiles@,
                        |i: int| (exists|q: int| 0 <= q < k && #[trigger] drawn_by(&m0, rs, q, i))
                            || (0 <= i < n && exists|yy: int| room.y1 < yy < y && #[trigger] in_room_row(room, w as int, yy, i)),
                        TileType::Floor),
                decreases room.y2 + 1 - y,
            {
                let mut x: i64 = room.x1 as i64 + 1;
                while x <= room.x2 as i64
                    invariant
                        build_data.wf(),
                        m0.wf(),
                        m0 == old(build_data).map,
                        0 <= k < rs.len(),
                        room == rs[k as int],
                        room_indexable(room),
                        build_data.history@.len() == old(build_data).history@.len() + k,
                        w == m0.width,
                        n == m0.width * m0.height,
                        room.y1 + 1 <= y <= room.y2,
                        room.x1 + 1 <= x,
                        x <= room.x2 + 1 || x == room.x1 + 1,
                        only_tiles_changed(&m0, &build_data.map),
                        build_data.rooms == old(build_data).rooms,
                        build_data.starting_position == old(build_data).starting_position,
                        build_data.spawn_list == old(build_data).spawn_list,
                        tiles_set_where(m0.tiles@, build_data.map.tiles@,
                            |i: int| (exists|q: int| 0 <= q < k && #[trigger] drawn_by(&m0, rs, q, i))
                                || (0 <= i < n && exists|yy: int| room.y1 < yy < y && #[trigger] in_room_row(room, w as int, yy, i))
                                || (0 <= i < n && room.x1 < i - y * w < x),
                            TileType::Floor),
                    decreases room.x2 + 1 - x,
                {
                    proof {
                        assert(0 <= y * (w as int) <= 0x8000_0000 * 0x4000) by (nonlinear_arith)
                            requires 0 <= y <= 0x8000_0000, 0 <= w <= 0x4000;
                    }
                    let idx = y * (w as i64) + x;
                    let ghost before = build_data.map.tiles@;
                    if idx < n as i64 {
                        build_data.map.set_tile(idx as usize, TileType::Floor);
                    }
                    x = x + 1;
                }
                proof {
                    let tiles = build_data.map.tiles@;
                    assert forall|i: int| 0 <= i < tiles.len() implies #[trigger] tiles[i] == (if (exists|q: int| 0 <= q < k && #[trigger] drawn_by(&m0, rs, q, i))
                            || (0 <= i < n && exists|yy: int| room.y1 < yy < y + 1 && #[trigger] in_room_row(room, w as int, yy, i)) { TileType::Floor } else { m0.tiles@[i] }) by {
                        if 0 <= i < n && room.x1 < i - y * w < x {
                            assert(in_room_row(room, w as int, y as int, i));
                        }
                        if 0 <= i < n && exists|yy: int| room.y1 < yy < y + 1 && #[trigger] in_room_row(room, w as int, yy, i) {
                            let yy = choose|yy: int| room.y1 < yy < y + 1 && #[trigger] in_room_row(room, w as int, yy, i);
                            if yy < y {
                                assert(exists|yz: int| room.y1 < yz < y && #[trigger] in_room_row(room, w as int, yz, i));
                            }
                        }
                    }
                }
                y = y + 1;
            }
            proof {
                let tiles = build_data.map.tiles@;
                assert forall|i: int| 0 <= i < tiles.len() implies #[trigger] tiles[i] == (if exists|q: int| 0 <= q < k + 1 && #[trigger] drawn_by(&m0, rs, q, i) { TileType::Floor } else { m0.tiles@[i] }) by {
                    if 0 <= i < n && exists|yy: int| room.y1 < yy < y && #[trigger] in_room_row(room, w as int, yy, i) {
                        let yy = choose|yy: int| room.y1 < yy < y && #[trigger] in_room_row(room, w as int, yy, i);
                        assert(room.y1 < yy <= room.y2);
                        assert(drawn_by(&m0, rs, k as int, i));
                    }
                    if exists|q: int| 0 <= q < k + 1 && #[trigger] drawn_by(&m0, rs, q, i) {
                        let q = choose|q: int| 0 <= q < k + 1 && #[trigger] drawn_by(&m0, rs, q, i);
                        if q == k {
                            let yy = choose|yy: int| room.y1 < yy <= room.y2 && #[trigger] in_room_row(room, w as int, yy, i);
                            assert(yy < y);
                        }
                    }
                }
            }
            build_data.take_snapshot();
        }
    }
}

fn clone_rooms(v: &Vec<Rect>) -> (r: Vec<Rect>)
    ensures
        r@ == v@,
{
    let mut r: Vec<Rect> = Vec::new();
    for k in 0..v.len()
        invariant
            r@ == v@.take(k as int),
    {
        r.push(v[k]);
        proof { assert(v@.take(k + 1) == v@.take(k as int).push(v@[k as int])); }
    }
    proof { assert(v@.take(v@.len() as int) == v@); }
    r
}

} // verus!
