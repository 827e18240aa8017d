use vstd::prelude::*;
use rltk::RandomNumberGenerator;
use crate::components::Position;
use crate::map::{TileMap, max_cells, lemma_cell_index, lemma_index_cell, only_tiles_changed, tiles_set_where};
use crate::builders::common::{draw_corridor, in_corridor};
use crate::builders::rooms_corridors_bsp::{spec_abs_diff, corridor_point_ok, on_corridor_k, corridor_room_ok};
use crate::tile::TileType;
use crate::rect::Rect;
use crate::rng::roll_dice;

verus! {

/// The smallest half a rectangle is split into further.
pub const MIN_ROOM_SIZE: i32 = 8;

/// Divides the map, room by room, like the interior of a building.
pub struct BspInteriorBuilder {
    pub map: TileMap,
    pub starting_position: Position,
    pub rooms: Vec<Rect>,
    pub history: Vec<TileMap>,
    pub rects: Vec<Rect>,
    pub spawn_list: Vec<(usize, String)>,
}

/// Rectangle `a` lies within rectangle `b`.
pub open spec fn contained(a: Rect, b: Rect) -> bool {
    b.x1 <= a.x1 && a.x2 <= b.x2 && b.y1 <= a.y1 && a.y2 <= b.y2
}

/// The cells of two rectangles (`x1 <= x < x2`, `y1 <= y < y2`) do not meet.
pub open spec fn apart(a: Rect, b: Rect) -> bool {
    a.x2 <= b.x1 || b.x2 <= a.x1 || a.y2 <= b.y1 || b.y2 <= a.y1
}

/// The rectangles do not meet one another.
pub open spec fn all_apart(rs: Seq<Rect>) -> bool {
    forall|a: int, b: int| #![trigger rs[a], rs[b]] 0 <= a < b < rs.len() ==> apart(rs[a], rs[b])
}

/// Rectangles within rectangles that do not meet do not meet either.
pub proof fn lemma_apart_within(a: Rect, b: Rect, outer_a: Rect, outer_b: Rect)
    requires
        contained(a, outer_a),
        contained(b, outer_b),
        apart(outer_a, outer_b),
        a.x1 <= a.x2,
        a.y1 <= a.y2,
        b.x1 <= b.x2,
        b.y1 <= b.y2,
    ensures
        apart(a, b),
{
}

/// A leaf of the partition: at least three cells each way.
pub open spec fn leaf_ok(r: Rect) -> bool {
    r.x2 - r.x1 >= 3 && r.y2 - r.y1 >= 3
}

impl BspInteriorBuilder {
    /// A builder over a fresh `width` by `height` map of walls.
    pub fn new(depth: i32, width: i32, height: i32) -> (r: BspInteriorBuilder)
        requires
            0 <= width <= 0x4000,
            0 <= height <= 0x4000,
            width * height <= max_cells(),
        ensures
            r.map.wf(),
            r.map.depth == depth,
            r.map.width == width,
            r.map.height == height,
            r.rects@.len() == 0,
            r.rooms@.len() == 0,
            r.history@.len() == 0,
            r.spawn_list@.len() == 0,
    {
        BspInteriorBuilder {
            map: TileMap::new(depth, width, height, String::new()),
            starting_position: Position { x: 0, y: 0 },
            rooms: Vec::new(),
            history: Vec::new(),
            rects: Vec::new(),
            spawn_list: Vec::new(),
        }
    }

    /// Splits `rect` in two at random, across its width or its height (the
    /// first half one cell short of the second), splits again each half
    /// longer than `MIN_ROOM_SIZE` along the split, and adds the pieces to
    /// the rectangles, in order. The pieces lie within `rect`, are at least
    /// three cells each way and do not meet.
    fn split(&mut self, rng: &mut RandomNumberGenerator, rect: Rect)
        requires
            rect.x2 - rect.x1 >= 8,
            rect.y2 - rect.y1 >= 8,
            0 <= rect.x1,
            0 <= rect.y1,
            rect.x2 <= 0x4000,
            rect.y2 <= 0x4000,
        ensures
            final(self).map == old(self).map,
            final(self).rooms == old(self).rooms,
            final(self).rects@.len() > old(self).rects@.len(),
            final(self).rects@.subrange(0, old(self).rects@.len() as int) == old(self).rects@,
            forall|k: int| old(self).rects@.len() <= k < final(self).rects@.len() ==>
                contained(#[trigger] final(self).rects@[k], rect) && leaf_ok(final(self).rects@[k]),
            all_apart(final(self).rects@.subrange(old(self).rects@.len() as int, final(self).rects@.len() as int)),
        decreases (rect.x2 - rect.x1) + (rect.y2 - rect.y1),
    {
        let width = rect.x2 - rect.x1;
        let height = rect.y2 - rect.y1;
        let n0 = self.rects.len();
        let split = roll_dice(rng, 1, 4);
        let (first, second, half) = if split <= 2 {
            let half_width = width / 2;
            (Rect::new(rect.x1, rect.y1, half_width - 1, height), Rect::new(rect.x1 + half_width, rect.y1, half_width, height), half_width)
        } else {
            let half_height = height / 2;
            (Rect::new(rect.x1, rect.y1, width, half_height - 1), Rect::new(rect.x1, rect.y1 + half_height, width, half_height), half_height)
        };
        proof {
            assert(apart(first, second));
            assert(contained(first, rect));
            assert(contained(second, rect));
        }
        if half > MIN_ROOM_SIZE {
            self.split(rng, first);
        } else {
            self.rects.push(first);
        }
        let n1 = self.rects.len();
        let ghost mid = self.rects@;
        if half > MIN_ROOM_SIZE {
            self.split(rng, second);
        } else {
            self.rects.push(second);
        }
        proof {
            let all = self.rects@;
            assert(all.subrange(0, n1 as int) == mid);
            assert(all.subrange(0, n0 as int) == old(self).rects@) by {
                assert(mid.subrange(0, n0 as int) == old(self).rects@);
            }
            assert forall|k: int| n0 <= k < n1 implies contained(#[trigger] all[k], first) && leaf_ok(all[k]) by {
                assert(all[k] == mid[k]);
            }
            assert forall|k: int| n1 <= k < all.len() implies contained(#[trigger] all[k], second) && leaf_ok(all[k]) by {
            }
            assert forall|k: int| n0 <= k < all.len() implies contained(#[trigger] all[k], rect) && leaf_ok(all[k]) by {
                if k < n1 {
                    assert(contained(all[k], first));
                } else {
                    assert(contained(all[k], second));
                }
            }
            let leaves = all.subrange(n0 as int, all.len() as int);
            assert forall|a: int, b: int| #![trigger leaves[a], leaves[b]] 0 <= a < b < leaves.len() implies apart(leaves[a], leaves[b]) by {
                let ka = a + n0;
                let kb = b + n0;
                assert(leaves[a] == all[ka]);
                assert(leaves[b] == all[kb]);
                if kb < n1 {
                    let l1 = mid.subrange(n0 as int, n1 as int);
                    assert(l1[a] == all[ka]);
                    assert(l1[b] == all[kb]);
                } else if ka >= n1 {
                    let l2 = all.subrange(n1 as int, all.len() as int);
                    assert(l2[ka - n1] == all[ka]);
                    assert(l2[kb - n1] == all[kb]);
                } else {
                    assert(contained(all[ka], first));
                    assert(contained(all[kb], second));
                    lemma_apart_within(all[ka], all[kb], first, second);
                }
            }
        }
    }

    /// Replaces the rectangles with a partition of the map inside a
    /// one-cell border into pieces that do not meet.
    pub fn partition_rects(&mut self, rng: &mut RandomNumberGenerator)
        requires
            old(self).map.wf(),
            10 <= old(self).map.width <= 0x4000,
            10 <= old(self).map.height <= 0x4000,
        ensures
            final(self).map == old(self).map,
            final(self).rooms == old(self).rooms,
            final(self).rects@.len() > 0,
            forall|k: int| 0 <= k < final(self).rects@.len() ==> contained(#[trigger] final(self).rects@[k],
                Rect { x1: 1, y1: 1, x2: (old(self).map.width - 1) as i32, y2: (old(self).map.height - 1) as i32 }) && leaf_ok(final(self).rects@[k]),
            all_apart(final(self).rects@),
    {
        self.rects.clear();
        let whole = Rect::new(1, 1, self.map.width - 2, self.map.height - 2);
        self.split(rng, whole);
        proof {
            assert(self.rects@.subrange(0, self.rects@.len() as int) == self.rects@);
        }
    }
}

/// Cell `(x, y)` lies in the rectangle (`x1 <= x < x2`, `y1 <= y < y2`).
pub open spec fn in_rect_cells(r: Rect, x: int, y: int) -> bool {
    r.x1 <= x < r.x2 && r.y1 <= y < r.y2
}

/// Index `i` of a map `w` wide is a cell of room `k`.
pub open spec fn room_cell(rooms: Seq<Rect>, w: int, k: int, i: int) -> bool {
    in_rect_cells(rooms[k], i % w, i / w)
}

/// Index `i` is a cell of one of the rooms.
pub open spec fn in_some_room(rooms: Seq<Rect>, w: int, i: int) -> bool {
    exists|k: int| 0 <= k < rooms.len() && #[trigger] room_cell(rooms, w, k, i)
}

fn abs_diff(a: i32, b: i32) -> (r: i32)
    requires
        -0x4000_0000 < a < 0x4000_0000,
        -0x4000_0000 < b < 0x4000_0000,
    ensures
        r == spec_abs_diff(a as int, b as int),
{
    if a >= b { a - b } else { b - a }
}

impl BspInteriorBuilder {
    /// Turns into floor every cell of every room (the map's border stays).
    fn carve_rooms(&mut self)
        requires
            old(self).map.wf(),
            10 <= old(self).map.width <= 0x4000,
            10 <= old(self).map.height <= 0x4000,
            forall|k: int| 0 <= k < old(self).rooms@.len() ==> contained(#[trigger] old(self).rooms@[k],
                Rect { x1: 1, y1: 1, x2: (old(self).map.width - 1) as i32, y2: (old(self).map.height - 1) as i32 }),
        ensures
            final(self).map.wf(),
            only_tiles_changed(&old(self).map, &final(self).map),
            final(self).rooms == old(self).rooms,
            tiles_set_where(old(self).map.tiles@, final(self).map.tiles@,
                |i: int| in_some_room(old(self).rooms@, old(self).map.width as int, i), TileType::Floor),
    {
        let ghost m0 = self.map;
        let ghost rs = self.rooms@;
        let w = self.map.width;
        let h = self.map.height;
        let n = self.rooms.len();
        for k in 0..n
            invariant
                self.map.wf(),
                m0 == old(self).map,
                only_tiles_changed(&m0, &self.map),
                rs == self.rooms@,
                self.rooms == old(self).rooms,
                n == rs.len(),
                w == m0.width,
                h == m0.height,
                10 <= w,
                10 <= h,
                forall|q: int| 0 <= q < rs.len() ==> contained(#[trigger] rs[q], Rect { x1: 1, y1: 1, x2: (w - 1) as i32, y2: (h - 1) as i32 }),
                tiles_set_where(m0.tiles@, self.map.tiles@,
                    |i: int| exists|q: int| 0 <= q < k && #[trigger] room_cell(rs, w as int, q, i), TileType::Floor),
        {
            let room = self.rooms[k];
            assert(contained(rs[k as int], Rect { x1: 1, y1: 1, x2: (w - 1) as i32, y2: (h - 1) as i32 }));
            let mut y = room.y1;
            while y < room.y2
                invariant
                    self.map.wf(),
                    m0 == old(self).map,
                    only_tiles_changed(&m0, &self.map),
                    rs == self.rooms@,
                    self.rooms == old(self).rooms,
                    0 <= k < rs.len(),
                    room == rs[k as int],
                    w == m0.width,
                    h == m0.height,
                    10 <= w,
                    10 <= h,
                    contained(room, Rect { x1: 1, y1: 1, x2: (w - 1) as i32, y2: (h - 1) as i32 }),
                    room.y1 <= y,
                    y <= room.y2 || y == room.y1,
                    tiles_set_where(m0.tiles@, self.map.tiles@,
                        |i: int| (exists|q: int| 0 <= q < k && #[trigger] room_cell(rs, w as int, q, i))
                            || (room_cell(rs, w as int, k as int, i) && i / (w as int) < y && 0 <= i < w * h), TileType::Floor),
                decreases room.y2 - y,
            {
                let mut x = room.x1;
                while x < room.x2
                    invariant
                        self.map.wf(),
                        m0 == old(self).map,
                        only_tiles_changed(&m0, &self.map),
                        rs == self.rooms@,
                        self.rooms == old(self).rooms,
                        0 <= k < rs.len(),
                        room == rs[k as int],
                        w == m0.width,
                        h == m0.height,
                        10 <= w,
                        10 <= h,
                        contained(room, Rect { x1: 1, y1: 1, x2: (w - 1) as i32, y2: (h - 1) as i32 }),
                        room.y1 <= y < room.y2,
                        room.x1 <= x,
                        x <= room.x2 || x == room.x1,
                        tiles_set_where(m0.tiles@, self.map.tiles@,
                            |i: int| (exists|q: int| 0 <= q < k && #[trigger] room_cell(rs, w as int, q, i))
                                || (room_cell(rs, w as int, k as int, i) && 0 <= i < w * h
                                    && (i / (w as int) < y || (i / (w as int) == y && i % (w as int) < x))), TileType::Floor),
                    decreases room.x2 - x,
                {
                    proof { lemma_cell_index(w as int, h as int, x as int, y as int); }
                    let idx = self.map.xy_idx(x, y);
                    let total = (w as usize) * (h as usize);
                    let ghost before = self.map.tiles@;
                    if idx > 0 && idx < total - 1 {
                        self.map.set_tile(idx, TileType::Floor);
                    }
                    proof {
                        vstd::arithmetic::div_mod::lemma_fundamental_div_mod_converse(idx as int, w as int, y as int, x as int);
                        assert(idx > 0) by {
                            assert(y >= 1);
                            assert(y * w >= w) by (nonlinear_arith) requires y >= 1, w >= 10;
                        }
                        assert(idx < total - 1) by {
                            assert(y <= h - 2);
                            assert(y * w <= (h - 2) * w) by (nonlinear_arith) requires y <= h - 2, w >= 10;
                            assert((h - 2) * w == h * w - 2 * w) by (nonlinear_arith);
                            assert(total == w * h);
                            assert(w * h == h * w) by (nonlinear_arith);
                        }
                        assert forall|i: int| 0 <= i < self.map.tiles@.len() implies #[trigger] self.map.tiles@[i]
                            == (if (exists|q: int| 0 <= q < k && #[trigger] room_cell(rs, w as int, q, i))
                                || (room_cell(rs, w as int, k as int, i) && 0 <= i < w * h
                                    && (i / (w as int) < y || (i / (w as int) == y && i % (w as int) < x + 1))) { TileType::Floor } else { m0.tiles@[i] }) by {
                            if i != idx as int {
                                assert(self.map.tiles@[i] == before[i]);
                                if i / (w as int) == y && i % (w as int) == x {
                                    lemma_index_cell(w as int, h as int, i);
                                }
                            }
                        }
                    }
                    x = x + 1;
                }
                proof {
                    assert forall|i: int| 0 <= i < self.map.tiles@.len() implies #[trigger] self.map.tiles@[i]
                        == (if (exists|q: int| 0 <= q < k && #[trigger] room_cell(rs, w as int, q, i))
                            || (room_cell(rs, w as int, k as int, i) && i / (w as int) < y + 1 && 0 <= i < w * h) { TileType::Floor } else { m0.tiles@[i] }) by {
                        if room_cell(rs, w as int, k as int, i) && i / (w as int) == y {
                            assert(i % (w as int) < room.x2);
                        }
                    }
                }
                y = y + 1;
            }
            proof {
                assert forall|i: int| 0 <= i < self.map.tiles@.len() implies #[trigger] self.map.tiles@[i]
                    == (if exists|q: int| 0 <= q < k + 1 && #[trigger] room_cell(rs, w as int, q, i) { TileType::Floor } else { m0.tiles@[i] }) by {
                    if room_cell(rs, w as int, k as int, i) {
                        lemma_index_cell(w as int, h as int, i);
                        assert(i / (w as int) < y);
                    }
                    if exists|q: int| 0 <= q < k + 1 && #[trigger] room_cell(rs, w as int, q, i) {
                        let q = choose|q: int| 0 <= q < k + 1 && #[trigger] room_cell(rs, w as int, q, i);
                        if q == k {
                            lemma_index_cell(w as int, h as int, i);
                        }
                    }
                }
            }
            self.take_snapshot();
        }
        proof {
            assert forall|i: int| 0 <= i < self.map.tiles@.len() implies #[trigger] self.map.tiles@[i]
                == (if in_some_room(rs, w as int, i) { TileType::Floor } else { m0.tiles@[i] }) by {
            }
        }
    }

    /// Records a copy of the map, fully revealed, in the history.
    pub fn take_snapshot(&mut self)
        ensures
            final(self).map == old(self).map,
            final(self).rects == old(self).rects,
            final(self).rooms == old(self).rooms,
            final(self).starting_position == old(self).starting_position,
            final(self).spawn_list == old(self).spawn_list,
            final(self).history@.len() == old(self).history@.len() + 1,
    {
        let mut snapshot = self.map.duplicate();
        let n = snapshot.revealed_tiles.len();
        for i in 0..n
            invariant
                n == snapshot.revealed_tiles.len(),
        {
            snapshot.revealed_tiles.set(i, true);
        }
        self.history.push(snapshot);
    }
}

impl BspInteriorBuilder {
    /// Digs, for each room but the last, a corridor from a random cell of
    /// the room to a random cell of the next, recording a snapshot after each.
    fn join_rooms(&mut self, rng: &mut RandomNumberGenerator)
        requires
            old(self).map.wf(),
            old(self).map.width <= 0x4000,
            old(self).map.height <= 0x4000,
            old(self).rooms@.len() >= 1,
            forall|k: int| 0 <= k < old(self).rooms@.len() ==> corridor_room_ok(&old(self).map, #[trigger] old(self).rooms@[k]),
        ensures
            final(self).map.wf(),
            only_tiles_changed(&old(self).map, &final(self).map),
            final(self).rooms == old(self).rooms,
            exists|ends: Seq<(int, int, int, int)>| {
                &&& #[trigger] ends.len() == old(self).rooms@.len() - 1
                &&& forall|k: int| 0 <= k < ends.len() ==> {
                    &&& corridor_point_ok(old(self).rooms@[k], (#[trigger] ends[k]).0, ends[k].1)
                    &&& corridor_point_ok(old(self).rooms@[k + 1], ends[k].2, ends[k].3)
                }
                &&& tiles_set_where(old(self).map.tiles@, final(self).map.tiles@,
                    |i: int| exists|k: int| 0 <= k < ends.len() && #[trigger] on_corridor_k(&old(self).map, ends, k, i),
                    TileType::Floor)
            },
    {
        let ghost m0 = self.map;
        let ghost rs = self.rooms@;
        let ghost mut ends: Seq<(int, int, int, int)> = Seq::empty();
        let n = self.rooms.len() - 1;
        for i in 0..n
            invariant
                self.map.wf(),
                m0 == old(self).map,
                m0.wf(),
                m0.width <= 0x4000,
                m0.height <= 0x4000,
                rs == self.rooms@,
                self.rooms == old(self).rooms,
                n == rs.len() - 1,
                forall|k: int| 0 <= k < rs.len() ==> corridor_room_ok(&m0, #[trigger] rs[k]),
                only_tiles_changed(&m0, &self.map),
                ends.len() == i,
                forall|k: int| 0 <= k < ends.len() ==> {
                    &&& corridor_point_ok(rs[k], (#[trigger] ends[k]).0, ends[k].1)
                    &&& corridor_point_ok(rs[k + 1], ends[k].2, ends[k].3)
                },
                tiles_set_where(m0.tiles@, self.map.tiles@,
                    |c: int| exists|k: int| 0 <= k < ends.len() && #[trigger] on_corridor_k(&m0, ends, k, c),
                    TileType::Floor),
        {
            let room = self.rooms[i];
            let next_room = self.rooms[i + 1];
            assert(corridor_room_ok(&m0, rs[i as int]));
            assert(corridor_room_ok(&m0, rs[i + 1]));
            let start_x = room.x1 + roll_dice(rng, 1, abs_diff(room.x1, room.x2));
            let start_y = room.y1 + roll_dice(rng, 1, abs_diff(room.y1, room.y2));
            let end_x = next_room.x1 + roll_dice(rng, 1, abs_diff(next_room.x1, next_room.x2));
            let end_y = next_room.y1 + roll_dice(rng, 1, abs_diff(next_room.y1, next_room.y2));
            let ghost old_ends = ends;
            draw_corridor(&mut self.map, start_x, start_y, end_x, end_y);
            proof {
                ends = ends.push((start_x as int, start_y as int, end_x as int, end_y as int));
                let tiles = self.map.tiles@;
                assert forall|c: int| 0 <= c < tiles.len() implies #[trigger] tiles[c] == (if exists|k: int| 0 <= k < ends.len() && #[trigger] on_corridor_k(&m0, ends, k, c) { TileType::Floor } else { m0.tiles@[c] }) by {
                    assert(ends[i as int] == (start_x as int, start_y as int, end_x as int, end_y as int));
                    if in_corridor(&m0, start_x as int, start_y as int, end_x as int, end_y as int, c) {
                        assert(on_corridor_k(&m0, ends, i as int, c));
                    }
                    if exists|k: int| 0 <= k < old_ends.len() && #[trigger] on_corridor_k(&m0, old_ends, k, c) {
                        let k = choose|k: int| 0 <= k < old_ends.len() && #[trigger] on_corridor_k(&m0, old_ends, k, c);
                        assert(ends[k] == old_ends[k]);
                        assert(on_corridor_k(&m0, ends, k, c));
                    }
                    if exists|k: int| 0 <= k < ends.len() && #[trigger] on_corridor_k(&m0, ends, k, c) {
                        let k = choose|k: int| 0 <= k < ends.len() && #[trigger] on_corridor_k(&m0, ends, k, c);
                        if k < old_ends.len() {
                            assert(ends[k] == old_ends[k]);
                            assert(on_corridor_k(&m0, old_ends, k, c));
                        }
                    }
                }
                assert forall|k: int| 0 <= k < ends.len() implies {
                    &&& corridor_point_ok(rs[k], (#[trigger] ends[k]).0, ends[k].1)
                    &&& corridor_point_ok(rs[k + 1], ends[k].2, ends[k].3)
                } by {
                    if k < old_ends.len() {
                        assert(ends[k] == old_ends[k]);
                    }
                }
            }
            self.take_snapshot();
        }
        proof {
            assert(ends.len() == rs.len() - 1);
        }
    }

    /// Partitions the map into rooms that fill it inside a one-cell border
    /// and do not meet, carves every room, joins each room to the next with
    /// a corridor, puts the down stairs at the centre of the last room and
    /// the start at the centre of the first.
    pub fn build(&mut self, rng: &mut RandomNumberGenerator)
        requires
            old(self).map.wf(),
            10 <= old(self).map.width <= 0x4000,
            10 <= old(self).map.height <= 0x4000,
        ensures
            final(self).map.wf(),
            final(self).map.width == old(self).map.width,
            final(self).map.height == old(self).map.height,
            final(self).rooms@.len() > 0,
            all_apart(final(self).rooms@),
            forall|k: int| 0 <= k < final(self).rooms@.len() ==> contained(#[trigger] final(self).rooms@[k],
                Rect { x1: 1, y1: 1, x2: (old(self).map.width - 1) as i32, y2: (old(self).map.height - 1) as i32 })
                && leaf_ok(final(self).rooms@[k]),
            final(self).starting_position.x == final(self).rooms@[0].spec_center().0,
            final(self).starting_position.y == final(self).rooms@[0].spec_center().1,
            final(self).map.tile_at(final(self).rooms@.last().spec_center().0, final(self).rooms@.last().spec_center().1) is DownStairs,
            forall|i: int| 0 <= i < final(self).map.tiles@.len() && !(#[trigger] final(self).map.tiles@[i] is DownStairs)
                && in_some_room(final(self).rooms@, old(self).map.width as int, i) ==> final(self).map.tiles@[i] is Floor,
    {
        let w = self.map.width;
        let h = self.map.height;
        self.partition_rects(rng);
        let mut rooms: Vec<Rect> = Vec::new();
        let ghost rects = self.rects@;
        for k in 0..self.rects.len()
            invariant
                rooms@ == rects.take(k as int),
                rects == self.rects@,
        {
            rooms.push(self.rects[k]);
            proof { assert(rects.take(k + 1) == rects.take(k as int).push(rects[k as int])); }
        }
        proof { assert(rects.take(rects.len() as int) == rects); }
        self.rooms = rooms;
        let ghost before_carve = self.map;
        self.carve_rooms();
        let ghost after_carve = self.map;
        proof {
            assert forall|k: int| 0 <= k < self.rooms@.len() implies corridor_room_ok(&self.map, #[trigger] self.rooms@[k]) by {
                assert(contained(self.rooms@[k], Rect { x1: 1, y1: 1, x2: (w - 1) as i32, y2: (h - 1) as i32 }));
                assert(leaf_ok(self.rooms@[k]));
            }
        }
        self.join_rooms(rng);
        let last = self.rooms[self.rooms.len() - 1];
        let first = self.rooms[0];
        proof {
            assert(contained(self.rooms@[self.rooms@.len() - 1], Rect { x1: 1, y1: 1, x2: (w - 1) as i32, y2: (h - 1) as i32 }));
            assert(contained(self.rooms@[0], Rect { x1: 1, y1: 1, x2: (w - 1) as i32, y2: (h - 1) as i32 }));
            assert(leaf_ok(self.rooms@[self.rooms@.len() - 1]));
        }
        let (sx, sy) = last.center();
        proof { lemma_cell_index(w as int, h as int, sx as int, sy as int); }
        let stairs_idx = self.map.xy_idx(sx, sy);
        let ghost before_stairs = self.map.tiles@;
        self.map.set_tile(stairs_idx, TileType::DownStairs);
        self.take_snapshot();
        let (fx, fy) = first.center();
        self.starting_position = Position { x: fx, y: fy };
        proof {
            assert forall|i: int| 0 <= i < self.map.tiles@.len() && !(#[trigger] self.map.tiles@[i] is DownStairs)
                && in_some_room(self.rooms@, w as int, i) implies self.map.tiles@[i] is Floor by {
                assert(after_carve.tiles@[i] is Floor);
                assert(before_stairs[i] is Floor || before_stairs[i] == after_carve.tiles@[i]);
            }
        }
    }
}

} // verus!
