use vstd::prelude::*;
use rltk::RandomNumberGenerator;
use crate::builders::common::{apply_room_to_map, in_room};
use crate::components::Position;
use crate::map::{TileMap, max_cells, lemma_cell_index, only_tiles_changed, tiles_set_where};
use crate::rect::Rect;
use crate::rng::roll_dice;
use crate::tile::TileType;

verus! {

/// Splits the map into ever smaller rectangles and fits a room in some of them.
pub struct BspDungeonBuilder {
    pub map: TileMap,
    pub starting_position: Position,
    pub history: Vec<TileMap>,
    pub rects: Vec<Rect>,
    pub rooms: Vec<Rect>,
}

/// How far the rectangles' corners may drift from the map's corner while
/// partitioning.
pub open spec fn rect_drift() -> int {
    0x100_0000
}

/// A rectangle of the partition: at least one cell each way, no larger
/// than the map, with its corner not too far off.
pub open spec fn part_ok(map: &TileMap, r: Rect) -> bool {
    &&& 2 <= r.x1 <= rect_drift()
    &&& 2 <= r.y1 <= rect_drift()
    &&& 1 <= r.x2 - r.x1 <= map.width
    &&& 1 <= r.y2 - r.y1 <= map.height
}

/// Every cell of the room and of the two cells around it lies inside the
/// map's border and is wall.
pub open spec fn room_possible(map: &TileMap, r: Rect) -> bool {
    forall|x: int, y: int| #![trigger map.tile_at(x, y)] r.x1 - 2 <= x <= r.x2 + 2 && r.y1 - 2 <= y <= r.y2 + 2 ==>
        1 <= x <= map.width - 2 && 1 <= y <= map.height - 2 && map.tile_at(x, y) is Wall
}

/// Half the distance between `a` and `b`, but at least 1: the side of a
/// quarter of a rectangle spanning from `a` to `b`.
pub open spec fn half_span(a: int, b: int) -> int {
    let d = if a >= b { a - b } else { b - a };
    if d / 2 > 1 { d / 2 } else { 1 }
}

/// The four quarters `partition_rect` adds for `r`, in order: top left,
/// bottom left, top right, bottom right.
pub open spec fn quarters(r: Rect) -> Seq<Rect> {
    let w = if r.x1 >= r.x2 { r.x1 - r.x2 } else { r.x2 - r.x1 };
    let h = if r.y1 >= r.y2 { r.y1 - r.y2 } else { r.y2 - r.y1 };
    let hw = if w / 2 > 1 { w / 2 } else { 1 };
    let hh = if h / 2 > 1 { h / 2 } else { 1 };
    seq![
        Rect { x1: r.x1, y1: r.y1, x2: (r.x1 + hw) as i32, y2: (r.y1 + hh) as i32 },
        Rect { x1: r.x1, y1: (r.y1 + hh) as i32, x2: (r.x1 + hw) as i32, y2: (r.y1 + hh + hh) as i32 },
        Rect { x1: (r.x1 + hw) as i32, y1: r.y1, x2: (r.x1 + hw + hw) as i32, y2: (r.y1 + hh) as i32 },
        Rect { x1: (r.x1 + hw) as i32, y1: (r.y1 + hh) as i32, x2: (r.x1 + hw + hw) as i32, y2: (r.y1 + hh + hh) as i32 },
    ]
}

/// Index `i` is floor of room `k`.
pub open spec fn room_has(map: &TileMap, rooms: Seq<Rect>, k: int, i: int) -> bool {
    in_room(map, rooms[k], i)
}

fn abs_diff(a: i32, b: i32) -> (r: i32)
    requires
        -i32::MAX <= a - b <= i32::MAX,
    ensures
        r == (if a >= b { a - b } else { b - a }),
{
    if a >= b { a - b } else { b - a }
}

impl BspDungeonBuilder {
    /// A builder over a fresh `width` by `height` map of walls.
    pub fn new(depth: i32, width: i32, height: i32) -> (r: BspDungeonBuilder)
        requires
            0 <= width <= 0x4000,
            0 <= height <= 0x4000,
            width * height <= max_cells(),
        ensures
            r.map.wf(),
            r.map.depth == depth,
            r.map.width == width,
            r.map.height == height,
            r.rects@.len() == 0,
            r.rooms@.len() == 0,
            r.history@.len() == 0,
    {
        BspDungeonBuilder {
            map: TileMap::new(depth, width, height, String::new()),
            starting_position: Position { x: 0, y: 0 },
            history: Vec::new(),
            rects: Vec::new(),
            rooms: Vec::new(),
        }
    }

    /// Adds the four quarters of `rect` to the partition.
    pub fn partition_rect(&mut self, rect: &Rect)
        requires
            -i32::MAX <= rect.x2 - rect.x1 <= i32::MAX,
            -i32::MAX <= rect.y2 - rect.y1 <= i32::MAX,
            rect.x1 + 2 * half_span(rect.x1 as int, rect.x2 as int) <= i32::MAX,
            rect.y1 + 2 * half_span(rect.y1 as int, rect.y2 as int) <= i32::MAX,
        ensures
            final(self).rects@ == old(self).rects@ + quarters(*rect),
            final(self).map == old(self).map,
            final(self).rooms == old(self).rooms,
            final(self).starting_position == old(self).starting_position,
            final(self).history == old(self).history,
    {
        let width = abs_diff(rect.x1, rect.x2);
        let height = abs_diff(rect.y1, rect.y2);
        let half_width = if width / 2 > 1 { width / 2 } else { 1 };
        let half_height = if height / 2 > 1 { height / 2 } else { 1 };
        self.rects.push(Rect::new(rect.x1, rect.y1, half_width, half_height));
        self.rects.push(Rect::new(rect.x1, rect.y1 + half_height, half_width, half_height));
        self.rects.push(Rect::new(rect.x1 + half_width, rect.y1, half_width, half_height));
        self.rects.push(Rect::new(rect.x1 + half_width, rect.y1 + half_height, half_width, half_height));
        proof {
            assert(self.rects@ =~= old(self).rects@ + quarters(*rect));
        }
    }

    /// A rectangle of the partition picked at random (the only one when
    /// there is one).
    pub fn get_random_rect(&mut self, rng: &mut RandomNumberGenerator) -> (r: Rect)
        requires
            old(self).rects@.len() >= 1,
            old(self).rects@.len() < 0x1000_0000,
        ensures
            *final(self) == *old(self),
            exists|k: int| 0 <= k < old(self).rects@.len() && #[trigger] old(self).rects@[k] == r,
            old(self).rects@.len() == 1 ==> r == old(self).rects@[0],
    {
        let n = self.rects.len();
        let k: usize = if n == 1 { 0 } else { (roll_dice(rng, 1, n as i32) - 1) as usize };
        let r = self.rects[k];
        assert(self.rects@[k as int] == r);
        r
    }

    /// A room in the corner area of `rect`: its corner moved 0 to 5 cells
    /// right and down, and 4 to 10 cells each way (no more than one plus the
    /// rectangle's size).
    pub fn get_room_candidate(&mut self, rect: &Rect, rng: &mut RandomNumberGenerator) -> (r: Rect)
        requires
            part_ok(&old(self).map, *rect),
            old(self).map.wf(),
        ensures
            *final(self) == *old(self),
            rect.x1 <= r.x1 <= rect.x1 + 5,
            rect.y1 <= r.y1 <= rect.y1 + 5,
            4 <= r.x2 - r.x1 <= 10,
            4 <= r.y2 - r.y1 <= 10,
    {
        let rect_width = abs_diff(rect.x1, rect.x2);
        let rect_height = abs_diff(rect.y1, rect.y2);
        let rw = roll_dice(rng, 1, if rect_width < 10 { rect_width } else { 10 }) - 1;
        let w = (if rw > 3 { rw } else { 3 }) + 1;
        let rh = roll_dice(rng, 1, if rect_height < 10 { rect_height } else { 10 }) - 1;
        let h = (if rh > 3 { rh } else { 3 }) + 1;
        let x1 = rect.x1 + roll_dice(rng, 1, 6) - 1;
        let y1 = rect.y1 + roll_dice(rng, 1, 6) - 1;
        Rect { x1, y1, x2: x1 + w, y2: y1 + h }
    }

    /// Whether the room, with two cells around it, lies inside the map's
    /// border on walls only.
    pub fn is_possible(&self, rect: &Rect) -> (r: bool)
        requires
            self.map.wf(),
            -0x100_0000 <= rect.x1 <= rect.x2 <= 0x100_0000,
            -0x100_0000 <= rect.y1 <= rect.y2 <= 0x100_0000,
        ensures
            r == room_possible(&self.map, *rect),
    {
        let x1 = rect.x1 - 2;
        let x2 = rect.x2 + 2;
        let y1 = rect.y1 - 2;
        let y2 = rect.y2 + 2;
        let mut y = y1;
        while y <= y2
            invariant
                self.map.wf(),
                x1 == rect.x1 - 2,
                x2 == rect.x2 + 2,
                y1 == rect.y1 - 2,
                y2 == rect.y2 + 2,
                -0x100_0000 <= rect.x1 <= rect.x2 <= 0x100_0000,
                -0x100_0000 <= rect.y1 <= rect.y2 <= 0x100_0000,
                y1 <= y <= y2 + 1,
                forall|xx: int, yy: int| #![trigger self.map.tile_at(xx, yy)] x1 <= xx <= x2 && y1 <= yy < y ==>
                    1 <= xx <= self.map.width - 2 && 1 <= yy <= self.map.height - 2 && self.map.tile_at(xx, yy) is Wall,
            decreases y2 + 1 - y,
        {
            let mut x = x1;
            while x <= x2
                invariant
                    self.map.wf(),
                    x1 == rect.x1 - 2,
                    x2 == rect.x2 + 2,
                    y1 == rect.y1 - 2,
                    y2 == rect.y2 + 2,
                    -0x100_0000 <= rect.x1 <= rect.x2 <= 0x100_0000,
                    -0x100_0000 <= rect.y1 <= rect.y2 <= 0x100_0000,
                    y1 <= y <= y2,
                    x1 <= x <= x2 + 1,
                    forall|xx: int, yy: int| #![trigger self.map.tile_at(xx, yy)] x1 <= xx <= x2 && (y1 <= yy < y || (yy == y && xx < x)) ==>
                        1 <= xx <= self.map.width - 2 && 1 <= yy <= self.map.height - 2 && self.map.tile_at(xx, yy) is Wall,
                decreases x2 + 1 - x,
            {
                if x < 1 || y < 1 || x > self.map.width - 2 || y > self.map.height - 2 {
                    proof { let t = self.map.tile_at(x as int, y as int); }
                    return false;
                }
                proof { lemma_cell_index(self.map.width as int, self.map.height as int, x as int, y as int); }
                let idx = self.map.xy_idx(x, y);
                if self.map.tiles[idx] != TileType::Wall {
                    proof { let t = self.map.tile_at(x as int, y as int); }
                    return false;
                }
                x = x + 1;
            }
            y = y + 1;
        }
        true
    }
}

/// The room with two cells around it lies inside the map's border, and it
/// is 4 to 10 cells each way.
pub open spec fn room_in_border(map: &TileMap, r: Rect) -> bool {
    &&& 1 <= r.x1 - 2
    &&& r.x2 + 2 <= map.width - 2
    &&& 1 <= r.y1 - 2
    &&& r.y2 + 2 <= map.height - 2
    &&& 4 <= r.x2 - r.x1 <= 10
    &&& 4 <= r.y2 - r.y1 <= 10
}

impl BspDungeonBuilder {
    /// What the build keeps true: the tiles are the first map's with the
    /// rooms carved, the rooms lie inside the border, and the partition's
    /// rectangles, `1 + 4 * parts` of them, are sane.
    pub open spec fn bsp_inv(&self, m0: TileMap, parts: int) -> bool {
        &&& self.map.wf()
        &&& m0.wf()
        &&& m0.width <= 0x4000
        &&& m0.height <= 0x4000
        &&& only_tiles_changed(&m0, &self.map)
        &&& parts == self.rooms@.len() + 1
        &&& self.rects@.len() == 1 + 4 * parts
        &&& forall|k: int| 0 <= k < self.rects@.len() ==> {
            &&& part_ok(&m0, #[trigger] self.rects@[k])
            &&& self.rects@[k].x1 <= 2 + parts * 0x4000
            &&& self.rects@[k].y1 <= 2 + parts * 0x4000
        }
        &&& forall|k: int| 0 <= k < self.rooms@.len() ==> room_in_border(&m0, #[trigger] self.rooms@[k])
        &&& tiles_set_where(m0.tiles@, self.map.tiles@,
            |i: int| exists|k: int| 0 <= k < self.rooms@.len() && #[trigger] room_has(&m0, self.rooms@, k, i),
            TileType::Floor)
    }

    #[verifier::rlimit(40)]
    fn add_room(&mut self, rect: Rect, candidate: Rect, Ghost(m0): Ghost<TileMap>, Ghost(parts): Ghost<int>)
        requires
            old(self).bsp_inv(m0, parts),
            parts <= 240,
            exists|k: int| 0 <= k < old(self).rects@.len() && #[trigger] old(self).rects@[k] == rect,
            room_possible(&old(self).map, candidate),
            4 <= candidate.x2 - candidate.x1 <= 10,
            4 <= candidate.y2 - candidate.y1 <= 10,
        ensures
            final(self).bsp_inv(m0, parts + 1),
            final(self).rooms@ == old(self).rooms@.push(candidate),
            final(self).rects@ == old(self).rects@ + quarters(rect),
            final(self).history == old(self).history,
            final(self).starting_position == old(self).starting_position,
    {
        proof {
            let t1 = self.map.tile_at(candidate.x1 - 2, candidate.y1 - 2);
            let t2 = self.map.tile_at(candidate.x2 + 2, candidate.y2 + 2);
            let k = choose|k: int| 0 <= k < self.rects@.len() && #[trigger] self.rects@[k] == rect;
            assert(part_ok(&m0, self.rects@[k]));
        }
        let ghost old_rooms = self.rooms@;
        let ghost old_rects = self.rects@;
        apply_room_to_map(&mut self.map, &candidate);
        self.rooms.push(candidate);
        proof {
            assert(parts * 0x4000 <= 240 * 0x4000) by (nonlinear_arith) requires parts <= 240;
        }
        self.partition_rect(&rect);
        proof {
            let rs = self.rooms@;
            assert(rs[old_rooms.len() as int] == candidate);
            assert forall|i: int| 0 <= i < self.map.tiles@.len() implies #[trigger] self.map.tiles@[i]
                == (if exists|k: int| 0 <= k < rs.len() && #[trigger] room_has(&m0, rs, k, i) { TileType::Floor } else { m0.tiles@[i] }) by {
                if in_room(&m0, candidate, i) {
                    assert(room_has(&m0, rs, old_rooms.len() as int, i));
                }
                if exists|k: int| 0 <= k < old_rooms.len() && #[trigger] room_has(&m0, old_rooms, k, i) {
                    let k = choose|k: int| 0 <= k < old_rooms.len() && #[trigger] room_has(&m0, old_rooms, k, i);
                    assert(rs[k] == old_rooms[k]);
                    assert(room_has(&m0, rs, k, i));
                }
                if exists|k: int| 0 <= k < rs.len() && #[trigger] room_has(&m0, rs, k, i) {
                    let k = choose|k: int| 0 <= k < rs.len() && #[trigger] room_has(&m0, rs, k, i);
                    if k < old_rooms.len() {
                        assert(rs[k] == old_rooms[k]);
                        assert(room_has(&m0, old_rooms, k, i));
                    }
                }
            }
            assert forall|k: int| 0 <= k < rs.len() implies room_in_border(&m0, #[trigger] rs[k]) by {
                if k < old_rooms.len() { assert(rs[k] == old_rooms[k]); }
            }
            assert((parts + 1) * 0x4000 == parts * 0x4000 + 0x4000) by (nonlinear_arith);
            assert forall|k: int| 0 <= k < self.rects@.len() implies {
                &&& part_ok(&m0, #[trigger] self.rects@[k])
                &&& self.rects@[k].x1 <= 2 + (parts + 1) * 0x4000
                &&& self.rects@[k].y1 <= 2 + (parts + 1) * 0x4000
            } by {
                if k < old_rects.len() {
                    assert(self.rects@[k] == old_rects[k]);
                } else {
                    assert(self.rects@[k] == quarters(rect)[k - old_rects.len()]);
                }
            }
        }
    }

    /// Partitions the map inside a two-cell margin and, 240 times, picks a
    /// rectangle of the partition, tries a room in it and, where the room
    /// and the two cells around it are all wall inside the map's border,
    /// carves it, keeps it and partitions the rectangle further. The start
    /// goes to the centre of the first room. Returns `false`, with the start
    /// left where it was, when no room could be placed.
    pub fn build(&mut self, rng: &mut RandomNumberGenerator) -> (r: bool)
        requires
            old(self).map.wf(),
            6 <= old(self).map.width <= 0x4000,
            6 <= old(self).map.height <= 0x4000,
            old(self).rooms@.len() == 0,
        ensures
            final(self).map.wf(),
            only_tiles_changed(&old(self).map, &final(self).map),
            final(self).rooms@.len() <= 240,
            forall|k: int| 0 <= k < final(self).rooms@.len() ==> room_in_border(&old(self).map, #[trigger] final(self).rooms@[k]),
            tiles_set_where(old(self).map.tiles@, final(self).map.tiles@,
                |i: int| exists|k: int| 0 <= k < final(self).rooms@.len() && #[trigger] room_has(&old(self).map, final(self).rooms@, k, i),
                TileType::Floor),
            r == (final(self).rooms@.len() > 0),
            r ==> final(self).starting_position.x == final(self).rooms@[0].spec_center().0
                && final(self).starting_position.y == final(self).rooms@[0].spec_center().1,
            !r ==> final(self).starting_position == old(self).starting_position,
            final(self).rects@.len() == 5 + 4 * final(self).rooms@.len(),
            final(self).rects@[0] == (Rect { x1: 2, y1: 2, x2: (old(self).map.width - 3) as i32, y2: (old(self).map.height - 3) as i32 }),
            final(self).rects@.subrange(1, 5) == quarters(final(self).rects@[0]),
            final(self).history@.len() == old(self).history@.len() + final(self).rooms@.len(),
    {
        let ghost m0 = self.map;
        let w = self.map.width;
        let h = self.map.height;
        self.rects.clear();
        self.rects.push(Rect::new(2, 2, w - 5, h - 5));
        let first_room = self.rects[0];
        self.partition_rect(&first_room);
        let ghost mut parts: int = 1;
        let mut n_rooms: i32 = 0;
        proof {
            assert(self.rects@.len() == 5);
            assert forall|k: int| 0 <= k < self.rects@.len() implies {
                &&& part_ok(&m0, #[trigger] self.rects@[k])
                &&& self.rects@[k].x1 <= 2 + parts * 0x4000
                &&& self.rects@[k].y1 <= 2 + parts * 0x4000
            } by {
                if k > 0 {
                    assert(self.rects@[k] == quarters(first_room)[k - 1]);
                }
            }
            assert forall|i: int| 0 <= i < self.map.tiles@.len() implies #[trigger] self.map.tiles@[i]
                == (if exists|k: int| 0 <= k < self.rooms@.len() && #[trigger] room_has(&m0, self.rooms@, k, i) { TileType::Floor } else { m0.tiles@[i] }) by {
            }
        }
        let ghost first5 = self.rects@;
        let ghost h0 = self.history@.len();
        while n_rooms < 240
            invariant
                self.bsp_inv(m0, parts),
                first5.len() == 5,
                self.rects@.subrange(0, 5) == first5,
                first5[0] == first_room,
                first5.subrange(1, 5) == quarters(first_room),
                self.history@.len() == h0 + self.rooms@.len(),
                h0 == old(self).history@.len(),
                self.starting_position == old(self).starting_position,
                m0 == old(self).map,
                w == m0.width,
                h == m0.height,
                0 <= n_rooms <= 240,
                self.rooms@.len() <= n_rooms,
            decreases 240 - n_rooms,
        {
            let rect = self.get_random_rect(rng);
            proof {
                let k = choose|k: int| 0 <= k < self.rects@.len() && #[trigger] self.rects@[k] == rect;
                assert(part_ok(&m0, self.rects@[k]));
            }
            let candidate = self.get_room_candidate(&rect, rng);
            if self.is_possible(&candidate) {
                let ghost rects_before = self.rects@;
                self.add_room(rect, candidate, Ghost(m0), Ghost(parts));
                proof {
                    parts = parts + 1;
                    assert(self.rects@.subrange(0, 5) == rects_before.subrange(0, 5));
                }
                self.take_snapshot();
            }
            n_rooms = n_rooms + 1;
        }
        if self.rooms.len() > 0 {
            let first = self.rooms[0];
            assert(room_in_border(&m0, self.rooms@[0]));
            let (sx, sy) = first.center();
            self.starting_position = Position { x: sx, y: sy };
            true
        } else {
            false
        }
    }

    /// Records a copy of the map, fully revealed, in the history.
    pub fn take_snapshot(&mut self)
        ensures
            final(self).map == old(self).map,
            final(self).rects == old(self).rects,
            final(self).rooms == old(self).rooms,
            final(self).starting_position == old(self).starting_position,
            final(self).history@.len() == old(self).history@.len() + 1,
    {
        let mut snapshot = self.map.duplicate();
        let n = snapshot.revealed_tiles.len();
        for i in 0..n
            invariant
                n == snapshot.revealed_tiles.len(),
        {
            snapshot.revealed_tiles.set(i, true);
        }
        self.history.push(snapshot);
    }
}

} // verus!
