use vstd::prelude::*;
use rltk::RandomNumberGenerator;
use crate::astar::{a_star_search, path_sized, is_walk, can_step};
use crate::builders::{BuilderMap, MetaMapBuilder};
use crate::map::{TileMap, lemma_cell_index, lemma_index_cell, lemma_idx_injective};
use crate::point::{Point, distance_squared};
use crate::rng::roll_dice;
use crate::tile::{TileType, spec_tile_walkable, tile_walkable};

verus! {

/// The squared distance from cell `i` of the map to `(sx, sy)`.
pub open spec fn seed_distance(map: &TileMap, i: int, sx: int, sy: int) -> int {
    let w = map.width as int;
    (i % w - sx) * (i % w - sx) + (i / w - sy) * (i / w - sy)
}

/// `e` is the walkable cell nearest to `(sx, sy)`, the first in index order
/// among those equally near.
pub open spec fn is_nearest_walkable(map: &TileMap, sx: int, sy: int, e: int) -> bool {
    &&& 0 <= e < map.tiles@.len()
    &&& spec_tile_walkable(map.tiles@[e])
    &&& forall|j: int| 0 <= j < map.tiles@.len() && spec_tile_walkable(#[trigger] map.tiles@[j]) ==>
            seed_distance(map, j, sx, sy) >= seed_distance(map, e, sx, sy)
    &&& forall|j: int| 0 <= j < e && spec_tile_walkable(#[trigger] map.tiles@[j]) ==>
            seed_distance(map, j, sx, sy) > seed_distance(map, e, sx, sy)
}

/// Some cell of the map can be walked on.
pub open spec fn has_walkable(map: &TileMap) -> bool {
    exists|j: int| 0 <= j < map.tiles@.len() && spec_tile_walkable(#[trigger] map.tiles@[j])
}

/// Cell `(x, y)` is `p` or one of its four orthogonal neighbours.
pub open spec fn near_point(p: Point, x: int, y: int) -> bool {
    (x == p.x && y == p.y) || (x == p.x - 1 && y == p.y) || (x == p.x + 1 && y == p.y)
        || (x == p.x && y == p.y - 1) || (x == p.x && y == p.y + 1)
}

/// Cell `(x, y)` is on the path or next to one of its points.
pub open spec fn near_path(path: Seq<Point>, x: int, y: int) -> bool {
    exists|k: int| 0 <= k < path.len() && #[trigger] near_point(path[k], x, y)
}

/// Cell `(x, y)` is one of the path's points.
pub open spec fn on_path(path: Seq<Point>, x: int, y: int) -> bool {
    exists|k: int| 0 <= k < path.len() && #[trigger] path[k] == Point { x: x as i32, y: y as i32 }
}

/// Every point of the path lies on the map.
pub open spec fn path_on_map(map: &TileMap, path: Seq<Point>) -> bool {
    forall|k: int| 0 <= k < path.len() ==> map.in_bounds((#[trigger] path[k]).x as int, path[k].y as int)
}

pub proof fn lemma_walk_on_map(map: &TileMap, path: Seq<Point>, start: Point)
    requires
        is_walk(map, path),
        path[0] == start,
        map.in_bounds(start.x as int, start.y as int),
    ensures
        path_on_map(map, path),
{
    assert forall|k: int| 0 <= k < path.len() implies map.in_bounds((#[trigger] path[k]).x as int, path[k].y as int) by {
        if k < path.len() - 1 {
            assert(can_step(map, path[k], path[k + 1]));
        } else if k > 0 {
            let j = k - 1;
            assert(can_step(map, path[j], path[j + 1]));
        }
    }
}

/// Draws a road from the start to an exit near the middle of the east
/// edge, then puts a second exit in a corner and runs a stream from it.
pub struct YellowBrickRoad {}

fn any_walkable(map: &TileMap) -> (r: bool)
    ensures
        r == has_walkable(map),
{
    for j in 0..map.tiles.len()
        invariant
            forall|q: int| 0 <= q < j ==> !spec_tile_walkable(#[trigger] map.tiles@[q]),
    {
        if tile_walkable(map.tiles[j]) {
            return true;
        }
    }
    false
}

/// `b` is `a` after [`YellowBrickRoad::build`]: the road to an exit in the
/// east, and the stream from a corner exit.
pub open spec fn road_built(a: BuilderMap, b: BuilderMap) -> bool {
    &&& b.wf()
    &&& b.map.width == a.map.width
    &&& b.map.height == a.map.height
    &&& b.starting_position == a.starting_position
    &&& exists|e: int| #[trigger] is_nearest_walkable(&a.map,
            a.map.width - 1, a.map.height / 2, e)
            && b.map.tiles@[e] is DownStairs
    &&& forall|px: int, py: int| #![trigger b.map.tile_at(px, py)] a.map.in_bounds(px, py) ==> {
            let t = b.map.tile_at(px, py);
            t == a.map.tile_at(px, py) || t is Road || t is ShallowWater || t is DownStairs
        }
}

/// A map the road can be built on: a starting position on it and
/// something walkable.
pub open spec fn road_ground(a: BuilderMap) -> bool {
    &&& a.starting_position matches Some(p) && a.map.in_bounds(p.x as int, p.y as int)
    &&& has_walkable(&a.map)
}

impl MetaMapBuilder for YellowBrickRoad {
    /// Without a starting position on the map, or with nothing walkable
    /// (where no exit can be found), the map is left as it is.
    fn build_map(&mut self, rng: &mut RandomNumberGenerator, build_data: &mut BuilderMap)
        ensures
            road_ground(*old(build_data)) ==> road_built(*old(build_data), *final(build_data)),
            !road_ground(*old(build_data)) ==> *final(build_data) == *old(build_data),
    {
        let w = build_data.map.width;
        let h = build_data.map.height;
        let start_ok = match &build_data.starting_position {
            Some(p) => 0 <= p.x && p.x < w && 0 <= p.y && p.y < h,
            None => false,
        };
        if start_ok && any_walkable(&build_data.map) {
            self.build(rng, build_data);
        }
    }
}

impl YellowBrickRoad {
    pub fn new() -> (r: Box<YellowBrickRoad>) {
        Box::new(YellowBrickRoad {})
    }

    /// The walkable cell nearest to `(seed_x, seed_y)` (by squared
    /// distance), the first in index order among those equally near.
    pub fn find_exit(&self, map: &TileMap, seed_x: i32, seed_y: i32) -> (r: (i32, i32))
        requires
            map.wf(),
            map.width > 0,
            has_walkable(map),
        ensures
            exists|e: int| #[trigger] is_nearest_walkable(map, seed_x as int, seed_y as int, e)
                && r.0 == e % (map.width as int) && r.1 == e / (map.width as int),
            map.in_bounds(r.0 as int, r.1 as int),
    {
        let w = map.width;
        let n = map.tiles.len();
        let mut best: usize = 0;
        let mut best_d: i128 = 0;
        let mut found = false;
        let seed = Point::new(seed_x, seed_y);
        for idx in 0..n
            invariant
                map.wf(),
                w == map.width,
                w > 0,
                n == map.tiles@.len(),
                seed == (Point { x: seed_x, y: seed_y }),
                !found ==> forall|j: int| 0 <= j < idx ==> !spec_tile_walkable(#[trigger] map.tiles@[j]),
                found ==> {
                    &&& best < idx
                    &&& spec_tile_walkable(map.tiles@[best as int])
                    &&& best_d == seed_distance(map, best as int, seed_x as int, seed_y as int)
                    &&& forall|j: int| 0 <= j < idx && spec_tile_walkable(#[trigger] map.tiles@[j]) ==>
                            seed_distance(map, j, seed_x as int, seed_y as int) >= best_d
                    &&& forall|j: int| 0 <= j < best && spec_tile_walkable(#[trigger] map.tiles@[j]) ==>
                            seed_distance(map, j, seed_x as int, seed_y as int) > best_d
                },
        {
            if tile_walkable(map.tiles[idx]) {
                proof { lemma_index_cell(w as int, map.height as int, idx as int); }
                let x = (idx as i32) % w;
                let y = (idx as i32) / w;
                let d = distance_squared(Point::new(x, y), seed);
                if !found || d < best_d {
                    best = idx;
                    best_d = d;
                    found = true;
                }
            }
        }
        proof {
            let j = choose|j: int| 0 <= j < map.tiles@.len() && spec_tile_walkable(#[trigger] map.tiles@[j]);
            assert(found);
            lemma_index_cell(w as int, map.height as int, best as int);
            assert(is_nearest_walkable(map, seed_x as int, seed_y as int, best as int));
        }
        ((best as i32) % w, (best as i32) / w)
    }

    /// Turns the cell `(x, y)` into road, unless it is off the map or holds
    /// down stairs; nothing else changes.
    pub fn paint_road(&self, build_data: &mut BuilderMap, x: i32, y: i32)
        requires
            old(build_data).wf(),
        ensures
            final(build_data).wf(),
            final(build_data).map.width == old(build_data).map.width,
            final(build_data).map.height == old(build_data).map.height,
            final(build_data).map.blocked == old(build_data).map.blocked,
            final(build_data).starting_position == old(build_data).starting_position,
            final(build_data).map.tiles@ == (if old(build_data).map.in_bounds(x as int, y as int)
                && !(old(build_data).map.tile_at(x as int, y as int) is DownStairs) {
                old(build_data).map.tiles@.update(old(build_data).map.idx(x as int, y as int), TileType::Road)
            } else {
                old(build_data).map.tiles@
            }),
            forall|px: int, py: int| #![trigger final(build_data).map.tile_at(px, py)] old(build_data).map.in_bounds(px, py) ==>
                final(build_data).map.tile_at(px, py) == (if px == x && py == y && !(old(build_data).map.tile_at(px, py) is DownStairs) {
                    TileType::Road
                } else {
                    old(build_data).map.tile_at(px, py)
                }),
    {
        let ghost m0 = build_data.map;
        if x < 0 || x >= build_data.map.width || y < 0 || y >= build_data.map.height {
            return;
        }
        proof { lemma_cell_index(build_data.map.width as int, build_data.map.height as int, x as int, y as int); }
        let idx = build_data.map.xy_idx(x, y);
        if build_data.map.tiles[idx] != TileType::DownStairs {
            build_data.map.set_tile(idx, TileType::Road);
            proof {
                assert forall|px: int, py: int| #![trigger build_data.map.tile_at(px, py)] m0.in_bounds(px, py) implies
                    build_data.map.tile_at(px, py) == (if px == x && py == y && !(m0.tile_at(px, py) is DownStairs) {
                        TileType::Road
                    } else {
                        m0.tile_at(px, py)
                    }) by {
                    lemma_cell_index(m0.width as int, m0.height as int, px, py);
                    if m0.idx(px, py) == idx as int {
                        lemma_idx_injective(m0.width as int, px, py, x as int, y as int);
                    }
                }
            }
        }
    }

    /// Paves every point of the path and its four neighbours, leaving down
    /// stairs in place.
    fn pave(&self, build_data: &mut BuilderMap, path: &Vec<Point>)
        requires
            old(build_data).wf(),
            path_on_map(&old(build_data).map, path@),
        ensures
            final(build_data).wf(),
            final(build_data).map.width == old(build_data).map.width,
            final(build_data).map.height == old(build_data).map.height,
            final(build_data).map.blocked == old(build_data).map.blocked,
            final(build_data).starting_position == old(build_data).starting_position,
            final(build_data).map.tiles@.len() == old(build_data).map.tiles@.len(),
            forall|px: int, py: int| #![trigger final(build_data).map.tile_at(px, py)] old(build_data).map.in_bounds(px, py) ==>
                final(build_data).map.tile_at(px, py) == (if near_path(path@, px, py)
                    && !(old(build_data).map.tile_at(px, py) is DownStairs) {
                    TileType::Road
                } else {
                    old(build_data).map.tile_at(px, py)
                }),
    {
        let ghost m0 = build_data.map;
        for k in 0..path.len()
            invariant
                build_data.wf(),
                m0.wf(),
                m0 == old(build_data).map,
                path_on_map(&m0, path@),
                build_data.map.width == m0.width,
                build_data.map.height == m0.height,
                build_data.map.blocked == m0.blocked,
                build_data.starting_position == old(build_data).starting_position,
                build_data.map.tiles@.len() == m0.tiles@.len(),
                forall|px: int, py: int| #![trigger build_data.map.tile_at(px, py)] m0.in_bounds(px, py) ==>
                    build_data.map.tile_at(px, py) == (if near_path(path@.take(k as int), px, py)
                        && !(m0.tile_at(px, py) is DownStairs) {
                        TileType::Road
                    } else {
                        m0.tile_at(px, py)
                    }),
        {
            let p = path[k];
            assert(m0.in_bounds(path@[k as int].x as int, path@[k as int].y as int));
            let ghost b0 = build_data.map;
            self.paint_road(build_data, p.x, p.y);
            let ghost b1 = build_data.map;
            self.paint_road(build_data, p.x - 1, p.y);
            let ghost b2 = build_data.map;
            self.paint_road(build_data, p.x + 1, p.y);
            let ghost b3 = build_data.map;
            self.paint_road(build_data, p.x, p.y - 1);
            let ghost b4 = build_data.map;
            self.paint_road(build_data, p.x, p.y + 1);
            proof {
                let pk = path@.take(k + 1);
                assert forall|px: int, py: int| #![trigger build_data.map.tile_at(px, py)] m0.in_bounds(px, py) implies
                    build_data.map.tile_at(px, py) == (if near_path(pk, px, py) && !(m0.tile_at(px, py) is DownStairs) {
                        TileType::Road
                    } else {
                        m0.tile_at(px, py)
                    }) by {
                    let t0 = b0.tile_at(px, py);
                    let t1 = b1.tile_at(px, py);
                    let t2 = b2.tile_at(px, py);
                    let t3 = b3.tile_at(px, py);
                    let t4 = b4.tile_at(px, py);
                    assert(pk[k as int] == p);
                    if near_path(path@.take(k as int), px, py) {
                        let q = choose|q: int| 0 <= q < k && #[trigger] near_point(path@.take(k as int)[q], px, py);
                        assert(pk[q] == path@.take(k as int)[q]);
                        assert(near_point(pk[q], px, py));
                    }
                    if near_point(p, px, py) {
                        assert(near_point(pk[k as int], px, py));
                    }
                    if near_path(pk, px, py) {
                        let q = choose|q: int| 0 <= q < k + 1 && #[trigger] near_point(pk[q], px, py);
                        if q < k {
                            assert(pk[q] == path@.take(k as int)[q]);
                            assert(near_point(path@.take(k as int)[q], px, py));
                        }
                    }
                }
            }
        }
        proof { assert(path@.take(path@.len() as int) == path@); }
    }

    /// Turns into shallow water the floor cells on the path.
    fn flood(&self, build_data: &mut BuilderMap, path: &Vec<Point>)
        requires
            old(build_data).wf(),
            path_on_map(&old(build_data).map, path@),
        ensures
            final(build_data).wf(),
            final(build_data).map.width == old(build_data).map.width,
            final(build_data).map.height == old(build_data).map.height,
            final(build_data).map.blocked == old(build_data).map.blocked,
            final(build_data).starting_position == old(build_data).starting_position,
            final(build_data).map.tiles@.len() == old(build_data).map.tiles@.len(),
            forall|px: int, py: int| #![trigger final(build_data).map.tile_at(px, py)] old(build_data).map.in_bounds(px, py) ==>
                final(build_data).map.tile_at(px, py) == (if on_path(path@, px, py)
                    && old(build_data).map.tile_at(px, py) is Floor {
                    TileType::ShallowWater
                } else {
                    old(build_data).map.tile_at(px, py)
                }),
    {
        let ghost m0 = build_data.map;
        for k in 0..path.len()
            invariant
                build_data.wf(),
                m0.wf(),
                m0 == old(build_data).map,
                path_on_map(&m0, path@),
                build_data.map.width == m0.width,
                build_data.map.height == m0.height,
                build_data.map.blocked == m0.blocked,
                build_data.starting_position == old(build_data).starting_position,
                build_data.map.tiles@.len() == m0.tiles@.len(),
                forall|px: int, py: int| #![trigger build_data.map.tile_at(px, py)] m0.in_bounds(px, py) ==>
                    build_data.map.tile_at(px, py) == (if on_path(path@.take(k as int), px, py)
                        && m0.tile_at(px, py) is Floor {
                        TileType::ShallowWater
                    } else {
                        m0.tile_at(px, py)
                    }),
        {
            let p = path[k];
            assert(m0.in_bounds(path@[k as int].x as int, path@[k as int].y as int));
            proof { lemma_cell_index(m0.width as int, m0.height as int, p.x as int, p.y as int); }
            let idx = build_data.map.xy_idx(p.x, p.y);
            let ghost b0 = build_data.map;
            if build_data.map.tiles[idx] == TileType::Floor {
                build_data.map.set_tile(idx, TileType::ShallowWater);
            }
            proof {
                let pk = path@.take(k + 1);
                assert forall|px: int, py: int| #![trigger build_data.map.tile_at(px, py)] m0.in_bounds(px, py) implies
                    build_data.map.tile_at(px, py) == (if on_path(pk, px, py) && m0.tile_at(px, py) is Floor {
                        TileType::ShallowWater
                    } else {
                        m0.tile_at(px, py)
                    }) by {
                    lemma_cell_index(m0.width as int, m0.height as int, px, py);
                    let i = m0.idx(px, py);
                    assert(b0.tile_at(px, py) == b0.tiles@[i]);
                    if i == idx as int {
                        lemma_idx_injective(m0.width as int, px, py, p.x as int, p.y as int);
                    }
                    assert(pk[k as int] == p);
                    if on_path(path@.take(k as int), px, py) {
                        let q = choose|q: int| 0 <= q < k && #[trigger] path@.take(k as int)[q] == Point { x: px as i32, y: py as i32 };
                        assert(pk[q] == path@.take(k as int)[q]);
                    }
                    if px == p.x && py == p.y {
                        assert(pk[k as int] == Point { x: px as i32, y: py as i32 });
                    }
                    if on_path(pk, px, py) {
                        let q = choose|q: int| 0 <= q < k + 1 && #[trigger] pk[q] == Point { x: px as i32, y: py as i32 };
                        if q < k {
                            assert(pk[q] == path@.take(k as int)[q]);
                            assert(path@.take(k as int)[q] == Point { x: px as i32, y: py as i32 });
                        }
                    }
                }
            }
        }
        proof { assert(path@.take(path@.len() as int) == path@); }
    }

    /// Places down stairs on the walkable cell nearest the middle of the
    /// east edge and paves a road to it from the start (where one can be
    /// walked); then places down stairs on the walkable cell nearest a
    /// corner of the east edge picked at random, and turns into shallow
    /// water the floor along a path from there to the walkable cell nearest
    /// the opposite corner of the west edge. Returns `false`, with no stream
    /// drawn, when that path cannot be walked.
    pub fn build(&mut self, rng: &mut RandomNumberGenerator, build_data: &mut BuilderMap) -> (r: bool)
        requires
            old(build_data).wf(),
            path_sized(&old(build_data).map),
            old(build_data).starting_position matches Some(p) && old(build_data).map.in_bounds(p.x as int, p.y as int),
            has_walkable(&old(build_data).map),
        ensures
            final(build_data).wf(),
            final(build_data).map.width == old(build_data).map.width,
            final(build_data).map.height == old(build_data).map.height,
            final(build_data).starting_position == old(build_data).starting_position,
            exists|e: int| #[trigger] is_nearest_walkable(&old(build_data).map,
                old(build_data).map.width - 1, old(build_data).map.height / 2, e)
                && final(build_data).map.tiles@[e] is DownStairs,
            forall|px: int, py: int| #![trigger final(build_data).map.tile_at(px, py)] old(build_data).map.in_bounds(px, py) ==> {
                let t = final(build_data).map.tile_at(px, py);
                t == old(build_data).map.tile_at(px, py) || t is Road || t is ShallowWater || t is DownStairs
            },
    {
        let ghost m0 = build_data.map;
        let w = build_data.map.width;
        let h = build_data.map.height;
        let start = match &build_data.starting_position {
            Some(p) => *p,
            None => { return false; },
        };
        let (end_x, end_y) = self.find_exit(&build_data.map, w - 1, h / 2);
        let ghost e1 = choose|e: int| #[trigger] is_nearest_walkable(&m0, w - 1, h / 2, e)
            && end_x == e % (w as int) && end_y == e / (w as int);
        proof {
            lemma_index_cell(w as int, h as int, e1);
            lemma_cell_index(w as int, h as int, end_x as int, end_y as int);
        }
        let end_idx = build_data.map.xy_idx(end_x, end_y);
        build_data.map.set_tile(end_idx, TileType::DownStairs);
        build_data.map.populate_blocked();
        let ghost m1 = build_data.map;
        proof {
            assert forall|px: int, py: int| #![trigger m1.tile_at(px, py)] m0.in_bounds(px, py) implies {
                let t = m1.tile_at(px, py);
                t == m0.tile_at(px, py) || t is DownStairs
            } by {
                lemma_cell_index(w as int, h as int, px, py);
            }
            assert(m1.tile_at(end_x as int, end_y as int) is DownStairs);
        }
        match a_star_search(Point::new(start.x, start.y), Point::new(end_x, end_y), &build_data.map) {
            Some((path, _cost)) => {
                proof { lemma_walk_on_map(&build_data.map, path@, Point { x: start.x, y: start.y }); }
                self.pave(build_data, &path);
            },
            None => {},
        }
        let ghost m2 = build_data.map;
        proof {
            assert forall|px: int, py: int| #![trigger m2.tile_at(px, py)] m0.in_bounds(px, py) implies {
                let t = m2.tile_at(px, py);
                t == m0.tile_at(px, py) || t is Road || t is DownStairs
            } by {
                let t1 = m1.tile_at(px, py);
            }
            let t = m2.tile_at(end_x as int, end_y as int);
            assert(t is DownStairs);
            assert(m2.tiles@[end_idx as int] is DownStairs);
            assert(has_walkable(&m2));
        }
        build_data.take_snapshot();
        let exit_dir = roll_dice(rng, 1, 2);
        let (seed_x, seed_y, stream_startx, stream_starty) = if exit_dir == 1 {
            (w - 1, 0, 0, h - 1)
        } else {
            (w - 1, h - 1, 0, 0)
        };
        let (stairs_x, stairs_y) = self.find_exit(&build_data.map, seed_x, seed_y);
        proof { lemma_cell_index(w as int, h as int, stairs_x as int, stairs_y as int); }
        let stairs_idx = build_data.map.xy_idx(stairs_x, stairs_y);
        build_data.map.set_tile(stairs_idx, TileType::DownStairs);
        let ghost m3 = build_data.map;
        proof {
            assert forall|px: int, py: int| #![trigger m3.tile_at(px, py)] m0.in_bounds(px, py) implies {
                let t = m3.tile_at(px, py);
                &&& t == m0.tile_at(px, py) || t is Road || t is DownStairs
                &&& m2.tile_at(px, py) is DownStairs ==> t is DownStairs
            } by {
                lemma_cell_index(w as int, h as int, px, py);
                let t2 = m2.tile_at(px, py);
            }
            let t = m3.tile_at(stairs_x as int, stairs_y as int);
            assert(m3.tiles@[stairs_idx as int] is DownStairs);
            assert(has_walkable(&m3));
        }
        let (stream_x, stream_y) = self.find_exit(&build_data.map, stream_startx, stream_starty);
        let stream = a_star_search(Point::new(stairs_x, stairs_y), Point::new(stream_x, stream_y), &build_data.map);
        let ok = match stream {
            Some((path, _cost)) => {
                proof { lemma_walk_on_map(&build_data.map, path@, Point { x: stairs_x, y: stairs_y }); }
                self.flood(build_data, &path);
                true
            },
            None => false,
        };
        proof {
            let m4 = build_data.map;
            assert forall|px: int, py: int| #![trigger m4.tile_at(px, py)] m0.in_bounds(px, py) implies {
                let t = m4.tile_at(px, py);
                &&& t == m0.tile_at(px, py) || t is Road || t is ShallowWater || t is DownStairs
                &&& m3.tile_at(px, py) is DownStairs ==> t is DownStairs
            } by {
                let t3 = m3.tile_at(px, py);
            }
            let t = m4.tile_at(end_x as int, end_y as int);
            let t3 = m3.tile_at(end_x as int, end_y as int);
            assert(m4.tiles@[e1] is DownStairs);
        }
        build_data.take_snapshot();
        ok
    }
}

} // verus!
