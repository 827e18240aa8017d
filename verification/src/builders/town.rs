use vstd::prelude::*;
use std::collections::HashSet;
use rltk::RandomNumberGenerator;
use crate::builders::BuilderMap;
use crate::map::{TileMap, lemma_cell_index, lemma_index_cell, lemma_idx_injective};
use crate::astar::{a_star_search, is_walk, reachable, can_step};
use crate::builders::forest::{path_on_map, lemma_walk_on_map};
use crate::rng::roll_dice;
use crate::tile::{TileType, spec_tile_walkable};
use crate::components::Position;
use crate::point::{Point, distance_squared};

verus! {

broadcast use vstd::std_specs::hash::group_hash_axioms;

/// Builds a harbour town: grass, a coast with piers, a walled town of
/// buildings with doors, and roads between them.
pub struct TownBuilder {}

/// A map a town fits on: at least 40 cells wide and 12 high, and not too large.
pub open spec fn town_map_ok(map: &TileMap) -> bool {
    &&& map.wf()
    &&& 40 <= map.width <= 1000
    &&& 12 <= map.height <= 1000
}

/// A map buildings can be placed on: more than 32 cells wide (they stand
/// east of column 30) and at least one cell high.
pub open spec fn buildings_map_ok(map: &TileMap) -> bool {
    &&& map.wf()
    &&& 33 <= map.width
    &&& 1 <= map.height
}

/// The tiles of `b` are those of `a` but where `f` gives a tile, cell by cell.
pub open spec fn painted(a: &TileMap, b: &TileMap, f: spec_fn(int, int) -> Option<TileType>) -> bool {
    &&& b.tiles@.len() == a.tiles@.len()
    &&& forall|x: int, y: int| #![trigger b.tile_at(x, y)] a.in_bounds(x, y) ==>
        b.tile_at(x, y) == (match f(x, y) { Some(t) => t, None => a.tile_at(x, y) })
}

impl TownBuilder {
    pub fn new() -> (r: Box<TownBuilder>) {
        Box::new(TownBuilder {})
    }

    /// Covers the whole map with grass and records a snapshot.
    pub fn grass_layer(&mut self, build_data: &mut BuilderMap)
        requires
            old(build_data).wf(),
        ensures
            final(build_data).wf(),
            final(build_data).map.width == old(build_data).map.width,
            final(build_data).map.height == old(build_data).map.height,
            final(build_data).map.tiles@.len() == old(build_data).map.tiles@.len(),
            forall|i: int| 0 <= i < final(build_data).map.tiles@.len() ==> #[trigger] final(build_data).map.tiles@[i] is Grass,
            final(build_data).starting_position == old(build_data).starting_position,
            final(build_data).spawn_list == old(build_data).spawn_list,
    {
        let n = build_data.map.tiles.len();
        for i in 0..n
            invariant
                build_data.wf(),
                n == build_data.map.tiles@.len(),
                build_data.map.width == old(build_data).map.width,
                build_data.map.height == old(build_data).map.height,
                build_data.starting_position == old(build_data).starting_position,
                build_data.spawn_list == old(build_data).spawn_list,
                forall|j: int| 0 <= j < i ==> #[trigger] build_data.map.tiles@[j] is Grass,
        {
            build_data.map.set_tile(i, TileType::Grass);
        }
        build_data.take_snapshot();
    }
}

/// Sets the tiles of row `y` from column `x0` up to (not including) `x1` to `t`.
fn fill_row(build_data: &mut BuilderMap, y: i32, x0: i32, x1: i32, t: TileType)
    requires
        old(build_data).wf(),
        0 <= y < old(build_data).map.height,
        0 <= x0,
        x1 <= old(build_data).map.width,
    ensures
        final(build_data).wf(),
        final(build_data).map.width == old(build_data).map.width,
        final(build_data).map.height == old(build_data).map.height,
        final(build_data).map.blocked == old(build_data).map.blocked,
        final(build_data).map.visible_tiles == old(build_data).map.visible_tiles,
        final(build_data).starting_position == old(build_data).starting_position,
        final(build_data).spawn_list == old(build_data).spawn_list,
        painted(&old(build_data).map, &final(build_data).map,
            |px: int, py: int| if py == y && x0 <= px < x1 { Some(t) } else { None }),
{
    let ghost m0 = build_data.map;
    let w = build_data.map.width;
    let h = build_data.map.height;
    let mut x = x0;
    while x < x1
        invariant
            build_data.wf(),
            m0.wf(),
            m0 == old(build_data).map,
            build_data.map.width == w,
            build_data.map.height == h,
            w == m0.width,
            h == m0.height,
            build_data.map.blocked == m0.blocked,
            build_data.map.visible_tiles == m0.visible_tiles,
            build_data.starting_position == old(build_data).starting_position,
            build_data.spawn_list == old(build_data).spawn_list,
            0 <= y < h,
            0 <= x0,
            x1 <= w,
            x0 <= x,
            x <= x1 || x == x0,
            painted(&m0, &build_data.map, |px: int, py: int| if py == y && x0 <= px < x { Some(t) } else { None }),
        decreases x1 - x,
    {
        proof { lemma_cell_index(w as int, h as int, x as int, y as int); }
        let idx = build_data.map.xy_idx(x, y);
        let ghost b0 = build_data.map;
        build_data.map.set_tile(idx, t);
        proof {
            assert forall|px: int, py: int| #![trigger build_data.map.tile_at(px, py)] m0.in_bounds(px, py) implies
                build_data.map.tile_at(px, py) == (match (if py == y && x0 <= px < x + 1 { Some(t) } else { None }) {
                    Some(tt) => tt,
                    None => m0.tile_at(px, py),
                }) by {
                lemma_cell_index(w as int, h as int, px, py);
                let t0 = b0.tile_at(px, py);
                if m0.idx(px, py) == idx as int {
                    lemma_idx_injective(w as int, px, py, x as int, y as int);
                }
            }
        }
        x = x + 1;
    }
}

/// Cell `(x, y)` lies on pier `k`: on its row, from its start to four
/// cells past the water's edge.
pub open spec fn on_pier(widths: Seq<i32>, piers: Seq<(int, int)>, k: int, x: int, y: int) -> bool {
    &&& piers[k].0 == y
    &&& 0 <= y < widths.len()
    &&& piers[k].1 <= x < widths[y] + 4
}

/// The coast's tile at `(x, y)`: wooden pier, else deep water for the first
/// `widths[y]` cells of the row, else shallow water for three more cells.
pub open spec fn coast_tile(widths: Seq<i32>, piers: Seq<(int, int)>, x: int, y: int) -> Option<TileType> {
    if exists|k: int| 0 <= k < piers.len() && #[trigger] on_pier(widths, piers, k, x, y) {
        Some(TileType::WoodFloor)
    } else if 0 <= y < widths.len() && 0 <= x < widths[y] {
        Some(TileType::DeepWater)
    } else if 0 <= y < widths.len() && widths[y] <= x < widths[y] + 3 {
        Some(TileType::ShallowWater)
    } else {
        None
    }
}

/// The widths of the deep water follow the wave, 15 to 20 cells beyond it,
/// and there are 7 to 10 piers, each on a row of the map and starting 3 to
/// 8 cells from the west edge.
pub open spec fn coast_ok(wave: Seq<i32>, widths: Seq<i32>, piers: Seq<(int, int)>, height: int) -> bool {
    &&& widths.len() == height
    &&& forall|y: int| 0 <= y < height ==> wave[y] + 15 <= #[trigger] widths[y] <= wave[y] + 20
    &&& 7 <= piers.len() <= 10
    &&& forall|k: int| 0 <= k < piers.len() ==> 0 <= (#[trigger] piers[k]).0 < height && 3 <= piers[k].1 <= 8
}

impl TownBuilder {
    /// Floods the west of the map: each row gets deep water as wide as the
    /// wave's value plus 14 plus a d6, then three cells of shallow water;
    /// then 7 to 10 wooden piers run from a few cells off the west edge to
    /// four cells past the water, on random rows. `wave` holds, for each
    /// row, the sine of the coast's phase times ten, cut to an integer.
    /// Gives back the width of the deep water on each row.
    pub fn water_and_piers(&mut self, rng: &mut RandomNumberGenerator, build_data: &mut BuilderMap, wave: &Vec<i32>) -> (r: Vec<i32>)
        requires
            old(build_data).wf(),
            old(build_data).map.width >= 34,
            old(build_data).map.height >= 1,
            wave@.len() == old(build_data).map.height,
            forall|y: int| 0 <= y < wave@.len() ==> -10 <= #[trigger] wave@[y] <= 10,
        ensures
            final(build_data).wf(),
            final(build_data).map.width == old(build_data).map.width,
            final(build_data).map.height == old(build_data).map.height,
            final(build_data).map.blocked == old(build_data).map.blocked,
            final(build_data).map.visible_tiles == old(build_data).map.visible_tiles,
            final(build_data).starting_position == old(build_data).starting_position,
            final(build_data).spawn_list == old(build_data).spawn_list,
            exists|piers: Seq<(int, int)>| #[trigger] coast_ok(wave@, r@, piers, old(build_data).map.height as int)
                && painted(&old(build_data).map, &final(build_data).map, |x: int, y: int| coast_tile(r@, piers, x, y)),
    {
        let ghost m0 = build_data.map;
        let h = build_data.map.height;
        let mut water_width: Vec<i32> = Vec::new();
        let mut y: i32 = 0;
        while y < h
            invariant
                build_data.wf(),
                m0 == old(build_data).map,
                m0.wf(),
                build_data.map.width == m0.width,
                build_data.map.height == h,
                h == m0.height,
                m0.width >= 34,
                wave@.len() == h,
                forall|yy: int| 0 <= yy < wave@.len() ==> -10 <= #[trigger] wave@[yy] <= 10,
                build_data.map.blocked == m0.blocked,
                build_data.map.visible_tiles == m0.visible_tiles,
                build_data.starting_position == old(build_data).starting_position,
                build_data.spawn_list == old(build_data).spawn_list,
                0 <= y <= h,
                water_width@.len() == y,
                forall|yy: int| 0 <= yy < y ==> wave@[yy] + 15 <= #[trigger] water_width@[yy] <= wave@[yy] + 20,
                painted(&m0, &build_data.map, |x: int, yy: int| coast_tile(water_width@, Seq::<(int, int)>::empty(), x, yy)),
            decreases h - y,
        {
            let n_water = wave[y as usize] + 14 + roll_dice(rng, 1, 6);
            let ghost ww = water_width@;
            water_width.push(n_water);
            let ghost b0 = build_data.map;
            fill_row(build_data, y, 0, n_water, TileType::DeepWater);
            let ghost b1 = build_data.map;
            fill_row(build_data, y, n_water, n_water + 3, TileType::ShallowWater);
            proof {
                let wv = water_width@;
                assert forall|x: int, yy: int| #![trigger build_data.map.tile_at(x, yy)] m0.in_bounds(x, yy) implies
                    build_data.map.tile_at(x, yy) == (match coast_tile(wv, Seq::<(int, int)>::empty(), x, yy) {
                        Some(t) => t,
                        None => m0.tile_at(x, yy),
                    }) by {
                    let t0 = b0.tile_at(x, yy);
                    let t1 = b1.tile_at(x, yy);
                    if yy < y {
                        assert(wv[yy] == ww[yy]);
                    }
                }
            }
            y = y + 1;
        }
        build_data.take_snapshot();
        let ghost mid = build_data.map;
        let ghost mut piers: Seq<(int, int)> = Seq::empty();
        let n_piers = roll_dice(rng, 1, 4) + 6;
        let mut i: i32 = 0;
        while i < n_piers
            invariant
                build_data.wf(),
                m0 == old(build_data).map,
                m0.wf(),
                build_data.map.width == m0.width,
                build_data.map.height == h,
                h == m0.height,
                h >= 1,
                m0.width >= 34,
                wave@.len() == h,
                forall|yy: int| 0 <= yy < wave@.len() ==> -10 <= #[trigger] wave@[yy] <= 10,
                build_data.map.blocked == m0.blocked,
                build_data.map.visible_tiles == m0.visible_tiles,
                build_data.starting_position == old(build_data).starting_position,
                build_data.spawn_list == old(build_data).spawn_list,
                water_width@.len() == h,
                forall|yy: int| 0 <= yy < h ==> wave@[yy] + 15 <= #[trigger] water_width@[yy] <= wave@[yy] + 20,
                7 <= n_piers <= 10,
                0 <= i <= n_piers,
                piers.len() == i,
                forall|k: int| 0 <= k < piers.len() ==> 0 <= (#[trigger] piers[k]).0 < h && 3 <= piers[k].1 <= 8,
                painted(&m0, &build_data.map, |x: int, yy: int| coast_tile(water_width@, piers, x, yy)),
            decreases n_piers - i,
        {
            let py = roll_dice(rng, 1, h) - 1;
            let px = 2 + roll_dice(rng, 1, 6);
            let end = water_width[py as usize] + 4;
            let ghost b0 = build_data.map;
            let ghost old_piers = piers;
            fill_row(build_data, py, px, end, TileType::WoodFloor);
            proof {
                piers = piers.push((py as int, px as int));
                let wv = water_width@;
                assert forall|x: int, yy: int| #![trigger build_data.map.tile_at(x, yy)] m0.in_bounds(x, yy) implies
                    build_data.map.tile_at(x, yy) == (match coast_tile(wv, piers, x, yy) {
                        Some(t) => t,
                        None => m0.tile_at(x, yy),
                    }) by {
                    let t0 = b0.tile_at(x, yy);
                    assert(piers[old_piers.len() as int] == (py as int, px as int));
                    if yy == py && px <= x < end {
                        assert(on_pier(wv, piers, old_piers.len() as int, x, yy));
                    }
                    if exists|k: int| 0 <= k < old_piers.len() && #[trigger] on_pier(wv, old_piers, k, x, yy) {
                        let k = choose|k: int| 0 <= k < old_piers.len() && #[trigger] on_pier(wv, old_piers, k, x, yy);
                        assert(piers[k] == old_piers[k]);
                        assert(on_pier(wv, piers, k, x, yy));
                    }
                    if exists|k: int| 0 <= k < piers.len() && #[trigger] on_pier(wv, piers, k, x, yy) {
                        let k = choose|k: int| 0 <= k < piers.len() && #[trigger] on_pier(wv, piers, k, x, yy);
                        if k < old_piers.len() {
                            assert(piers[k] == old_piers[k]);
                            assert(on_pier(wv, old_piers, k, x, yy));
                        }
                    }
                }
                assert forall|k: int| 0 <= k < piers.len() implies 0 <= (#[trigger] piers[k]).0 < h && 3 <= piers[k].1 <= 8 by {
                    if k < old_piers.len() {
                        assert(piers[k] == old_piers[k]);
                    }
                }
            }
            build_data.take_snapshot();
            i = i + 1;
        }
        proof {
            assert(coast_ok(wave@, water_width@, piers, h as int));
        }
        water_width
    }
}

/// Sets the tile at `(x, y)`.
fn set_cell(build_data: &mut BuilderMap, x: i32, y: i32, t: TileType)
    requires
        old(build_data).wf(),
        old(build_data).map.in_bounds(x as int, y as int),
    ensures
        final(build_data).wf(),
        final(build_data).map.width == old(build_data).map.width,
        final(build_data).map.height == old(build_data).map.height,
        final(build_data).map.blocked == old(build_data).map.blocked,
        final(build_data).map.visible_tiles == old(build_data).map.visible_tiles,
        final(build_data).starting_position == old(build_data).starting_position,
        final(build_data).spawn_list == old(build_data).spawn_list,
        painted(&old(build_data).map, &final(build_data).map,
            |px: int, py: int| if px == x && py == y { Some(t) } else { None }),
{
    fill_row(build_data, y, x, x + 1, t);
}

/// Row `y` lies in the gap of the town's west wall around row `gap`.
pub open spec fn in_gap(y: int, gap: int) -> bool {
    gap - 4 < y < gap + 4
}

/// The tile the town's walls put at `(x, y)` on a `w` by `h` map with the
/// opening around row `gap`: on rows 1 to `h - 3`, outside the gap, a floor cell
/// at column 29, walls at columns 30 and `w - 2` and gravel between them;
/// in the gap, road from column 30 east; and walls along rows 1 and `h - 2`
/// from column 30 to `w - 2`.
pub open spec fn wall_tile(w: int, h: int, gap: int, x: int, y: int) -> Option<TileType> {
    if (y == 1 || y == h - 2) && 30 <= x < w - 1 {
        Some(TileType::Wall)
    } else if 1 <= y < h - 2 && !in_gap(y, gap) {
        if x == 29 {
            Some(TileType::Floor)
        } else if x == 30 || x == w - 2 {
            Some(TileType::Wall)
        } else if 31 <= x < w - 2 {
            Some(TileType::Gravel)
        } else {
            None
        }
    } else if 1 <= y < h - 2 && 30 <= x < w {
        Some(TileType::Road)
    } else {
        None
    }
}

/// Cell `i` of a `w` by `h` map is gravel inside the walls where a building
/// may go: columns 31 to `w - 3`, rows 3 to `h - 3`, outside the gap.
pub open spec fn building_ground(w: int, h: int, gap: int, i: int) -> bool {
    let x = i % w;
    let y = i / w;
    &&& 0 <= i < w * h
    &&& 31 <= x < w - 2
    &&& 3 <= y <= h - 3
    &&& !in_gap(y, gap)
}

impl TownBuilder {
    /// Walls the town in, east of column 29, leaving a gap with a road
    /// through it around a random row, and records snapshots. Gives back
    /// the cells where buildings may go and the gap's row.
    pub fn town_walls(&mut self, rng: &mut RandomNumberGenerator, build_data: &mut BuilderMap) -> (r: (HashSet<usize>, i32))
        requires
            old(build_data).wf(),
            town_map_ok(&old(build_data).map),
        ensures
            final(build_data).wf(),
            final(build_data).map.width == old(build_data).map.width,
            final(build_data).map.height == old(build_data).map.height,
            final(build_data).map.blocked == old(build_data).map.blocked,
            final(build_data).map.visible_tiles == old(build_data).map.visible_tiles,
            final(build_data).starting_position == old(build_data).starting_position,
            final(build_data).spawn_list == old(build_data).spawn_list,
            6 <= r.1 <= old(build_data).map.height - 4,
            painted(&old(build_data).map, &final(build_data).map,
                |x: int, y: int| wall_tile(old(build_data).map.width as int, old(build_data).map.height as int, r.1 as int, x, y)),
            forall|i: usize| #[trigger] r.0@.contains(i) <==> building_ground(old(build_data).map.width as int,
                old(build_data).map.height as int, r.1 as int, i as int),
    {
        let ghost m0 = build_data.map;
        let w = build_data.map.width;
        let h = build_data.map.height;
        let wall_gap_y = roll_dice(rng, 1, h - 9) + 5;
        let mut available: HashSet<usize> = HashSet::new();
        let mut y: i32 = 1;
        while y < h - 2
            invariant
                build_data.wf(),
                m0 == old(build_data).map,
                town_map_ok(&m0),
                build_data.map.width == w,
                build_data.map.height == h,
                w == m0.width,
                h == m0.height,
                6 <= wall_gap_y <= h - 4,
                build_data.map.blocked == m0.blocked,
                build_data.map.visible_tiles == m0.visible_tiles,
                build_data.starting_position == old(build_data).starting_position,
                build_data.spawn_list == old(build_data).spawn_list,
                1 <= y <= h - 2,
                painted(&m0, &build_data.map, |x: int, yy: int| if yy < y {
                    if 1 <= yy < h - 2 && !in_gap(yy, wall_gap_y as int) {
                        if x == 29 { Some(TileType::Floor) } else if x == 30 || x == w - 2 { Some(TileType::Wall) }
                        else if 31 <= x < w - 2 { Some(TileType::Gravel) } else { None }
                    } else if 1 <= yy < h - 2 && 30 <= x < w { Some(TileType::Road) } else { None }
                } else { None }),
                forall|i: usize| #[trigger] available@.contains(i) <==> (building_ground(w as int, h as int, wall_gap_y as int, i as int)
                    && (i as int) / (w as int) < y),
            decreases h - 2 - y,
        {
            let ghost b0 = build_data.map;
            let ghost a0 = available@;
            if !(y > wall_gap_y - 4 && y < wall_gap_y + 4) {
                set_cell(build_data, 30, y, TileType::Wall);
                let ghost b1 = build_data.map;
                set_cell(build_data, 29, y, TileType::Floor);
                let ghost b2 = build_data.map;
                set_cell(build_data, w - 2, y, TileType::Wall);
                let ghost b3 = build_data.map;
                fill_row(build_data, y, 31, w - 2, TileType::Gravel);
                proof {
                    assert forall|x: int, yy: int| #![trigger build_data.map.tile_at(x, yy)] m0.in_bounds(x, yy) implies
                        build_data.map.tile_at(x, yy) == (match (if yy < y + 1 {
                            if 1 <= yy < h - 2 && !in_gap(yy, wall_gap_y as int) {
                                if x == 29 { Some(TileType::Floor) } else if x == 30 || x == w - 2 { Some(TileType::Wall) }
                                else if 31 <= x < w - 2 { Some(TileType::Gravel) } else { None }
                            } else if 1 <= yy < h - 2 && 30 <= x < w { Some(TileType::Road) } else { None }
                        } else { None }) {
                            Some(t) => t,
                            None => m0.tile_at(x, yy),
                        }) by {
                        let t0 = b0.tile_at(x, yy);
                        let t1 = b1.tile_at(x, yy);
                        let t2 = b2.tile_at(x, yy);
                        let t3 = b3.tile_at(x, yy);
                    }
                }
                if y > 2 && y < h - 1 {
                    let mut x: i32 = 31;
                    while x < w - 2
                        invariant
                            town_map_ok(&m0),
                            w == m0.width,
                            h == m0.height,
                            6 <= wall_gap_y <= h - 4,
                            3 <= y < h - 2,
                            !in_gap(y as int, wall_gap_y as int),
                            31 <= x <= w - 2,
                            forall|i: usize| #[trigger] available@.contains(i) <==> (building_ground(w as int, h as int, wall_gap_y as int, i as int)
                                && ((i as int) / (w as int) < y || ((i as int) / (w as int) == y && (i as int) % (w as int) < x))),
                        decreases w - 2 - x,
                    {
                        proof { lemma_cell_index(w as int, h as int, x as int, y as int); }
                        let idx = (y as usize) * (w as usize) + (x as usize);
                        let ghost s0 = available@;
                        available.insert(idx);
                        proof {
                            vstd::arithmetic::div_mod::lemma_fundamental_div_mod_converse(idx as int, w as int, y as int, x as int);
                            assert forall|i: usize| #[trigger] available@.contains(i) <==> (building_ground(w as int, h as int, wall_gap_y as int, i as int)
                                && ((i as int) / (w as int) < y || ((i as int) / (w as int) == y && (i as int) % (w as int) < x + 1))) by {
                                if i == idx {
                                } else {
                                    assert(available@.contains(i) == s0.contains(i));
                                    if (i as int) / (w as int) == y && (i as int) % (w as int) == x {
                                        vstd::arithmetic::div_mod::lemma_fundamental_div_mod(i as int, w as int);
                                        assert(i as int == (y as int) * (w as int) + x as int) by (nonlinear_arith)
                                            requires
                                                i as int == (w as int) * ((i as int) / (w as int)) + (i as int) % (w as int),
                                                (i as int) / (w as int) == y,
                                                (i as int) % (w as int) == x;
                                        assert(false);
                                    }
                                }
                            }
                        }
                        x = x + 1;
                    }
                }
            } else {
                fill_row(build_data, y, 30, w, TileType::Road);
                proof {
                    assert forall|x: int, yy: int| #![trigger build_data.map.tile_at(x, yy)] m0.in_bounds(x, yy) implies
                        build_data.map.tile_at(x, yy) == (match (if yy < y + 1 {
                            if 1 <= yy < h - 2 && !in_gap(yy, wall_gap_y as int) {
                                if x == 29 { Some(TileType::Floor) } else if x == 30 || x == w - 2 { Some(TileType::Wall) }
                                else if 31 <= x < w - 2 { Some(TileType::Gravel) } else { None }
                            } else if 1 <= yy < h - 2 && 30 <= x < w { Some(TileType::Road) } else { None }
                        } else { None }) {
                            Some(t) => t,
                            None => m0.tile_at(x, yy),
                        }) by {
                        let t0 = b0.tile_at(x, yy);
                    }
                }
            }
            proof {
                assert forall|i: usize| #[trigger] available@.contains(i) <==> (building_ground(w as int, h as int, wall_gap_y as int, i as int)
                    && (i as int) / (w as int) < y + 1) by {
                    if building_ground(w as int, h as int, wall_gap_y as int, i as int) && (i as int) / (w as int) == y {
                        assert((i as int) % (w as int) < w - 2);
                    }
                }
            }
            y = y + 1;
        }
        build_data.take_snapshot();
        let ghost mid = build_data.map;
        fill_row(build_data, 1, 30, w - 1, TileType::Wall);
        let ghost mid2 = build_data.map;
        fill_row(build_data, h - 2, 30, w - 1, TileType::Wall);
        proof {
            assert forall|x: int, yy: int| #![trigger build_data.map.tile_at(x, yy)] m0.in_bounds(x, yy) implies
                build_data.map.tile_at(x, yy) == (match wall_tile(w as int, h as int, wall_gap_y as int, x, yy) {
                    Some(t) => t,
                    None => m0.tile_at(x, yy),
                }) by {
                let t0 = mid.tile_at(x, yy);
                let t1 = mid2.tile_at(x, yy);
            }
            assert forall|i: usize| #[trigger] available@.contains(i) <==> building_ground(w as int, h as int, wall_gap_y as int, i as int) by {
                if building_ground(w as int, h as int, wall_gap_y as int, i as int) {
                    assert((i as int) / (w as int) <= h - 3);
                }
            }
        }
        build_data.take_snapshot();
        (available, wall_gap_y)
    }
}

/// Cell `(x, y)` lies in the building `(bx, by, bw, bh)`.
pub open spec fn in_building(b: (i32, i32, i32, i32), x: int, y: int) -> bool {
    b.0 <= x < b.0 + b.2 && b.1 <= y < b.1 + b.3
}

/// Cell `(x, y)` lies in one of the buildings.
pub open spec fn in_any_building(bs: Seq<(i32, i32, i32, i32)>, x: int, y: int) -> bool {
    exists|k: int| 0 <= k < bs.len() && #[trigger] in_building(bs[k], x, y)
}

/// The tile at `(x, y)` once the buildings' floors are laid.
pub open spec fn floored(map: &TileMap, bs: Seq<(i32, i32, i32, i32)>, x: int, y: int) -> TileType {
    if in_any_building(bs, x, y) { TileType::WoodFloor } else { map.tile_at(x, y) }
}

/// The tile at `(x, y)` once the buildings are outlined: inside the town,
/// a wooden floor cell next to a cell that is not wooden floor becomes wall.
pub open spec fn outlined(map: &TileMap, bs: Seq<(i32, i32, i32, i32)>, x: int, y: int) -> TileType {
    let f = floored(map, bs, x, y);
    if 33 <= x < map.width - 2 && 2 <= y < map.height - 2 && f is WoodFloor && (
        !(floored(map, bs, x - 1, y) is WoodFloor) || !(floored(map, bs, x + 1, y) is WoodFloor)
        || !(floored(map, bs, x, y - 1) is WoodFloor) || !(floored(map, bs, x, y + 1) is WoodFloor)) {
        TileType::Wall
    } else {
        f
    }
}

/// Cell `(x, y)`, and the cells just before and after it and just above
/// and below it in row-by-row order, are not in the set `s` of indices.
pub open spec fn cell_cleared(map: &TileMap, s: Set<usize>, x: int, y: int) -> bool {
    let i = map.idx(x, y);
    let w = map.width as int;
    &&& !s.contains(i as usize)
    &&& !s.contains((i + 1) as usize)
    &&& !s.contains((i + w) as usize)
    &&& !s.contains((i - 1) as usize)
    &&& !s.contains((i - w) as usize)
}

/// Every cell of building `b` is cleared from `s`, with its neighbours.
pub open spec fn building_cleared(map: &TileMap, s: Set<usize>, b: (i32, i32, i32, i32)) -> bool {
    forall|x: int, y: int| #![trigger in_building(b, x, y)] in_building(b, x, y) ==> cell_cleared(map, s, x, y)
}

/// No cell of one building is a cell of the other or shares a side with one.
pub open spec fn buildings_apart(b1: (i32, i32, i32, i32), b2: (i32, i32, i32, i32)) -> bool {
    forall|x1: int, y1: int, x2: int, y2: int| #![trigger in_building(b1, x1, y1), in_building(b2, x2, y2)]
        in_building(b1, x1, y1) && in_building(b2, x2, y2) ==> {
            &&& !(x1 == x2 && y1 == y2)
            &&& !(x1 == x2 && (y1 - y2 == 1 || y2 - y1 == 1))
            &&& !(y1 == y2 && (x1 - x2 == 1 || x2 - x1 == 1))
        }
}

/// A building placed on cells that are free in `s` keeps clear of a
/// building whose cells and neighbours are off `s`.
proof fn lemma_fit_keeps_apart(map: &TileMap, s: Set<usize>, b1: (i32, i32, i32, i32), b2: (i32, i32, i32, i32))
    requires
        map.wf(),
        building_cleared(map, s, b1),
        building_fits(map, s, b2),
    ensures
        buildings_apart(b1, b2),
{
    let w = map.width as int;
    assert forall|x1: int, y1: int, x2: int, y2: int| in_building(b1, x1, y1) && in_building(b2, x2, y2) implies {
        &&& !(x1 == x2 && y1 == y2)
        &&& !(x1 == x2 && (y1 - y2 == 1 || y2 - y1 == 1))
        &&& !(y1 == y2 && (x1 - x2 == 1 || x2 - x1 == 1))
    } by {
        assert((y1 + 1) * w == y1 * w + w) by (nonlinear_arith);
        assert((y1 - 1) * w == y1 * w - w) by (nonlinear_arith);
        assert(cell_cleared(map, s, x1, y1));
        assert(s.contains(map.idx(x2, y2) as usize));
    }
}

/// A building that can be placed: every cell on the map and still free.
pub open spec fn building_fits(map: &TileMap, available: Set<usize>, b: (i32, i32, i32, i32)) -> bool {
    forall|x: int, y: int| #![trigger in_building(b, x, y)] in_building(b, x, y) ==>
        map.in_bounds(x, y) && available.contains(map.idx(x, y) as usize)
}

fn building_possible(map: &TileMap, available: &HashSet<usize>, b: (i32, i32, i32, i32)) -> (r: bool)
    requires
        map.wf(),
        31 <= b.0 <= 0x4000,
        -1 <= b.1 <= 0x4000,
        5 <= b.2 <= 12,
        5 <= b.3 <= 12,
    ensures
        r == building_fits(map, available@, b),
{
    let (bx, by, bw, bh) = b;
    let mut possible = true;
    let mut y = by;
    while y < by + bh
        invariant
            map.wf(),
            b == (bx, by, bw, bh),
            31 <= bx <= 0x4000,
            -1 <= by <= 0x4000,
            5 <= bw <= 12,
            5 <= bh <= 12,
            by <= y <= by + bh,
            possible == forall|x: int, yy: int| #![trigger in_building(b, x, yy)] in_building(b, x, yy) && yy < y ==>
                map.in_bounds(x, yy) && available@.contains(map.idx(x, yy) as usize),
        decreases by + bh - y,
    {
        let mut x = bx;
        while x < bx + bw
            invariant
                map.wf(),
                b == (bx, by, bw, bh),
                31 <= bx <= 0x4000,
                -1 <= by <= 0x4000,
                5 <= bw <= 12,
                5 <= bh <= 12,
                by <= y < by + bh,
                bx <= x <= bx + bw,
                possible == forall|xx: int, yy: int| #![trigger in_building(b, xx, yy)] in_building(b, xx, yy)
                    && (yy < y || (yy == y && xx < x)) ==>
                    map.in_bounds(xx, yy) && available@.contains(map.idx(xx, yy) as usize),
            decreases bx + bw - x,
        {
            if x < 0 || x > map.width - 1 || y < 0 || y > map.height - 1 {
                possible = false;
                proof { assert(in_building(b, x as int, y as int)); }
            } else {
                proof { lemma_cell_index(map.width as int, map.height as int, x as int, y as int); }
                let idx = map.xy_idx(x, y);
                if !available.contains(&idx) {
                    possible = false;
                    proof { assert(in_building(b, x as int, y as int)); }
                }
            }
            x = x + 1;
        }
        y = y + 1;
    }
    possible
}

impl TownBuilder {
    /// Tries up to 2000 times to place a building of 5 to 12 cells each way
    /// on free ground inside the walls, until 12 are placed; lays each
    /// one's wooden floor and takes its cells and their neighbours off the
    /// free ground, so that no two buildings overlap or touch side by side;
    /// then outlines the buildings with walls. Gives back the buildings
    /// placed, as `(x, y, width, height)`.
    pub fn buildings(&mut self, rng: &mut RandomNumberGenerator, build_data: &mut BuilderMap,
        available_building_tiles: &mut HashSet<usize>) -> (r: Vec<(i32, i32, i32, i32)>)
        requires
            old(build_data).wf(),
            buildings_map_ok(&old(build_data).map),
            forall|i: usize| #[trigger] old(available_building_tiles)@.contains(i) ==> (i as int) >= old(build_data).map.width,
        ensures
            final(build_data).wf(),
            final(build_data).map.width == old(build_data).map.width,
            final(build_data).map.height == old(build_data).map.height,
            final(build_data).map.blocked == old(build_data).map.blocked,
            final(build_data).map.visible_tiles == old(build_data).map.visible_tiles,
            final(build_data).starting_position == old(build_data).starting_position,
            final(build_data).spawn_list == old(build_data).spawn_list,
            r@.len() <= 12,
            forall|k: int| 0 <= k < r@.len() ==> {
                &&& 31 <= (#[trigger] r@[k]).0 <= old(build_data).map.width - 2
                &&& -1 <= r@[k].1 <= old(build_data).map.height - 2
                &&& 5 <= r@[k].2 <= 12
                &&& 5 <= r@[k].3 <= 12
                &&& building_fits(&old(build_data).map, old(available_building_tiles)@, r@[k])
            },
            final(available_building_tiles)@.subset_of(old(available_building_tiles)@),
            forall|k: int| 0 <= k < r@.len() ==> building_cleared(&old(build_data).map, final(available_building_tiles)@, #[trigger] r@[k]),
            forall|k1: int, k2: int| 0 <= k1 < k2 < r@.len() ==> buildings_apart(#[trigger] r@[k1], #[trigger] r@[k2]),
            final(build_data).map.tiles@.len() == old(build_data).map.tiles@.len(),
            forall|x: int, y: int| #![trigger final(build_data).map.tile_at(x, y)] old(build_data).map.in_bounds(x, y) ==>
                final(build_data).map.tile_at(x, y) == outlined(&old(build_data).map, r@, x, y),
    {
        let ghost m0 = build_data.map;
        let ghost a0 = available_building_tiles@;
        let w = build_data.map.width;
        let h = build_data.map.height;
        let mut buildings: Vec<(i32, i32, i32, i32)> = Vec::new();
        let mut n_buildings: i32 = 0;
        let mut n_attempts: i32 = 0;
        while n_buildings < 12 && n_attempts < 2000
            invariant
                build_data.wf(),
                m0 == old(build_data).map,
                buildings_map_ok(&m0),
                a0 == old(available_building_tiles)@,
                forall|i: usize| #[trigger] a0.contains(i) ==> (i as int) >= w,
                build_data.map.width == w,
                build_data.map.height == h,
                w == m0.width,
                h == m0.height,
                build_data.map.blocked == m0.blocked,
                build_data.map.visible_tiles == m0.visible_tiles,
                build_data.starting_position == old(build_data).starting_position,
                build_data.spawn_list == old(build_data).spawn_list,
                build_data.map.tiles@.len() == m0.tiles@.len(),
                0 <= n_buildings <= 12,
                0 <= n_attempts <= 2000,
                buildings@.len() == n_buildings,
                available_building_tiles@.subset_of(a0),
                forall|k: int| 0 <= k < buildings@.len() ==> {
                    &&& 31 <= (#[trigger] buildings@[k]).0 <= w - 2
                    &&& -1 <= buildings@[k].1 <= h - 2
                    &&& 5 <= buildings@[k].2 <= 12
                    &&& 5 <= buildings@[k].3 <= 12
                    &&& building_fits(&m0, a0, buildings@[k])
                },
                forall|k: int| 0 <= k < buildings@.len() ==> building_cleared(&m0, available_building_tiles@, #[trigger] buildings@[k]),
                forall|k1: int, k2: int| 0 <= k1 < k2 < buildings@.len() ==> buildings_apart(#[trigger] buildings@[k1], #[trigger] buildings@[k2]),
                forall|x: int, y: int| #![trigger build_data.map.tile_at(x, y)] m0.in_bounds(x, y) ==>
                    build_data.map.tile_at(x, y) == floored(&m0, buildings@, x, y),
            decreases 2000 - n_attempts,
        {
            n_attempts = n_attempts + 1;
            let bx = roll_dice(rng, 1, w - 32) + 30;
            let by = roll_dice(rng, 1, h) - 2;
            let bw = roll_dice(rng, 1, 8) + 4;
            let bh = roll_dice(rng, 1, 8) + 4;
            let b = (bx, by, bw, bh);
            if building_possible(&build_data.map, available_building_tiles, b) {
                let ghost s_now = available_building_tiles@;
                proof {
                    assert forall|x: int, y: int| #![trigger in_building(b, x, y)] in_building(b, x, y) implies
                        m0.in_bounds(x, y) && a0.contains(m0.idx(x, y) as usize) by {
                        assert(build_data.map.in_bounds(x, y) && s_now.contains(build_data.map.idx(x, y) as usize));
                    }
                    assert(building_fits(&m0, s_now, b));
                    assert forall|k: int| 0 <= k < buildings@.len() implies buildings_apart(#[trigger] buildings@[k], b) by {
                        lemma_fit_keeps_apart(&m0, s_now, buildings@[k], b);
                    }
                }
                let ghost old_bs = buildings@;
                n_buildings = n_buildings + 1;
                buildings.push(b);
                let mut y = by;
                while y < by + bh
                    invariant
                        build_data.wf(),
                        m0 == old(build_data).map,
                        buildings_map_ok(&m0),
                        build_data.map.width == w,
                        build_data.map.height == h,
                        w == m0.width,
                        h == m0.height,
                        build_data.map.blocked == m0.blocked,
                        build_data.map.visible_tiles == m0.visible_tiles,
                        build_data.starting_position == old(build_data).starting_position,
                        build_data.spawn_list == old(build_data).spawn_list,
                        build_data.map.tiles@.len() == m0.tiles@.len(),
                        b == (bx, by, bw, bh),
                        31 <= bx <= w - 2,
                        -1 <= by <= h - 2,
                        5 <= bw <= 12,
                        5 <= bh <= 12,
                        by <= y <= by + bh,
                        building_fits(&m0, a0, b),
                        forall|i: usize| #[trigger] a0.contains(i) ==> (i as int) >= w,
                        available_building_tiles@.subset_of(a0),
                        buildings@ == old_bs.push(b),
                        forall|k1: int, k2: int| 0 <= k1 < k2 < buildings@.len() ==> buildings_apart(#[trigger] buildings@[k1], #[trigger] buildings@[k2]),
                        forall|k: int| 0 <= k < old_bs.len() ==> building_cleared(&m0, available_building_tiles@, #[trigger] old_bs[k]),
                        forall|x: int, yy: int| #![trigger in_building(b, x, yy)] in_building(b, x, yy) && yy < y
                            ==> cell_cleared(&m0, available_building_tiles@, x, yy),
                        forall|x: int, yy: int| #![trigger build_data.map.tile_at(x, yy)] m0.in_bounds(x, yy) ==>
                            build_data.map.tile_at(x, yy) == (if in_building(b, x, yy) && yy < y { TileType::WoodFloor } else { floored(&m0, old_bs, x, yy) }),
                    decreases by + bh - y,
                {
                    let mut x = bx;
                    while x < bx + bw
                        invariant
                            build_data.wf(),
                            m0 == old(build_data).map,
                            buildings_map_ok(&m0),
                            build_data.map.width == w,
                            build_data.map.height == h,
                            w == m0.width,
                            h == m0.height,
                            build_data.map.blocked == m0.blocked,
                            build_data.map.visible_tiles == m0.visible_tiles,
                            build_data.starting_position == old(build_data).starting_position,
                            build_data.spawn_list == old(build_data).spawn_list,
                            build_data.map.tiles@.len() == m0.tiles@.len(),
                            b == (bx, by, bw, bh),
                            31 <= bx <= w - 2,
                            -1 <= by <= h - 2,
                            5 <= bw <= 12,
                            5 <= bh <= 12,
                            by <= y < by + bh,
                            bx <= x <= bx + bw,
                            building_fits(&m0, a0, b),
                            forall|i: usize| #[trigger] a0.contains(i) ==> (i as int) >= w,
                            available_building_tiles@.subset_of(a0),
                            buildings@ == old_bs.push(b),
                            forall|k1: int, k2: int| 0 <= k1 < k2 < buildings@.len() ==> buildings_apart(#[trigger] buildings@[k1], #[trigger] buildings@[k2]),
                            forall|k: int| 0 <= k < old_bs.len() ==> building_cleared(&m0, available_building_tiles@, #[trigger] old_bs[k]),
                            forall|xx: int, yy: int| #![trigger in_building(b, xx, yy)] in_building(b, xx, yy) && (yy < y || (yy == y && xx < x))
                                ==> cell_cleared(&m0, available_building_tiles@, xx, yy),
                            forall|xx: int, yy: int| #![trigger build_data.map.tile_at(xx, yy)] m0.in_bounds(xx, yy) ==>
                                build_data.map.tile_at(xx, yy) == (if in_building(b, xx, yy) && (yy < y || (yy == y && xx < x)) { TileType::WoodFloor } else { floored(&m0, old_bs, xx, yy) }),
                        decreases bx + bw - x,
                    {
                        assert(in_building(b, x as int, y as int));
                        proof { lemma_cell_index(w as int, h as int, x as int, y as int); }
                        let idx = build_data.map.xy_idx(x, y);
                        let ghost b0 = build_data.map;
                        set_cell(build_data, x, y, TileType::WoodFloor);
                        proof {
                            assert forall|xx: int, yy: int| #![trigger build_data.map.tile_at(xx, yy)] m0.in_bounds(xx, yy) implies
                                build_data.map.tile_at(xx, yy) == (if in_building(b, xx, yy) && (yy < y || (yy == y && xx < x + 1)) { TileType::WoodFloor } else { floored(&m0, old_bs, xx, yy) }) by {
                                let t0 = b0.tile_at(xx, yy);
                            }
                            assert(a0.contains(idx));
                        }
                        let wu = w as usize;
                        let ghost s_before = available_building_tiles@;
                        available_building_tiles.remove(&idx);
                        available_building_tiles.remove(&(idx + 1));
                        available_building_tiles.remove(&(idx + wu));
                        available_building_tiles.remove(&(idx - 1));
                        available_building_tiles.remove(&(idx - wu));
                        proof {
                            let s_after = available_building_tiles@;
                            assert(s_after.subset_of(s_before));
                            assert(cell_cleared(&m0, s_after, x as int, y as int));
                            assert forall|k: int| 0 <= k < old_bs.len() implies building_cleared(&m0, s_after, #[trigger] old_bs[k]) by {
                                assert forall|xx: int, yy: int| #![trigger in_building(old_bs[k], xx, yy)] in_building(old_bs[k], xx, yy)
                                    implies cell_cleared(&m0, s_after, xx, yy) by {
                                    assert(cell_cleared(&m0, s_before, xx, yy));
                                }
                            }
                            assert forall|xx: int, yy: int| #![trigger in_building(b, xx, yy)] in_building(b, xx, yy) && (yy < y || (yy == y && xx < x + 1))
                                implies cell_cleared(&m0, s_after, xx, yy) by {
                                if !(xx == x && yy == y) {
                                    assert(cell_cleared(&m0, s_before, xx, yy));
                                }
                            }
                        }
                        x = x + 1;
                    }
                    y = y + 1;
                }
                proof {
                    assert forall|x: int, yy: int| #![trigger build_data.map.tile_at(x, yy)] m0.in_bounds(x, yy) implies
                        build_data.map.tile_at(x, yy) == floored(&m0, buildings@, x, yy) by {
                        assert(buildings@[old_bs.len() as int] == b);
                        if in_building(b, x, yy) {
                            assert(in_any_building(buildings@, x, yy));
                        }
                        if in_any_building(old_bs, x, yy) {
                            let k = choose|k: int| 0 <= k < old_bs.len() && #[trigger] in_building(old_bs[k], x, yy);
                            assert(buildings@[k] == old_bs[k]);
                            assert(in_any_building(buildings@, x, yy));
                        }
                        if in_any_building(buildings@, x, yy) {
                            let k = choose|k: int| 0 <= k < buildings@.len() && #[trigger] in_building(buildings@[k], x, yy);
                            if k < old_bs.len() {
                                assert(buildings@[k] == old_bs[k]);
                                assert(in_any_building(old_bs, x, yy));
                            }
                        }
                    }
                    assert forall|k: int| 0 <= k < buildings@.len() implies building_cleared(&m0, available_building_tiles@, #[trigger] buildings@[k]) by {
                        if k < old_bs.len() {
                            assert(buildings@[k] == old_bs[k]);
                        } else {
                            assert(buildings@[k] == b);
                        }
                    }
                    assert forall|k: int| 0 <= k < buildings@.len() implies {
                        &&& 31 <= (#[trigger] buildings@[k]).0 <= w - 2
                        &&& -1 <= buildings@[k].1 <= h - 2
                        &&& 5 <= buildings@[k].2 <= 12
                        &&& 5 <= buildings@[k].3 <= 12
                        &&& building_fits(&m0, a0, buildings@[k])
                    } by {
                        if k < old_bs.len() {
                            assert(buildings@[k] == old_bs[k]);
                        }
                    }
                }
                build_data.take_snapshot();
            }
        }
        let ghost bs = buildings@;
        let map_clone = build_data.map.duplicate();
        let ghost mid = build_data.map;
        let mut y: i32 = 2;
        while y < h - 2
            invariant
                build_data.wf(),
                m0 == old(build_data).map,
                buildings_map_ok(&m0),
                build_data.map.width == w,
                build_data.map.height == h,
                w == m0.width,
                h == m0.height,
                build_data.map.blocked == m0.blocked,
                build_data.map.visible_tiles == m0.visible_tiles,
                build_data.starting_position == old(build_data).starting_position,
                build_data.spawn_list == old(build_data).spawn_list,
                build_data.map.tiles@.len() == m0.tiles@.len(),
                map_clone.tiles@ == mid.tiles@,
                mid.tiles@.len() == m0.tiles@.len(),
                map_clone.width == w,
                map_clone.height == h,
                mid.width == w,
                mid.height == h,
                bs == buildings@,
                forall|x: int, yy: int| #![trigger mid.tile_at(x, yy)] m0.in_bounds(x, yy) ==>
                    mid.tile_at(x, yy) == floored(&m0, bs, x, yy),
                2 <= y, y <= h - 2 || y == 2,
                forall|x: int, yy: int| #![trigger build_data.map.tile_at(x, yy)] m0.in_bounds(x, yy) ==>
                    build_data.map.tile_at(x, yy) == (if yy < y { outlined(&m0, bs, x, yy) } else { mid.tile_at(x, yy) }),
            decreases h - 2 - y,
        {
            let mut x: i32 = 33;
            while x < w - 2
                invariant
                    build_data.wf(),
                    m0 == old(build_data).map,
                    buildings_map_ok(&m0),
                    build_data.map.width == w,
                    build_data.map.height == h,
                    w == m0.width,
                    h == m0.height,
                    build_data.map.blocked == m0.blocked,
                    build_data.map.visible_tiles == m0.visible_tiles,
                    build_data.starting_position == old(build_data).starting_position,
                    build_data.spawn_list == old(build_data).spawn_list,
                    build_data.map.tiles@.len() == m0.tiles@.len(),
                    map_clone.tiles@ == mid.tiles@,
                    mid.tiles@.len() == m0.tiles@.len(),
                    map_clone.width == w,
                    map_clone.height == h,
                    mid.width == w,
                    mid.height == h,
                    forall|xx: int, yy: int| #![trigger mid.tile_at(xx, yy)] m0.in_bounds(xx, yy) ==>
                        mid.tile_at(xx, yy) == floored(&m0, bs, xx, yy),
                    2 <= y < h - 2,
                    33 <= x, x <= w - 2 || x == 33,
                    forall|xx: int, yy: int| #![trigger build_data.map.tile_at(xx, yy)] m0.in_bounds(xx, yy) ==>
                        build_data.map.tile_at(xx, yy) == (if yy < y || (yy == y && xx < x) { outlined(&m0, bs, xx, yy) } else { mid.tile_at(xx, yy) }),
                decreases w - 2 - x,
            {
                proof {
                    lemma_cell_index(w as int, h as int, x as int, y as int);
                    lemma_cell_index(w as int, h as int, x - 1, y as int);
                    lemma_cell_index(w as int, h as int, x + 1, y as int);
                    lemma_cell_index(w as int, h as int, x as int, y - 1);
                    lemma_cell_index(w as int, h as int, x as int, y + 1);
                    assert((y - 1) * w == y * w - w) by (nonlinear_arith);
                    assert((y + 1) * w == y * w + w) by (nonlinear_arith);
                }
                let idx = map_clone.raw_idx(x, y);
                let wu = w as usize;
                let ghost b0 = build_data.map;
                if map_clone.tiles[idx] == TileType::WoodFloor {
                    let mut non_floor_neighbors: i32 = 0;
                    if map_clone.tiles[idx - 1] != TileType::WoodFloor { non_floor_neighbors = non_floor_neighbors + 1; }
                    if map_clone.tiles[idx + 1] != TileType::WoodFloor { non_floor_neighbors = non_floor_neighbors + 1; }
                    if map_clone.tiles[idx - wu] != TileType::WoodFloor { non_floor_neighbors = non_floor_neighbors + 1; }
                    if map_clone.tiles[idx + wu] != TileType::WoodFloor { non_floor_neighbors = non_floor_neighbors + 1; }
                    if non_floor_neighbors > 0 {
                        set_cell(build_data, x, y, TileType::Wall);
                    }
                }
                proof {
                    let t1 = mid.tile_at(x as int, y as int);
                    let t2 = mid.tile_at(x - 1, y as int);
                    let t3 = mid.tile_at(x + 1, y as int);
                    let t4 = mid.tile_at(x as int, y - 1);
                    let t5 = mid.tile_at(x as int, y + 1);
                    assert forall|xx: int, yy: int| #![trigger build_data.map.tile_at(xx, yy)] m0.in_bounds(xx, yy) implies
                        build_data.map.tile_at(xx, yy) == (if yy < y || (yy == y && xx < x + 1) { outlined(&m0, bs, xx, yy) } else { mid.tile_at(xx, yy) }) by {
                        let t0 = b0.tile_at(xx, yy);
                        let tm = mid.tile_at(xx, yy);
                    }
                }
                x = x + 1;
            }
            proof {
                assert forall|xx: int, yy: int| #![trigger build_data.map.tile_at(xx, yy)] m0.in_bounds(xx, yy) implies
                    build_data.map.tile_at(xx, yy) == (if yy < y + 1 { outlined(&m0, bs, xx, yy) } else { mid.tile_at(xx, yy) }) by {
                    let tm = mid.tile_at(xx, yy);
                }
            }
            y = y + 1;
        }
        proof {
            assert forall|xx: int, yy: int| #![trigger build_data.map.tile_at(xx, yy)] m0.in_bounds(xx, yy) implies
                build_data.map.tile_at(xx, yy) == outlined(&m0, bs, xx, yy) by {
                let tm = mid.tile_at(xx, yy);
            }
        }
        build_data.take_snapshot();
        buildings
    }
}

/// The building lies on the map, with room for its door.
pub open spec fn building_on_map(map: &TileMap, b: (i32, i32, i32, i32)) -> bool {
    &&& 0 <= b.0
    &&& 0 <= b.1
    &&& 5 <= b.2 <= 12
    &&& 5 <= b.3 <= 12
    &&& b.0 + b.2 <= map.width
    &&& b.1 + b.3 <= map.height
}

/// The row of the door of building `b`: its top row when its middle row is
/// south of the gap's row, else its bottom row.
pub open spec fn door_row(b: (i32, i32, i32, i32), gap: int) -> int {
    if b.1 + b.3 / 2 > gap { b.1 as int } else { b.1 + b.3 - 1 }
}

/// Cell `(x, y)` is the door of building `k`, whose door is at column `xs[k]`.
pub open spec fn is_door(bs: Seq<(i32, i32, i32, i32)>, xs: Seq<int>, gap: int, k: int, x: int, y: int) -> bool {
    x == xs[k] && y == door_row(bs[k], gap)
}

impl TownBuilder {
    /// Gives each building a door at a random column of its wall that faces
    /// the gap's row (not at its corners), turns it into floor, asks for a
    /// door to be spawned there, and gives back the doors' cells in order.
    pub fn add_doors(&mut self, rng: &mut RandomNumberGenerator, build_data: &mut BuilderMap,
        buildings: &Vec<(i32, i32, i32, i32)>, wall_gap_y: i32) -> (r: Vec<usize>)
        requires
            old(build_data).wf(),
            town_map_ok(&old(build_data).map),
            forall|k: int| 0 <= k < buildings@.len() ==> building_on_map(&old(build_data).map, #[trigger] buildings@[k]),
        ensures
            final(build_data).wf(),
            final(build_data).map.width == old(build_data).map.width,
            final(build_data).map.height == old(build_data).map.height,
            final(build_data).map.blocked == old(build_data).map.blocked,
            final(build_data).map.visible_tiles == old(build_data).map.visible_tiles,
            final(build_data).starting_position == old(build_data).starting_position,
            final(build_data).map.tiles@.len() == old(build_data).map.tiles@.len(),
            r@.len() == buildings@.len(),
            exists|xs: Seq<int>| {
                &&& #[trigger] xs.len() == buildings@.len()
                &&& forall|k: int| 0 <= k < xs.len() ==> buildings@[k].0 + 2 <= #[trigger] xs[k] <= buildings@[k].0 + buildings@[k].2 - 2
                &&& forall|k: int| 0 <= k < xs.len() ==> #[trigger] r@[k] == old(build_data).map.idx(xs[k], door_row(buildings@[k], wall_gap_y as int))
                &&& forall|x: int, y: int| #![trigger final(build_data).map.tile_at(x, y)] old(build_data).map.in_bounds(x, y) ==>
                    final(build_data).map.tile_at(x, y) == (if exists|k: int| 0 <= k < xs.len() && #[trigger] is_door(buildings@, xs, wall_gap_y as int, k, x, y) {
                        TileType::Floor
                    } else {
                        old(build_data).map.tile_at(x, y)
                    })
            },
            final(build_data).spawn_list@.len() == old(build_data).spawn_list@.len() + buildings@.len(),
            final(build_data).spawn_list@.subrange(0, old(build_data).spawn_list@.len() as int) == old(build_data).spawn_list@,
            forall|k: int| 0 <= k < buildings@.len() ==> {
                &&& (#[trigger] final(build_data).spawn_list@[old(build_data).spawn_list@.len() + k]).0 == r@[k]
                &&& final(build_data).spawn_list@[old(build_data).spawn_list@.len() + k].1@ == "Door"@
            },
    {
        let ghost m0 = build_data.map;
        let ghost sl0 = build_data.spawn_list@;
        let w = build_data.map.width;
        let h = build_data.map.height;
        let mut doors: Vec<usize> = Vec::new();
        let ghost mut xs: Seq<int> = Seq::empty();
        for k in 0..buildings.len()
            invariant
                build_data.wf(),
                m0 == old(build_data).map,
                town_map_ok(&m0),
                build_data.map.width == w,
                build_data.map.height == h,
                w == m0.width,
                h == m0.height,
                build_data.map.blocked == m0.blocked,
                build_data.map.visible_tiles == m0.visible_tiles,
                build_data.starting_position == old(build_data).starting_position,
                build_data.map.tiles@.len() == m0.tiles@.len(),
                forall|q: int| 0 <= q < buildings@.len() ==> building_on_map(&m0, #[trigger] buildings@[q]),
                sl0 == old(build_data).spawn_list@,
                doors@.len() == k,
                xs.len() == k,
                forall|q: int| 0 <= q < xs.len() ==> buildings@[q].0 + 2 <= #[trigger] xs[q] <= buildings@[q].0 + buildings@[q].2 - 2,
                forall|q: int| 0 <= q < xs.len() ==> #[trigger] doors@[q] == m0.idx(xs[q], door_row(buildings@[q], wall_gap_y as int)),
                forall|x: int, y: int| #![trigger build_data.map.tile_at(x, y)] m0.in_bounds(x, y) ==>
                    build_data.map.tile_at(x, y) == (if exists|q: int| 0 <= q < xs.len() && #[trigger] is_door(buildings@, xs, wall_gap_y as int, q, x, y) {
                        TileType::Floor
                    } else {
                        m0.tile_at(x, y)
                    }),
                build_data.spawn_list@.len() == sl0.len() + k,
                build_data.spawn_list@.subrange(0, sl0.len() as int) == sl0,
                forall|q: int| 0 <= q < k ==> {
                    &&& (#[trigger] build_data.spawn_list@[sl0.len() + q]).0 == doors@[q]
                    &&& build_data.spawn_list@[sl0.len() + q].1@ == "Door"@
                },
        {
            let (bx, by, bw, bh) = buildings[k];
            assert(building_on_map(&m0, buildings@[k as int]));
            let door_x = bx + 1 + roll_dice(rng, 1, bw - 3);
            let cy = by + (bh / 2);
            let dy = if cy > wall_gap_y { by } else { by + bh - 1 };
            proof { lemma_cell_index(w as int, h as int, door_x as int, dy as int); }
            let idx = build_data.map.xy_idx(door_x, dy);
            let ghost b0 = build_data.map;
            let ghost old_xs = xs;
            set_cell(build_data, door_x, dy, TileType::Floor);
            build_data.spawn_list.push((idx, String::from_str("Door")));
            doors.push(idx);
            proof {
                xs = xs.push(door_x as int);
                assert(is_door(buildings@, xs, wall_gap_y as int, k as int, door_x as int, dy as int));
                assert forall|x: int, y: int| #![trigger build_data.map.tile_at(x, y)] m0.in_bounds(x, y) implies
                    build_data.map.tile_at(x, y) == (if exists|q: int| 0 <= q < xs.len() && #[trigger] is_door(buildings@, xs, wall_gap_y as int, q, x, y) {
                        TileType::Floor
                    } else {
                        m0.tile_at(x, y)
                    }) by {
                    let t0 = b0.tile_at(x, y);
                    if exists|q: int| 0 <= q < old_xs.len() && #[trigger] is_door(buildings@, old_xs, wall_gap_y as int, q, x, y) {
                        let q = choose|q: int| 0 <= q < old_xs.len() && #[trigger] is_door(buildings@, old_xs, wall_gap_y as int, q, x, y);
                        assert(xs[q] == old_xs[q]);
                        assert(is_door(buildings@, xs, wall_gap_y as int, q, x, y));
                    }
                    if exists|q: int| 0 <= q < xs.len() && #[trigger] is_door(buildings@, xs, wall_gap_y as int, q, x, y) {
                        let q = choose|q: int| 0 <= q < xs.len() && #[trigger] is_door(buildings@, xs, wall_gap_y as int, q, x, y);
                        if q < old_xs.len() {
                            assert(xs[q] == old_xs[q]);
                            assert(is_door(buildings@, old_xs, wall_gap_y as int, q, x, y));
                        }
                    }
                }
                assert forall|q: int| 0 <= q < xs.len() implies buildings@[q].0 + 2 <= #[trigger] xs[q] <= buildings@[q].0 + buildings@[q].2 - 2 by {
                    if q < old_xs.len() { assert(xs[q] == old_xs[q]); }
                }
                assert forall|q: int| 0 <= q < xs.len() implies #[trigger] doors@[q] == m0.idx(xs[q], door_row(buildings@[q], wall_gap_y as int)) by {
                    if q < old_xs.len() { assert(xs[q] == old_xs[q]); }
                }
                assert(build_data.spawn_list@.subrange(0, sl0.len() as int) =~= sl0);
            }
        }
        build_data.take_snapshot();
        proof {
            assert(xs.len() == buildings@.len());
        }
        doors
    }

    /// The cells holding road, in index order.
    pub fn road_cells(&self, map: &TileMap) -> (r: Vec<usize>)
        ensures
            forall|k: int| 0 <= k < r@.len() ==> (#[trigger] r@[k]) < map.tiles@.len() && map.tiles@[r@[k] as int] is Road,
            forall|i: int| 0 <= i < map.tiles@.len() && map.tiles@[i] is Road ==> exists|k: int| 0 <= k < r@.len() && #[trigger] r@[k] == i,
            forall|a: int, b: int| 0 <= a < b < r@.len() ==> #[trigger] r@[a] < #[trigger] r@[b],
    {
        let mut r: Vec<usize> = Vec::new();
        for i in 0..map.tiles.len()
            invariant
                forall|k: int| 0 <= k < r@.len() ==> (#[trigger] r@[k]) < i && map.tiles@[r@[k] as int] is Road,
                forall|j: int| 0 <= j < i && map.tiles@[j] is Road ==> exists|k: int| 0 <= k < r@.len() && #[trigger] r@[k] == j,
                forall|a: int, b: int| 0 <= a < b < r@.len() ==> #[trigger] r@[a] < #[trigger] r@[b],
        {
            let ghost r0 = r@;
            if map.tiles[i] == TileType::Road {
                r.push(i);
                proof {
                    assert(r@[r@.len() - 1] == i);
                    assert forall|j: int| 0 <= j < i + 1 && map.tiles@[j] is Road implies exists|k: int| 0 <= k < r@.len() && #[trigger] r@[k] == j by {
                        if j == i {
                            assert(r@[r@.len() - 1] == j);
                        } else {
                            let k = choose|k: int| 0 <= k < r0.len() && #[trigger] r0[k] == j;
                            assert(r@[k] == j);
                        }
                    }
                }
            }
        }
        r
    }
}

/// The squared distance between cells `a` and `b` of a map `w` wide.
pub open spec fn cell_distance(w: int, a: int, b: int) -> int {
    (a % w - b % w) * (a % w - b % w) + (a / w - b / w) * (a / w - b / w)
}

/// `r` is the road cell nearest to the door, the first listed among those
/// equally near.
pub open spec fn is_nearest_road(w: int, roads: Seq<usize>, door: int, r: int) -> bool {
    &&& 0 <= r < roads.len()
    &&& forall|k: int| 0 <= k < roads.len() ==> cell_distance(w, #[trigger] roads[k] as int, door) >= cell_distance(w, roads[r] as int, door)
    &&& forall|k: int| 0 <= k < r ==> cell_distance(w, #[trigger] roads[k] as int, door) > cell_distance(w, roads[r] as int, door)
}

/// The place in the list of the road cell nearest to the door.
pub fn nearest_road(roads: &Vec<usize>, door: usize, width: i32) -> (r: usize)
    requires
        roads@.len() > 0,
        40 <= width <= 1000,
        door < 1_000_000,
        forall|k: int| 0 <= k < roads@.len() ==> (#[trigger] roads@[k]) < 1_000_000,
    ensures
        is_nearest_road(width as int, roads@, door as int, r as int),
{
    let w = width as i64;
    let dx0 = door as i64 % w;
    let dy0 = door as i64 / w;
    let mut best: usize = 0;
    let mut best_d: i128 = 0;
    for k in 0..roads.len()
        invariant
            roads@.len() > 0,
            w == width,
            40 <= w <= 1000,
            door < 1_000_000,
            dx0 == (door as int) % (w as int),
            dy0 == (door as int) / (w as int),
            forall|j: int| 0 <= j < roads@.len() ==> (#[trigger] roads@[j]) < 1_000_000,
            k > 0 ==> best < k,
            k > 0 ==> best_d == cell_distance(w as int, roads@[best as int] as int, door as int),
            k > 0 ==> forall|j: int| 0 <= j < k ==> cell_distance(w as int, #[trigger] roads@[j] as int, door as int) >= best_d,
            k > 0 ==> forall|j: int| 0 <= j < best ==> cell_distance(w as int, #[trigger] roads@[j] as int, door as int) > best_d,
            k == 0 ==> best == 0,
    {
        let c = roads[k] as i64;
        proof {
            assert((c as int) / (w as int) <= 25000) by (nonlinear_arith) requires 0 <= c < 1_000_000, 40 <= w;
            assert((door as int) / (w as int) <= 25000) by (nonlinear_arith) requires 0 <= door < 1_000_000, 40 <= w;
            assert((c as int) / (w as int) >= 0) by (nonlinear_arith) requires 0 <= c, 40 <= w;
            assert((door as int) / (w as int) >= 0) by (nonlinear_arith) requires 0 <= door, 40 <= w;
        }
        let d = distance_squared(Point { x: (c % w) as i32, y: (c / w) as i32 }, Point { x: dx0 as i32, y: dy0 as i32 });
        if k == 0 || d < best_d {
            best = k;
            best_d = d;
        }
    }
    best
}

impl TownBuilder {
    /// Lays road along the path's cells and adds them to the list of roads.
    pub fn pave_path(&mut self, build_data: &mut BuilderMap, steps: &Vec<usize>, roads: &mut Vec<usize>)
        requires
            old(build_data).wf(),
            forall|k: int| 0 <= k < steps@.len() ==> (#[trigger] steps@[k]) < old(build_data).map.tiles@.len(),
        ensures
            final(build_data).wf(),
            final(build_data).map.width == old(build_data).map.width,
            final(build_data).map.height == old(build_data).map.height,
            final(build_data).map.blocked == old(build_data).map.blocked,
            final(build_data).map.visible_tiles == old(build_data).map.visible_tiles,
            final(build_data).starting_position == old(build_data).starting_position,
            final(build_data).spawn_list == old(build_data).spawn_list,
            final(build_data).map.tiles@.len() == old(build_data).map.tiles@.len(),
            forall|i: int| 0 <= i < final(build_data).map.tiles@.len() ==> #[trigger] final(build_data).map.tiles@[i]
                == (if steps@.contains(i as usize) { TileType::Road } else { old(build_data).map.tiles@[i] }),
            final(roads)@ == old(roads)@ + steps@,
    {
        let ghost t0 = build_data.map.tiles@;
        let ghost r0 = roads@;
        for k in 0..steps.len()
            invariant
                build_data.wf(),
                build_data.map.width == old(build_data).map.width,
                build_data.map.height == old(build_data).map.height,
                build_data.map.blocked == old(build_data).map.blocked,
                build_data.map.visible_tiles == old(build_data).map.visible_tiles,
                build_data.starting_position == old(build_data).starting_position,
                build_data.spawn_list == old(build_data).spawn_list,
                t0 == old(build_data).map.tiles@,
                build_data.map.tiles@.len() == t0.len(),
                forall|j: int| 0 <= j < steps@.len() ==> (#[trigger] steps@[j]) < t0.len(),
                forall|i: int| 0 <= i < t0.len() ==> #[trigger] build_data.map.tiles@[i]
                    == (if steps@.take(k as int).contains(i as usize) { TileType::Road } else { t0[i] }),
                roads@ == r0 + steps@.take(k as int),
        {
            let idx = steps[k];
            let ghost b0 = build_data.map.tiles@;
            build_data.map.set_tile(idx, TileType::Road);
            roads.push(idx);
            proof {
                assert(steps@.take(k + 1) == steps@.take(k as int).push(idx));
                assert forall|i: int| 0 <= i < t0.len() implies #[trigger] build_data.map.tiles@[i]
                    == (if steps@.take(k + 1).contains(i as usize) { TileType::Road } else { t0[i] }) by {
                    if i == idx as int {
                        assert(steps@.take(k + 1)[k as int] == idx);
                    } else {
                        assert(build_data.map.tiles@[i] == b0[i]);
                        if steps@.take(k + 1).contains(i as usize) {
                            let j = choose|j: int| 0 <= j < k + 1 && #[trigger] steps@.take(k + 1)[j] == i as usize;
                            assert(steps@.take(k as int)[j] == i as usize);
                        }
                        if steps@.take(k as int).contains(i as usize) {
                            let j = choose|j: int| 0 <= j < k && #[trigger] steps@.take(k as int)[j] == i as usize;
                            assert(steps@.take(k + 1)[j] == i as usize);
                        }
                    }
                }
                assert(roads@ == r0 + steps@.take(k + 1));
            }
        }
        proof { assert(steps@.take(steps@.len() as int) == steps@); }
        build_data.take_snapshot();
    }
}

/// The area of the building.
pub open spec fn area(b: (i32, i32, i32, i32)) -> int {
    b.2 * b.3
}

/// `p` is the largest building, the first listed among those equally large.
pub open spec fn is_largest(bs: Seq<(i32, i32, i32, i32)>, p: int) -> bool {
    &&& 0 <= p < bs.len()
    &&& forall|k: int| 0 <= k < bs.len() ==> area(#[trigger] bs[k]) <= area(bs[p])
    &&& forall|k: int| 0 <= k < p ==> area(#[trigger] bs[k]) < area(bs[p])
}

impl TownBuilder {
    /// Puts the down stairs in the wall's gap, five cells from the east
    /// edge, starts the player in the middle of the largest building (the
    /// pub), and makes the whole map visible; records snapshots.
    pub fn finish(&mut self, build_data: &mut BuilderMap, buildings: &Vec<(i32, i32, i32, i32)>, wall_gap_y: i32)
        requires
            old(build_data).wf(),
            town_map_ok(&old(build_data).map),
            0 <= wall_gap_y < old(build_data).map.height,
            buildings@.len() > 0,
            forall|k: int| 0 <= k < buildings@.len() ==> building_on_map(&old(build_data).map, #[trigger] buildings@[k]),
        ensures
            final(build_data).wf(),
            final(build_data).map.width == old(build_data).map.width,
            final(build_data).map.height == old(build_data).map.height,
            final(build_data).map.tiles@ == old(build_data).map.tiles@.update(
                old(build_data).map.idx(old(build_data).map.width - 5, wall_gap_y as int), TileType::DownStairs),
            forall|i: int| 0 <= i < final(build_data).map.visible_tiles@.len() ==> #[trigger] final(build_data).map.visible_tiles@[i],
            exists|p: int| #[trigger] is_largest(buildings@, p) && final(build_data).starting_position == Some(Position {
                x: (buildings@[p].0 + buildings@[p].2 / 2) as i32,
                y: (buildings@[p].1 + buildings@[p].3 / 2) as i32,
            }),
    {
        let w = build_data.map.width;
        let h = build_data.map.height;
        proof { lemma_cell_index(w as int, h as int, (w - 5) as int, wall_gap_y as int); }
        let exit_idx = build_data.map.xy_idx(w - 5, wall_gap_y);
        build_data.map.set_tile(exit_idx, TileType::DownStairs);
        build_data.take_snapshot();
        let mut best: usize = 0;
        let mut best_area: i32 = 0;
        for k in 0..buildings.len()
            invariant
                buildings@.len() > 0,
                forall|q: int| 0 <= q < buildings@.len() ==> building_on_map(&old(build_data).map, #[trigger] buildings@[q]),
                k > 0 ==> best < k,
                k > 0 ==> best_area == area(buildings@[best as int]),
                k > 0 ==> forall|q: int| 0 <= q < k ==> area(#[trigger] buildings@[q]) <= best_area,
                k > 0 ==> forall|q: int| 0 <= q < best ==> area(#[trigger] buildings@[q]) < best_area,
                k == 0 ==> best == 0,
        {
            let (_bx, _by, bw, bh) = buildings[k];
            assert(building_on_map(&old(build_data).map, buildings@[k as int]));
            proof {
                assert(bw * bh <= 144) by (nonlinear_arith) requires 5 <= bw <= 12, 5 <= bh <= 12;
                assert(bw * bh >= 0) by (nonlinear_arith) requires 5 <= bw <= 12, 5 <= bh <= 12;
            }
            let a = bw * bh;
            if k == 0 || a > best_area {
                best = k;
                best_area = a;
            }
        }
        let (pub_x, pub_y, pub_w, pub_h) = buildings[best];
        assert(building_on_map(&old(build_data).map, buildings@[best as int]));
        let start = Position { x: pub_x + pub_w / 2, y: pub_y + pub_h / 2 };
        build_data.starting_position = Some(start);
        let n = build_data.map.visible_tiles.len();
        for i in 0..n
            invariant
                build_data.map.wf(),
                n == build_data.map.visible_tiles@.len(),
                build_data.map.width == w,
                build_data.map.height == h,
                build_data.map.tiles@ == old(build_data).map.tiles@.update(
                    old(build_data).map.idx(old(build_data).map.width - 5, wall_gap_y as int), TileType::DownStairs),
                forall|j: int| 0 <= j < i ==> #[trigger] build_data.map.visible_tiles@[j],
                build_data.starting_position == Some(start),
        {
            build_data.map.visible_tiles.set(i, true);
        }
        proof {
            assert(is_largest(buildings@, best as int));
        }
        build_data.take_snapshot();
    }
}


/// The map's cells under the path's points, in order.
fn path_cells(map: &TileMap, path: &Vec<Point>) -> (r: Vec<usize>)
    requires
        map.wf(),
        path_on_map(map, path@),
    ensures
        r@.len() == path@.len(),
        forall|k: int| 0 <= k < r@.len() ==> (#[trigger] r@[k]) as int == map.idx(path@[k].x as int, path@[k].y as int)
            && r@[k] < map.tiles@.len(),
{
    let mut r: Vec<usize> = Vec::new();
    for k in 0..path.len()
        invariant
            map.wf(),
            path_on_map(map, path@),
            r@.len() == k,
            forall|j: int| 0 <= j < k ==> (#[trigger] r@[j]) as int == map.idx(path@[j].x as int, path@[j].y as int)
                && r@[j] < map.tiles@.len(),
    {
        let p = path[k];
        assert(map.in_bounds(path@[k as int].x as int, path@[k as int].y as int));
        proof { lemma_cell_index(map.width as int, map.height as int, p.x as int, p.y as int); }
        let i = map.xy_idx(p.x, p.y);
        r.push(i);
    }
    r
}

proof fn lemma_town_cells(w: int, h: int)
    requires
        40 <= w <= 1000,
        12 <= h <= 1000,
    ensures
        w * h <= 1_000_000,
{
    assert(w * h <= 1_000_000) by (nonlinear_arith) requires 40 <= w <= 1000, 12 <= h <= 1000;
}

/// The cell with index `i` of a `w` wide map, as a point.
pub open spec fn cell_point(w: int, i: int) -> Point {
    Point { x: (i % w) as i32, y: (i / w) as i32 }
}

/// The indices, on a `w` wide map, of the path's points.
pub open spec fn path_cell_seq(w: int, path: Seq<Point>) -> Seq<usize> {
    path.map_values(|p: Point| (p.y * w + p.x) as usize)
}

/// `path` runs from the door's cell to the cell `dest`, and road was laid
/// along it: the tiles `t1` are the tiles `t0` with road on the path's
/// cells, and the road list `r1` is the list `r0` followed by those cells.
pub open spec fn town_path(w: int, path: Seq<Point>, door: int, dest: int, r0: Seq<usize>, r1: Seq<usize>,
    t0: Seq<TileType>, t1: Seq<TileType>) -> bool {
    &&& path[0] == cell_point(w, door)
    &&& path.last() == cell_point(w, dest)
    &&& r1 == r0 + path_cell_seq(w, path)
    &&& t1.len() == t0.len()
    &&& forall|i: int| 0 <= i < t1.len() ==> #[trigger] t1[i]
            == (if path_cell_seq(w, path).contains(i as usize) { TileType::Road } else { t0[i] })
}

impl TownBuilder {
    /// Joins one door to the road: looks for a path from the door to the
    /// listed road cell nearest it and, where one is found, lays road along
    /// it and lists its cells as road. Returns whether a path was found.
    pub fn connect_door(&mut self, build_data: &mut BuilderMap, roads: &mut Vec<usize>, door: usize) -> (r: bool)
        requires
            old(build_data).wf(),
            town_map_ok(&old(build_data).map),
            door < old(build_data).map.tiles@.len(),
            old(roads)@.len() > 0,
            forall|k: int| 0 <= k < old(roads)@.len() ==> (#[trigger] old(roads)@[k]) < old(build_data).map.tiles@.len(),
        ensures
            final(build_data).wf(),
            final(build_data).map.width == old(build_data).map.width,
            final(build_data).map.height == old(build_data).map.height,
            final(build_data).map.blocked == old(build_data).map.blocked,
            final(build_data).map.visible_tiles == old(build_data).map.visible_tiles,
            final(build_data).starting_position == old(build_data).starting_position,
            final(build_data).spawn_list == old(build_data).spawn_list,
            final(build_data).map.tiles@.len() == old(build_data).map.tiles@.len(),
            exists|j: int| #[trigger] is_nearest_road(old(build_data).map.width as int, old(roads)@, door as int, j) && {
                let w = old(build_data).map.width as int;
                let dest = old(roads)@[j] as int;
                &&& r == reachable(&old(build_data).map, cell_point(w, door as int), cell_point(w, dest))
                &&& r ==> exists|path: Seq<Point>| #[trigger] is_walk(&old(build_data).map, path) && town_path(w, path,
                        door as int, dest, old(roads)@, final(roads)@, old(build_data).map.tiles@, final(build_data).map.tiles@)
                &&& !r ==> final(build_data).map.tiles@ == old(build_data).map.tiles@ && final(roads)@ == old(roads)@
            },
    {
        let ghost m0 = build_data.map;
        let w = build_data.map.width;
        let h = build_data.map.height;
        proof { lemma_town_cells(w as int, h as int); }
        let j = nearest_road(&roads, door, w);
        let dest = roads[j];
        proof {
            lemma_index_cell(w as int, h as int, door as int);
            lemma_index_cell(w as int, h as int, dest as int);
        }
        let start = Point { x: (door % (w as usize)) as i32, y: (door / (w as usize)) as i32 };
        let end = Point { x: (dest % (w as usize)) as i32, y: (dest / (w as usize)) as i32 };
        assert(start == cell_point(w as int, door as int));
        assert(end == cell_point(w as int, dest as int));
        match a_star_search(start, end, &build_data.map) {
            Some((path, _cost)) => {
                proof { lemma_walk_on_map(&build_data.map, path@, start); }
                let steps = path_cells(&build_data.map, &path);
                assert(steps@ =~= path_cell_seq(w as int, path@));
                self.pave_path(build_data, &steps, roads);
                assert(town_path(w as int, path@, door as int, dest as int, old(roads)@, roads@, m0.tiles@, build_data.map.tiles@));
                assert(is_nearest_road(w as int, old(roads)@, door as int, j as int));
                true
            },
            None => {
                assert(is_nearest_road(w as int, old(roads)@, door as int, j as int));
                false
            },
        }
    }
}

/// `r` lists, in index order, exactly the road cells of the tiles `t`.
pub open spec fn is_road_list(t: Seq<TileType>, r: Seq<usize>) -> bool {
    &&& forall|k: int| 0 <= k < r.len() ==> (#[trigger] r[k]) < t.len() && t[r[k] as int] is Road
    &&& forall|i: int| 0 <= i < t.len() && t[i] is Road ==> exists|k: int| 0 <= k < r.len() && #[trigger] r[k] == i
    &&& forall|a: int, b: int| 0 <= a < b < r.len() ==> #[trigger] r[a] < #[trigger] r[b]
}

/// One door joined to the road as [`TownBuilder::connect_door`] joins it,
/// taking the road list `r0` and tiles `t0` to `r1` and `t1`: where the
/// listed road cell nearest the door can be walked to on `map`, road is
/// laid along such a walk; otherwise nothing changes.
pub open spec fn door_joined(map: &TileMap, door: int, r0: Seq<usize>, r1: Seq<usize>, t0: Seq<TileType>, t1: Seq<TileType>) -> bool {
    let w = map.width as int;
    exists|j: int| #[trigger] is_nearest_road(w, r0, door, j) && {
        let dest = r0[j] as int;
        if reachable(map, cell_point(w, door), cell_point(w, dest)) {
            exists|path: Seq<Point>| #[trigger] is_walk(map, path) && town_path(w, path, door, dest, r0, r1, t0, t1)
        } else {
            r1 == r0 && t1 == t0
        }
    }
}

/// The doors joined to the road one after another: `rs[k]` and `ts[k]` are
/// the road list and the tiles before door `k` is joined, and the last
/// entries what is left after the last door.
pub open spec fn doors_joined(map: &TileMap, doors: Seq<usize>, rs: Seq<Seq<usize>>, ts: Seq<Seq<TileType>>) -> bool {
    &&& rs.len() == doors.len() + 1
    &&& ts.len() == doors.len() + 1
    &&& forall|k: int| 0 <= k < doors.len() ==> #[trigger] door_joined(map, doors[k] as int, rs[k], rs[k + 1], ts[k], ts[k + 1])
}

proof fn lemma_same_walks(a: &TileMap, b: &TileMap)
    requires
        a.width == b.width,
        a.height == b.height,
        a.blocked@ == b.blocked@,
    ensures
        forall|path: Seq<Point>| #[trigger] is_walk(a, path) == is_walk(b, path),
        forall|s: Point, e: Point| #[trigger] reachable(a, s, e) == reachable(b, s, e),
{
    assert forall|p: Point, q: Point| #[trigger] can_step(a, p, q) == can_step(b, p, q) by {}
    assert forall|path: Seq<Point>| #[trigger] is_walk(a, path) == is_walk(b, path) by {
        if is_walk(a, path) {
            assert forall|i: int| 0 <= i < path.len() - 1 implies #[trigger] can_step(b, path[i], path[i + 1]) by {
                assert(can_step(a, path[i], path[i + 1]));
            }
        }
        if is_walk(b, path) {
            assert forall|i: int| 0 <= i < path.len() - 1 implies #[trigger] can_step(a, path[i], path[i + 1]) by {
                assert(can_step(b, path[i], path[i + 1]));
            }
        }
    }
    assert forall|s: Point, e: Point| #[trigger] reachable(a, s, e) == reachable(b, s, e) by {
        if reachable(a, s, e) {
            let path = choose|path: Seq<Point>| #[trigger] is_walk(a, path) && path[0] == s && path.last() == e;
            assert(is_walk(b, path));
        }
        if reachable(b, s, e) {
            let path = choose|path: Seq<Point>| #[trigger] is_walk(b, path) && path[0] == s && path.last() == e;
            assert(is_walk(a, path));
        }
    }
}

proof fn lemma_door_joined_same(a: &TileMap, b: &TileMap, door: int, r0: Seq<usize>, r1: Seq<usize>, t0: Seq<TileType>, t1: Seq<TileType>)
    requires
        a.width == b.width,
        a.height == b.height,
        a.blocked@ == b.blocked@,
        door_joined(a, door, r0, r1, t0, t1),
    ensures
        door_joined(b, door, r0, r1, t0, t1),
{
    lemma_same_walks(a, b);
    let w = a.width as int;
    let j = choose|j: int| #[trigger] is_nearest_road(w, r0, door, j) && {
        let dest = r0[j] as int;
        if reachable(a, cell_point(w, door), cell_point(w, dest)) {
            exists|path: Seq<Point>| #[trigger] is_walk(a, path) && town_path(w, path, door, dest, r0, r1, t0, t1)
        } else {
            r1 == r0 && t1 == t0
        }
    };
    let dest = r0[j] as int;
    if reachable(a, cell_point(w, door), cell_point(w, dest)) {
        let path = choose|path: Seq<Point>| #[trigger] is_walk(a, path) && town_path(w, path, door, dest, r0, r1, t0, t1);
        assert(is_walk(b, path));
    }
}

impl TownBuilder {
    /// Joins each door to the road: lists the road cells, marks the cells
    /// that cannot be walked on as blocked, then for each door in turn looks
    /// for a path from it to the listed road cell nearest it and, where one
    /// is found, lays road along the path; the new road is listed for the
    /// doors after it.
    pub fn add_paths(&mut self, build_data: &mut BuilderMap, doors: &Vec<usize>)
        requires
            old(build_data).wf(),
            town_map_ok(&old(build_data).map),
            forall|k: int| 0 <= k < doors@.len() ==> (#[trigger] doors@[k]) < old(build_data).map.tiles@.len(),
            doors@.len() > 0 ==> exists|i: int| 0 <= i < old(build_data).map.tiles@.len()
                && #[trigger] old(build_data).map.tiles@[i] is Road,
        ensures
            final(build_data).wf(),
            final(build_data).map.width == old(build_data).map.width,
            final(build_data).map.height == old(build_data).map.height,
            final(build_data).map.visible_tiles == old(build_data).map.visible_tiles,
            final(build_data).starting_position == old(build_data).starting_position,
            final(build_data).spawn_list == old(build_data).spawn_list,
            final(build_data).map.tiles@.len() == old(build_data).map.tiles@.len(),
            forall|i: int| 0 <= i < final(build_data).map.blocked@.len() ==>
                #[trigger] final(build_data).map.blocked@[i] == !spec_tile_walkable(old(build_data).map.tiles@[i]),
            forall|i: int| 0 <= i < final(build_data).map.tiles@.len() ==>
                #[trigger] final(build_data).map.tiles@[i] == old(build_data).map.tiles@[i]
                || final(build_data).map.tiles@[i] is Road,
            forall|i: int| 0 <= i < final(build_data).map.tiles@.len() && !spec_tile_walkable(old(build_data).map.tiles@[i])
                && !doors@.contains(i as usize) ==> #[trigger] final(build_data).map.tiles@[i] == old(build_data).map.tiles@[i],
            exists|rs: Seq<Seq<usize>>, ts: Seq<Seq<TileType>>| {
                &&& #[trigger] doors_joined(&final(build_data).map, doors@, rs, ts)
                &&& is_road_list(old(build_data).map.tiles@, rs[0])
                &&& ts[0] == old(build_data).map.tiles@
                &&& ts.last() == final(build_data).map.tiles@
            },
    {
        let ghost m0 = build_data.map;
        let w = build_data.map.width;
        let h = build_data.map.height;
        proof { lemma_town_cells(w as int, h as int); }
        let mut roads = self.road_cells(&build_data.map);
        proof {
            if doors@.len() > 0 {
                let i0 = choose|i: int| 0 <= i < m0.tiles@.len() && #[trigger] m0.tiles@[i] is Road;
                let k0 = choose|k: int| 0 <= k < roads@.len() && #[trigger] roads@[k] == i0;
                assert(roads@[k0] == i0);
            }
        }
        let ghost road_list = roads@;
        build_data.map.populate_blocked();
        let ghost m1 = build_data.map;
        let ghost mut rs: Seq<Seq<usize>> = seq![roads@];
        let ghost mut ts: Seq<Seq<TileType>> = seq![build_data.map.tiles@];
        for d in 0..doors.len()
            invariant
                is_road_list(m0.tiles@, road_list),
                rs.len() == d + 1,
                ts.len() == d + 1,
                rs[0] == road_list,
                ts[0] == m0.tiles@,
                rs[d as int] == roads@,
                ts[d as int] == build_data.map.tiles@,
                forall|k: int| 0 <= k < d ==> #[trigger] door_joined(&m1, doors@[k] as int, rs[k], rs[k + 1], ts[k], ts[k + 1]),
                m1.width == w,
                m1.height == h,
                build_data.wf(),
                town_map_ok(&build_data.map),
                m0.wf(),
                build_data.map.width == w,
                build_data.map.height == h,
                w == m0.width,
                h == m0.height,
                build_data.map.visible_tiles == m0.visible_tiles,
                build_data.map.blocked == m1.blocked,
                build_data.starting_position == old(build_data).starting_position,
                build_data.spawn_list == old(build_data).spawn_list,
                build_data.map.tiles@.len() == m0.tiles@.len(),
                forall|i: int| 0 <= i < m1.blocked@.len() ==> #[trigger] m1.blocked@[i] == !spec_tile_walkable(m0.tiles@[i]),
                forall|k: int| 0 <= k < doors@.len() ==> (#[trigger] doors@[k]) < m0.tiles@.len(),
                doors@.len() > 0 ==> roads@.len() > 0,
                forall|k: int| 0 <= k < roads@.len() ==> (#[trigger] roads@[k]) < m0.tiles@.len(),
                forall|i: int| 0 <= i < m0.tiles@.len() ==>
                    #[trigger] build_data.map.tiles@[i] == m0.tiles@[i] || build_data.map.tiles@[i] is Road,
                forall|i: int| 0 <= i < m0.tiles@.len() && !spec_tile_walkable(m0.tiles@[i]) && !doors@.contains(i as usize)
                    ==> #[trigger] build_data.map.tiles@[i] == m0.tiles@[i],
        {
            let ghost mb = build_data.map;
            let ghost t0 = build_data.map.tiles@;
            let ghost r0 = roads@;
            let joined = self.connect_door(build_data, &mut roads, doors[d]);
            proof {
                let j = choose|j: int| #[trigger] is_nearest_road(w as int, r0, doors@[d as int] as int, j) && {
                    let dest = r0[j] as int;
                    &&& joined == reachable(&mb, cell_point(w as int, doors@[d as int] as int), cell_point(w as int, dest))
                    &&& joined ==> exists|path: Seq<Point>| #[trigger] is_walk(&mb, path) && town_path(w as int, path, doors@[d as int] as int, dest, r0, roads@, t0, build_data.map.tiles@)
                    &&& !joined ==> build_data.map.tiles@ == t0 && roads@ == r0
                };
                assert(door_joined(&mb, doors@[d as int] as int, r0, roads@, t0, build_data.map.tiles@));
                lemma_door_joined_same(&mb, &m1, doors@[d as int] as int, r0, roads@, t0, build_data.map.tiles@);
                rs = rs.push(roads@);
                ts = ts.push(build_data.map.tiles@);
                assert forall|k: int| 0 <= k < d + 1 implies #[trigger] door_joined(&m1, doors@[k] as int, rs[k], rs[k + 1], ts[k], ts[k + 1]) by {
                    if k == d {
                        assert(rs[k] == r0 && ts[k] == t0);
                    }
                }
                if joined {
                    let dest = r0[j] as int;
                    let path = choose|path: Seq<Point>| #[trigger] is_walk(&mb, path) && town_path(w as int, path, doors@[d as int] as int, dest, r0, roads@, t0, build_data.map.tiles@);
                    let cells = path_cell_seq(w as int, path);
                    assert forall|i: int| 0 <= i < m0.tiles@.len() implies
                        #[trigger] build_data.map.tiles@[i] == m0.tiles@[i] || build_data.map.tiles@[i] is Road by {
                        assert(t0[i] == m0.tiles@[i] || t0[i] is Road);
                    }
                    lemma_index_cell(w as int, h as int, doors@[d as int] as int);
                    lemma_walk_on_map(&mb, path, cell_point(w as int, doors@[d as int] as int));
                    assert forall|i: int| 0 <= i < m0.tiles@.len() && !spec_tile_walkable(m0.tiles@[i]) && !doors@.contains(i as usize)
                        implies #[trigger] build_data.map.tiles@[i] == m0.tiles@[i] by {
                        if cells.contains(i as usize) {
                            let q = choose|q: int| 0 <= q < cells.len() && cells[q] == i as usize;
                            assert(mb.in_bounds(path[q].x as int, path[q].y as int));
                            lemma_cell_index(w as int, h as int, path[q].x as int, path[q].y as int);
                            if q == 0 {
                                let door = doors@[d as int] as int;
                                vstd::arithmetic::div_mod::lemma_fundamental_div_mod(door, w as int);
                                assert(cells[0] == door);
                                assert(doors@[d as int] == i as usize);
                            } else {
                                let j = q - 1;
                                assert(is_walk(&mb, path));
                                assert(can_step(&mb, path[j], path[j + 1]));
                                assert(!mb.blocked@[i]);
                            }
                        } else {
                            assert(t0[i] == m0.tiles@[i]);
                        }
                    }
                    assert forall|k: int| 0 <= k < roads@.len() implies (#[trigger] roads@[k]) < m0.tiles@.len() by {
                        if k >= r0.len() {
                            let q = k - r0.len();
                            assert(roads@[k] == cells[q]);
                            assert(mb.in_bounds(path[q].x as int, path[q].y as int));
                            lemma_cell_index(w as int, h as int, path[q].x as int, path[q].y as int);
                        }
                    }
                }
            }
        }
        proof {
            assert forall|k: int| 0 <= k < doors@.len() implies #[trigger] door_joined(&build_data.map, doors@[k] as int, rs[k], rs[k + 1], ts[k], ts[k + 1]) by {
                lemma_door_joined_same(&m1, &build_data.map, doors@[k] as int, rs[k], rs[k + 1], ts[k], ts[k + 1]);
            }
            assert(doors_joined(&build_data.map, doors@, rs, ts));
        }
    }
}

/// The middle cell of building `b`, where the player starts when it is the pub.
pub open spec fn centre_of(b: (i32, i32, i32, i32)) -> Position {
    Position { x: (b.0 + b.2 / 2) as i32, y: (b.1 + b.3 / 2) as i32 }
}

proof fn lemma_ground_below_first_row(w: int, h: int, gap: int, i: int)
    requires
        40 <= w,
        building_ground(w, h, gap, i),
    ensures
        i >= w,
{
    assert(i >= w) by (nonlinear_arith) requires 40 <= w, 0 <= i, i / w >= 3;
}

/// The tile the town's ground shows at `(x, y)` before any building goes
/// up: the walls (see [`wall_tile`]) over the coast (see [`coast_tile`])
/// over grass.
pub open spec fn town_ground(w: int, h: int, widths: Seq<i32>, piers: Seq<(int, int)>, gap: int, x: int, y: int) -> TileType {
    match wall_tile(w, h, gap, x, y) {
        Some(t) => t,
        None => match coast_tile(widths, piers, x, y) {
            Some(t) => t,
            None => TileType::Grass,
        },
    }
}

/// What [`TownBuilder::build_rooms`] leaves of the ground it lays with the
/// coast `widths` and `piers` and the wall's gap at row `gap`: the deep
/// water stays deep water; when no building could be placed (`built` is
/// false) every cell shows the ground; otherwise the down stairs stand in
/// the gap five cells from the east edge.
pub open spec fn town_laid(a: &TileMap, b: &TileMap, wave: Seq<i32>, widths: Seq<i32>, piers: Seq<(int, int)>, gap: int, built: bool) -> bool {
    let (w, h) = (a.width as int, a.height as int);
    &&& coast_ok(wave, widths, piers, h)
    &&& 6 <= gap <= h - 4
    &&& forall|x: int, y: int| #![trigger b.tile_at(x, y)] a.in_bounds(x, y)
            && town_ground(w, h, widths, piers, gap, x, y) is DeepWater ==> b.tile_at(x, y) is DeepWater
    &&& !built ==> forall|x: int, y: int| #![trigger b.tile_at(x, y)] a.in_bounds(x, y)
            ==> b.tile_at(x, y) == town_ground(w, h, widths, piers, gap, x, y)
    &&& built ==> b.tile_at(w - 5, gap) is DownStairs
}

impl TownBuilder {
    /// Lays the whole town out: grass, the coast along `wave`, the walls,
    /// the buildings, their doors and the roads to them, and last the exit
    /// in the wall's gap, the start in the pub and a fully visible map.
    /// `wave` holds, for each row, the coast's offset, as
    /// [`TownBuilder::water_and_piers`] takes it. Returns `false`, leaving
    /// the town without doors, roads, exit or start, when no building could
    /// be placed.
    pub fn build_rooms(&mut self, rng: &mut RandomNumberGenerator, build_data: &mut BuilderMap, wave: &Vec<i32>) -> (r: bool)
        requires
            old(build_data).wf(),
            town_map_ok(&old(build_data).map),
            wave@.len() == old(build_data).map.height,
            forall|y: int| 0 <= y < wave@.len() ==> -10 <= #[trigger] wave@[y] <= 10,
        ensures
            final(build_data).wf(),
            final(build_data).map.width == old(build_data).map.width,
            final(build_data).map.height == old(build_data).map.height,
            r ==> exists|gap: int, bs: Seq<(i32, i32, i32, i32)>, p: int| #![trigger is_largest(bs, p), final(build_data).map.tile_at(old(build_data).map.width - 5, gap)] {
                &&& 6 <= gap <= old(build_data).map.height - 4
                &&& is_largest(bs, p)
                &&& final(build_data).map.tile_at(old(build_data).map.width - 5, gap) is DownStairs
                &&& final(build_data).starting_position == Some(centre_of(bs[p]))
            },
            r ==> forall|i: int| 0 <= i < final(build_data).map.visible_tiles@.len() ==>
                #[trigger] final(build_data).map.visible_tiles@[i],
            !r ==> final(build_data).starting_position == old(build_data).starting_position,
            exists|widths: Seq<i32>, piers: Seq<(int, int)>, gap: int|
                #[trigger] town_laid(&old(build_data).map, &final(build_data).map, wave@, widths, piers, gap, r),
    {
        let ghost m0 = build_data.map;
        let w = build_data.map.width;
        let h = build_data.map.height;
        self.grass_layer(build_data);
        let ghost mg = build_data.map;
        let widths = self.water_and_piers(rng, build_data, wave);
        let ghost mc = build_data.map;
        let ghost piers = choose|piers: Seq<(int, int)>| #[trigger] coast_ok(wave@, widths@, piers, h as int)
            && painted(&mg, &mc, |x: int, y: int| coast_tile(widths@, piers, x, y));
        let (mut available, wall_gap_y) = self.town_walls(rng, build_data);
        let ghost m2 = build_data.map;
        let ghost gap = wall_gap_y as int;
        proof {
            assert forall|x: int, y: int| #![trigger m2.tile_at(x, y)] m0.in_bounds(x, y) implies
                m2.tile_at(x, y) == town_ground(w as int, h as int, widths@, piers, gap, x, y) by {
                lemma_cell_index(w as int, h as int, x, y);
                assert(mg.tile_at(x, y) is Grass);
                let tc = mc.tile_at(x, y);
            }
        }
        proof {
            assert forall|i: usize| #[trigger] available@.contains(i) implies (i as int) >= w by {
                lemma_ground_below_first_row(w as int, h as int, wall_gap_y as int, i as int);
            }
            lemma_cell_index(w as int, h as int, 30, wall_gap_y as int);
            assert(wall_tile(w as int, h as int, wall_gap_y as int, 30, wall_gap_y as int) == Some(TileType::Road));
            assert(m2.tile_at(30, wall_gap_y as int) is Road);
        }
        let ghost a2 = available@;
        let buildings = self.buildings(rng, build_data, &mut available);
        let ghost m3 = build_data.map;
        proof {
            assert forall|x: int, y: int| #![trigger m3.tile_at(x, y)] m0.in_bounds(x, y)
                && town_ground(w as int, h as int, widths@, piers, gap, x, y) is DeepWater implies m3.tile_at(x, y) is DeepWater by {
                assert(x < widths@[y]);
                assert(!in_any_building(buildings@, x, y));
                let f = floored(&m2, buildings@, x, y);
            }
        }
        if buildings.len() == 0 {
            proof {
                assert forall|x: int, y: int| #![trigger m3.tile_at(x, y)] m0.in_bounds(x, y) implies
                    m3.tile_at(x, y) == town_ground(w as int, h as int, widths@, piers, gap, x, y) by {
                    assert(!in_any_building(buildings@, x, y));
                    if 33 <= x < w - 2 && 2 <= y < h - 2 {
                        assert(wall_tile(w as int, h as int, gap, x, y) is Some);
                    }
                }
                assert(town_laid(&m0, &build_data.map, wave@, widths@, piers, gap, false));
            }
            return false;
        }
        proof {
            assert forall|k: int| 0 <= k < buildings@.len() implies building_on_map(&build_data.map, #[trigger] buildings@[k]) by {
                let b = buildings@[k];
                assert(building_fits(&m2, a2, b));
                assert(in_building(b, b.0 as int, b.1 as int));
                assert(in_building(b, b.0 + b.2 - 1, b.1 + b.3 - 1));
            }
            assert(!in_any_building(buildings@, 30, wall_gap_y as int));
            assert(m3.tile_at(30, wall_gap_y as int) == outlined(&m2, buildings@, 30, wall_gap_y as int));
            assert(m3.tile_at(30, wall_gap_y as int) is Road);
        }
        let doors = self.add_doors(rng, build_data, &buildings, wall_gap_y);
        let ghost m4 = build_data.map;
        let ghost xs = choose|xs: Seq<int>| {
            &&& #[trigger] xs.len() == buildings@.len()
            &&& forall|k: int| 0 <= k < xs.len() ==> buildings@[k].0 + 2 <= #[trigger] xs[k] <= buildings@[k].0 + buildings@[k].2 - 2
            &&& forall|k: int| 0 <= k < xs.len() ==> #[trigger] doors@[k] == m3.idx(xs[k], door_row(buildings@[k], wall_gap_y as int))
            &&& forall|x: int, y: int| #![trigger m4.tile_at(x, y)] m3.in_bounds(x, y) ==>
                m4.tile_at(x, y) == (if exists|k: int| 0 <= k < xs.len() && #[trigger] is_door(buildings@, xs, wall_gap_y as int, k, x, y) {
                    TileType::Floor
                } else {
                    m3.tile_at(x, y)
                })
        };
        proof {
            assert(!exists|k: int| 0 <= k < xs.len() && #[trigger] is_door(buildings@, xs, wall_gap_y as int, k, 30, wall_gap_y as int));
            assert(build_data.map.tile_at(30, wall_gap_y as int) is Road);
            assert forall|k: int| 0 <= k < doors@.len() implies (#[trigger] doors@[k]) < build_data.map.tiles@.len() by {
                let b = buildings@[k];
                assert(building_on_map(&m3, b));
                lemma_cell_index(w as int, h as int, xs[k], door_row(b, wall_gap_y as int));
            }
        }
        self.add_paths(build_data, &doors);
        let ghost m5 = build_data.map;
        self.finish(build_data, &buildings, wall_gap_y);
        proof {
            lemma_cell_index(w as int, h as int, (w - 5) as int, wall_gap_y as int);
            assert forall|x: int, y: int| #![trigger build_data.map.tile_at(x, y)] m0.in_bounds(x, y)
                && town_ground(w as int, h as int, widths@, piers, gap, x, y) is DeepWater implies build_data.map.tile_at(x, y) is DeepWater by {
                assert(x < widths@[y]);
                assert(m3.tile_at(x, y) is DeepWater);
                assert(!exists|k: int| 0 <= k < xs.len() && #[trigger] is_door(buildings@, xs, gap, k, x, y));
                assert(m4.tile_at(x, y) is DeepWater);
                lemma_cell_index(w as int, h as int, x, y);
                let i = m0.idx(x, y);
                if doors@.contains(i as usize) {
                    let k = choose|k: int| 0 <= k < doors@.len() && doors@[k] == i as usize;
                    let b = buildings@[k];
                    assert(building_on_map(&m3, b));
                    lemma_idx_injective(w as int, x, y, xs[k], door_row(b, gap));
                }
                assert(m5.tiles@[i] is DeepWater);
                if i == m0.idx(w - 5, gap) {
                    lemma_idx_injective(w as int, x, y, (w - 5) as int, gap);
                }
            }
            assert(town_laid(&m0, &build_data.map, wave@, widths@, piers, gap, true));
        }
        proof {
            lemma_cell_index(w as int, h as int, (w - 5) as int, wall_gap_y as int);
            let p = choose|p: int| #[trigger] is_largest(buildings@, p) && build_data.starting_position == Some(Position {
                x: (buildings@[p].0 + buildings@[p].2 / 2) as i32,
                y: (buildings@[p].1 + buildings@[p].3 / 2) as i32,
            });
            assert(build_data.map.tile_at(w - 5, wall_gap_y as int) is DownStairs);
            assert(build_data.starting_position == Some(centre_of(buildings@[p])));
        }
        true
    }
}

} // verus!
