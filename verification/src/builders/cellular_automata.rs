use vstd::prelude::*;
use rltk::RandomNumberGenerator;
use crate::builders::{BuilderMap, InitialMapBuilder, MetaMapBuilder};
use crate::map::{TileMap, lemma_cell_index, lemma_index_cell, only_tiles_changed};
use crate::rng::roll_dice;
use crate::tile::TileType;

verus! {

/// Index `i` is a cell of the map that is not on its outer edge.
pub open spec fn is_interior(map: &TileMap, i: int) -> bool {
    let w = map.width as int;
    &&& 0 <= i < w * map.height
    &&& 1 <= i % w < w - 1
    &&& 1 <= i / w < map.height - 1
}

/// 1 if the tile at index `i` is a wall, else 0.
pub open spec fn wall_at(tiles: Seq<TileType>, i: int) -> int {
    if tiles[i] is Wall { 1 } else { 0 }
}

/// How many of the eight cells around index `i` of a map `w` wide are walls.
pub open spec fn wall_neighbours(tiles: Seq<TileType>, w: int, i: int) -> int {
    wall_at(tiles, i - 1) + wall_at(tiles, i + 1) + wall_at(tiles, i - w) + wall_at(tiles, i + w)
        + wall_at(tiles, i - (w - 1)) + wall_at(tiles, i - (w + 1)) + wall_at(tiles, i + (w - 1))
        + wall_at(tiles, i + (w + 1))
}

/// The automaton's rule: a cell becomes wall when more than four of its
/// neighbours are walls, or none is; otherwise it becomes floor.
pub open spec fn automaton_rule(n: int) -> TileType {
    if n > 4 || n == 0 { TileType::Wall } else { TileType::Floor }
}

/// One step of the automaton on the tiles of a map: every interior cell
/// follows [`automaton_rule`] on its old neighbours; edge cells stay.
pub open spec fn automaton_step(map: &TileMap, old_tiles: Seq<TileType>, new_tiles: Seq<TileType>) -> bool {
    &&& new_tiles.len() == old_tiles.len()
    &&& forall|i: int| 0 <= i < new_tiles.len() ==> #[trigger] new_tiles[i] == if is_interior(map, i) {
        automaton_rule(wall_neighbours(old_tiles, map.width as int, i))
    } else {
        old_tiles[i]
    }
}

/// One step of the automaton on the tiles of a `w` by `h` map, as a function.
pub open spec fn automaton_next(w: int, h: int, tiles: Seq<TileType>) -> Seq<TileType> {
    Seq::new(tiles.len(), |i: int|
        if 0 <= i < w * h && 1 <= i % w < w - 1 && 1 <= i / w < h - 1 {
            automaton_rule(wall_neighbours(tiles, w, i))
        } else {
            tiles[i]
        })
}

/// The tiles after `n` steps of the automaton.
pub open spec fn automaton_run(w: int, h: int, tiles: Seq<TileType>, n: nat) -> Seq<TileType>
    decreases n,
{
    if n == 0 {
        tiles
    } else {
        automaton_next(w, h, automaton_run(w, h, tiles, (n - 1) as nat))
    }
}

/// The interior of the map filled with noise by the given rolls (one per
/// cell; only those of interior cells count): an interior cell becomes
/// floor when its roll is above 45, else wall; the edge stays as it was.
pub open spec fn noise_fill(map: &TileMap, rolls: Seq<i32>) -> Seq<TileType> {
    Seq::new(map.tiles@.len(), |i: int|
        if is_interior(map, i) {
            if rolls[i] > 45 { TileType::Floor } else { TileType::Wall }
        } else {
            map.tiles@[i]
        })
}

/// `b` is `a` with caves dug: for some d100 rolls of the interior cells the
/// map was filled with noise and recorded, then fifteen steps of the
/// automaton ran, each recorded.
pub open spec fn caves_dug(a: BuilderMap, b: BuilderMap) -> bool {
    &&& b.wf()
    &&& b.map.width == a.map.width
    &&& b.map.height == a.map.height
    &&& b.history@.len() == a.history@.len() + 16
    &&& b.starting_position == a.starting_position
    &&& exists|rolls: Seq<i32>| {
            &&& rolls.len() == a.map.tiles@.len()
            &&& forall|i: int| 0 <= i < rolls.len() && is_interior(&a.map, i) ==> 1 <= #[trigger] rolls[i] <= 100
            &&& b.history@[a.history@.len() as int].tiles@ == noise_fill(&a.map, rolls)
            &&& b.map.tiles@ == #[trigger] automaton_run(a.map.width as int, a.map.height as int, noise_fill(&a.map, rolls), 15)
    }
}

/// `b` is `a` after one step of the automaton, recorded in the history.
pub open spec fn automaton_stepped(a: BuilderMap, b: BuilderMap) -> bool {
    &&& b.wf()
    &&& b.map.width == a.map.width
    &&& b.map.height == a.map.height
    &&& automaton_step(&a.map, a.map.tiles@, b.map.tiles@)
    &&& b.history@.len() == a.history@.len() + 1
    &&& b.starting_position == a.starting_position
    &&& b.rooms == a.rooms
    &&& b.spawn_list == a.spawn_list
}

/// Turns a noisy map into caves with a cellular automaton.
pub struct CellularAutomataBuilder {}

impl InitialMapBuilder for CellularAutomataBuilder {
    /// Digs caves: see [`CellularAutomataBuilder::build`].
    fn build_map(&mut self, rng: &mut RandomNumberGenerator, build_data: &mut BuilderMap)
        ensures
            caves_dug(*old(build_data), *final(build_data)),
    {
        self.build(rng, build_data);
    }
}

impl MetaMapBuilder for CellularAutomataBuilder {
    /// Runs one more step of the automaton over the map.
    fn build_map(&mut self, rng: &mut RandomNumberGenerator, build_data: &mut BuilderMap)
        ensures
            automaton_stepped(*old(build_data), *final(build_data)),
    {
        self.apply_iteration(build_data);
    }
}

fn count_wall(tiles: &Vec<TileType>, i: usize) -> (r: i32)
    requires
        i < tiles.len(),
    ensures
        r == wall_at(tiles@, i as int),
{
    if tiles[i] == TileType::Wall { 1 } else { 0 }
}

/// Whether cell `i` is off the map's outer edge.
fn cell_is_interior(map: &TileMap, i: usize) -> (r: bool)
    requires
        map.wf(),
        i < map.tiles@.len(),
    ensures
        r == is_interior(map, i as int),
{
    let w = map.width as usize;
    let h = map.height as usize;
    proof {
        if map.width == 0 {
            assert(map.width * map.height == 0);
        }
    }
    let x = i % w;
    let y = i / w;
    1 <= x && x + 1 < w && 1 <= y && y + 1 < h
}

/// Fills the interior of the map with noise by the given rolls (one per
/// cell; only those of interior cells count): an interior cell becomes
/// floor when its roll is above 45, else wall.
pub fn fill_with_noise(map: &mut TileMap, rolls: &Vec<i32>)
    requires
        old(map).wf(),
        rolls@.len() == old(map).tiles@.len(),
    ensures
        final(map).wf(),
        only_tiles_changed(old(map), final(map)),
        final(map).tiles@ == noise_fill(old(map), rolls@),
{
    let ghost m0 = *map;
    let n = map.tiles.len();
    for i in 0..n
        invariant
            map.wf(),
            m0.wf(),
            only_tiles_changed(&m0, map),
            n == m0.tiles@.len(),
            rolls@.len() == n,
            forall|k: int| 0 <= k < n ==> #[trigger] map.tiles@[k] == (if k < i { noise_fill(&m0, rolls@)[k] } else { m0.tiles@[k] }),
    {
        if cell_is_interior(map, i) {
            let t = if rolls[i] > 45 { TileType::Floor } else { TileType::Wall };
            map.set_tile(i, t);
        }
    }
    proof {
        assert(map.tiles@ =~= noise_fill(&m0, rolls@));
    }
}

impl CellularAutomataBuilder {
    pub fn new() -> (r: Box<CellularAutomataBuilder>) {
        Box::new(CellularAutomataBuilder {})
    }

    /// Fills the interior with random noise (a cell turns to floor when a
    /// d100 rolls above 45, so 55 cells in 100, else to wall; see
    /// [`fill_with_noise`]) and runs fifteen steps of the automaton; records a
    /// snapshot after the noise and after each step.
    pub fn build(&mut self, rng: &mut RandomNumberGenerator, build_data: &mut BuilderMap)
        requires
            old(build_data).wf(),
        ensures
            caves_dug(*old(build_data), *final(build_data)),
    {
        let ghost m0 = build_data.map;
        let ghost h0 = build_data.history@.len();
        let h = build_data.map.height;
        let w = build_data.map.width;
        let n = build_data.map.tiles.len();
        let mut rolls: Vec<i32> = Vec::new();
        for i in 0..n
            invariant
                build_data.wf(),
                build_data.map == m0,
                n == m0.tiles@.len(),
                rolls@.len() == i,
                forall|k: int| 0 <= k < i && is_interior(&m0, k) ==> 1 <= #[trigger] rolls@[k] <= 100,
        {
            if cell_is_interior(&build_data.map, i) {
                let roll = roll_dice(rng, 1, 100);
                rolls.push(roll);
            } else {
                rolls.push(0);
            }
        }
        fill_with_noise(&mut build_data.map, &rolls);
        build_data.take_snapshot();
        let ghost noise = build_data.map.tiles@;
        proof {
            assert(noise =~= automaton_run(w as int, h as int, noise, 0));
        }
        for k in 0..15usize
            invariant
                build_data.map.tiles@ == automaton_run(w as int, h as int, noise, k as nat),
                noise == noise_fill(&m0, rolls@),
                build_data.wf(),
                build_data.map.width == w,
                build_data.map.height == h,
                w == m0.width,
                h == m0.height,
                build_data.history@.len() == h0 + 1 + k,
                build_data.history@[h0 as int].tiles@ == noise,
                build_data.starting_position == old(build_data).starting_position,
        {
            let ghost before = build_data.map.tiles@;
            let ghost hist = build_data.history@;
            self.apply_iteration(build_data);
            proof {
                assert(build_data.history@[h0 as int] == hist[h0 as int]);
                assert(build_data.map.tiles@ =~= automaton_next(w as int, h as int, before));
            }
        }
        proof {
            let r = rolls@;
            assert(forall|i: int| 0 <= i < r.len() && is_interior(&m0, i) ==> 1 <= #[trigger] r[i] <= 100);
            assert(build_data.map.tiles@ == automaton_run(m0.width as int, m0.height as int, noise_fill(&m0, r), 15));
        }
    }

    /// One step of the automaton over the whole map.
    pub fn apply_iteration(&mut self, build_data: &mut BuilderMap)
        requires
            old(build_data).wf(),
        ensures
            final(build_data).wf(),
            final(build_data).map.width == old(build_data).map.width,
            final(build_data).map.height == old(build_data).map.height,
            automaton_step(&old(build_data).map, old(build_data).map.tiles@, final(build_data).map.tiles@),
            final(build_data).history@.len() == old(build_data).history@.len() + 1,
            final(build_data).history@.subrange(0, old(build_data).history@.len() as int) == old(build_data).history@,
            final(build_data).starting_position == old(build_data).starting_position,
            final(build_data).rooms == old(build_data).rooms,
            final(build_data).spawn_list == old(build_data).spawn_list,
    {
        let mut new_tiles = build_data.map.tiles.clone();
        let ghost t0 = build_data.map.tiles@;
        let h = build_data.map.height;
        let w = build_data.map.width;
        let mut y: i32 = 1;
        while y < h - 1
            invariant
                build_data.wf(),
                build_data.map.width == w,
                build_data.map.height == h,
                build_data.map.tiles@ == t0,
                new_tiles@.len() == t0.len(),
                1 <= y,
                forall|i: int| 0 <= i < t0.len() ==> #[trigger] new_tiles@[i] == if is_interior(&build_data.map, i) && i / (w as int) < y {
                    automaton_rule(wall_neighbours(t0, w as int, i))
                } else {
                    t0[i]
                },
            decreases h - 1 - y,
        {
            let mut x: i32 = 1;
            while x < w - 1
                invariant
                    build_data.wf(),
                    build_data.map.width == w,
                    build_data.map.height == h,
                    build_data.map.tiles@ == t0,
                    new_tiles@.len() == t0.len(),
                    1 <= y < h - 1,
                    1 <= x,
                    forall|i: int| 0 <= i < t0.len() ==> #[trigger] new_tiles@[i] == if is_interior(&build_data.map, i) && (i / (w as int) < y || (i / (w as int) == y && i % (w as int) < x)) {
                        automaton_rule(wall_neighbours(t0, w as int, i))
                    } else {
                        t0[i]
                    },
                decreases w - 1 - x,
            {
                proof {
                    lemma_cell_index(w as int, h as int, x as int, y as int);
                    lemma_cell_index(w as int, h as int, x as int + 1, y as int + 1);
                    lemma_cell_index(w as int, h as int, x as int - 1, y as int - 1);
                    assert((y + 1) * w == y * w + w) by (nonlinear_arith);
                    assert((y - 1) * w == y * w - w) by (nonlinear_arith);
                }
                let idx = build_data.map.xy_idx(x, y);
                let wu = w as usize;
                let tiles = &build_data.map.tiles;
                let neighbors = count_wall(tiles, idx - 1) + count_wall(tiles, idx + 1) + count_wall(tiles, idx - wu)
                    + count_wall(tiles, idx + wu) + count_wall(tiles, idx - (wu - 1)) + count_wall(tiles, idx - (wu + 1))
                    + count_wall(tiles, idx + (wu - 1)) + count_wall(tiles, idx + (wu + 1));
                let t = if neighbors > 4 || neighbors == 0 { TileType::Wall } else { TileType::Floor };
                let ghost before = new_tiles@;
                new_tiles.set(idx, t);
                proof {
                    vstd::arithmetic::div_mod::lemma_fundamental_div_mod_converse(idx as int, w as int, y as int, x as int);
                    assert forall|i: int| 0 <= i < t0.len() implies #[trigger] new_tiles@[i] == if is_interior(&build_data.map, i) && (i / (w as int) < y || (i / (w as int) == y && i % (w as int) < x + 1)) {
                        automaton_rule(wall_neighbours(t0, w as int, i))
                    } else {
                        t0[i]
                    } by {
                        lemma_index_cell(w as int, h as int, i);
                        if i != idx {
                            assert(new_tiles@[i] == before[i]);
                            if i % (w as int) == x && i / (w as int) == y {
                                assert(i == y * w + x);
                            }
                        }
                    }
                }
                x = x + 1;
            }
            y = y + 1;
        }
        proof {
            assert forall|i: int| 0 <= i < t0.len() implies #[trigger] new_tiles@[i] == if is_interior(&build_data.map, i) {
                automaton_rule(wall_neighbours(t0, w as int, i))
            } else {
                t0[i]
            } by {
                lemma_index_cell(w as int, h as int, i);
            }
        }
        build_data.map.tiles = new_tiles;
        build_data.take_snapshot();
    }
}

} // verus!
