use vstd::prelude::*;
use crate::builders::distant_exit::UNREACHABLE;
use crate::components::Position;
use crate::map::{TileMap, max_cells, lemma_cell_index, only_tiles_changed};
use crate::builders::common::{start_column, get_central_starting_position, generate_voronoi_spawn_regions, spawn_regions_of};
use crate::tile::TileType;

verus! {

/// A builder that finds its way from the centre of a cave and keeps what
/// can be reached.
pub struct DrunkardsWalkBuilder {
    pub map: TileMap,
    pub starting_position: Position,
    pub history: Vec<TileMap>,
    /// Groups of floor cells by the noise value of their cell, in the
    /// order the values were first met.
    pub noise_areas: Vec<(i32, Vec<usize>)>,
}

/// After culling: reachable floor stays, unreachable floor becomes wall,
/// other tiles stay.
pub open spec fn culled(tiles: Seq<TileType>, distances: Seq<u32>, i: int) -> TileType {
    if tiles[i] is Floor && distances[i] == UNREACHABLE { TileType::Wall } else { tiles[i] }
}

/// `e` is the exit: the first reachable floor cell farthest from the start,
/// or 0 when none lies at a distance above zero.
pub open spec fn is_exit(tiles: Seq<TileType>, distances: Seq<u32>, e: int) -> bool {
    let cand = |i: int| tiles[i] is Floor && distances[i] != UNREACHABLE;
    if exists|i: int| 0 <= i < tiles.len() && #[trigger] cand(i) && distances[i] > 0 {
        &&& 0 <= e < tiles.len()
        &&& cand(e)
        &&& distances[e] > 0
        &&& forall|j: int| 0 <= j < tiles.len() && #[trigger] cand(j) ==> distances[j] <= distances[e]
        &&& forall|j: int| 0 <= j < e && #[trigger] cand(j) ==> distances[j] < distances[e]
    } else {
        e == 0
    }
}

/// Turns the floor that cannot be reached into wall and puts the down
/// stairs on the first reachable floor cell farthest from the start, given
/// each cell's distance (the bit pattern of a non-negative `f32`, or
/// `UNREACHABLE`). Gives back the exit's cell.
pub fn cull_and_place_exit(map: &mut TileMap, distances: &Vec<u32>) -> (r: usize)
    requires
        old(map).wf(),
        old(map).tiles@.len() > 0,
        distances@.len() == old(map).tiles@.len(),
    ensures
        final(map).wf(),
        final(map).width == old(map).width,
        final(map).height == old(map).height,
        only_tiles_changed(old(map), final(map)),
        is_exit(old(map).tiles@, distances@, r as int),
        final(map).tiles@ == Seq::new(old(map).tiles@.len(), |i: int| culled(old(map).tiles@, distances@, i)).update(r as int, TileType::DownStairs),
{
    let exit_tile = cull_unreachable(map, distances);
    map.set_tile(exit_tile, TileType::DownStairs);
    exit_tile
}

/// Turns the floor that cannot be reached into wall, given each cell's
/// distance from the start (the bit pattern of a non-negative `f32`, or
/// `UNREACHABLE`), and gives back the exit's cell: the first reachable
/// floor cell farthest from the start, or 0 when none lies at a distance
/// above zero.
pub fn cull_unreachable(map: &mut TileMap, distances: &Vec<u32>) -> (r: usize)
    requires
        old(map).wf(),
        old(map).tiles@.len() > 0,
        distances@.len() == old(map).tiles@.len(),
    ensures
        final(map).wf(),
        only_tiles_changed(old(map), final(map)),
        is_exit(old(map).tiles@, distances@, r as int),
        r < old(map).tiles@.len(),
        final(map).tiles@ == Seq::new(old(map).tiles@.len(), |i: int| culled(old(map).tiles@, distances@, i)),
{
    let ghost t0 = map.tiles@;
    let ghost cand = |i: int| t0[i] is Floor && distances@[i] != UNREACHABLE;
    let mut exit_tile: usize = 0;
    let mut best: u32 = 0;
    let n = map.tiles.len();
    for i in 0..n
        invariant
            map.wf(),
            only_tiles_changed(old(map), map),
            t0 == old(map).tiles@,
            n == t0.len(),
            distances@.len() == n,
            cand == (|i: int| t0[i] is Floor && distances@[i] != UNREACHABLE),
            map.tiles@.len() == n,
            forall|j: int| 0 <= j < n ==> #[trigger] map.tiles@[j] == (if j < i { culled(t0, distances@, j) } else { t0[j] }),
            best == 0 ==> exit_tile == 0,
            best == 0 ==> forall|j: int| 0 <= j < i && #[trigger] cand(j) ==> distances@[j] == 0,
            best > 0 ==> {
                &&& exit_tile < i
                &&& cand(exit_tile as int)
                &&& best == distances@[exit_tile as int]
                &&& forall|j: int| 0 <= j < i && #[trigger] cand(j) ==> distances@[j] <= best
                &&& forall|j: int| 0 <= j < exit_tile && #[trigger] cand(j) ==> distances@[j] < best
            },
    {
        if map.tiles[i] == TileType::Floor {
            let d = distances[i];
            if d == UNREACHABLE {
                map.set_tile(i, TileType::Wall);
            } else if d > best {
                exit_tile = i;
                best = d;
            }
        }
        proof {
            assert(cand(i as int) == (t0[i as int] is Floor && distances@[i as int] != UNREACHABLE));
        }
    }
    proof {
        if exists|i: int| 0 <= i < t0.len() && #[trigger] cand(i) && distances@[i] > 0 {
            let i = choose|i: int| 0 <= i < t0.len() && #[trigger] cand(i) && distances@[i] > 0;
            assert(best > 0);
        }
        assert(is_exit(t0, distances@, exit_tile as int));
        assert(map.tiles@ =~= Seq::new(t0.len(), |i: int| culled(t0, distances@, i)));
    }
    exit_tile
}

/// A copy of the map with every cell revealed, as a snapshot shows it.
pub fn revealed_copy(map: &TileMap) -> (r: TileMap)
    ensures
        r.tiles@ == map.tiles@,
        r.width == map.width,
        r.height == map.height,
        r.revealed_tiles@.len() == map.revealed_tiles@.len(),
        forall|i: int| 0 <= i < r.revealed_tiles@.len() ==> #[trigger] r.revealed_tiles@[i],
{
    let mut snapshot = map.duplicate();
    let n = snapshot.revealed_tiles.len();
    for i in 0..n
        invariant
            n == snapshot.revealed_tiles.len(),
            snapshot.tiles@ == map.tiles@,
            snapshot.width == map.width,
            snapshot.height == map.height,
            n == map.revealed_tiles@.len(),
            forall|j: int| 0 <= j < i ==> #[trigger] snapshot.revealed_tiles@[j],
    {
        snapshot.revealed_tiles.set(i, true);
    }
    snapshot
}

/// The last steps of a cave builder once the distance of every cell from
/// the start is known: the floor that cannot be reached becomes wall and a
/// snapshot is recorded; the down stairs go on the exit (the first
/// reachable floor cell farthest from the start) and another snapshot is
/// recorded; then the floor cells off the border are grouped by their noise
/// value (`noise`, one per cell). Gives back the exit's cell.
pub fn finish_cave(map: &mut TileMap, history: &mut Vec<TileMap>, noise_areas: &mut Vec<(i32, Vec<usize>)>,
    distances: &Vec<u32>, noise: &Vec<i32>) -> (r: usize)
    requires
        old(map).wf(),
        old(map).tiles@.len() > 0,
        distances@.len() == old(map).tiles@.len(),
        noise@.len() == old(map).tiles@.len(),
    ensures
        final(map).wf(),
        only_tiles_changed(old(map), final(map)),
        is_exit(old(map).tiles@, distances@, r as int),
        final(map).tiles@ == Seq::new(old(map).tiles@.len(), |i: int| culled(old(map).tiles@, distances@, i)).update(r as int, TileType::DownStairs),
        final(history)@.len() == old(history)@.len() + 2,
        final(history)@.subrange(0, old(history)@.len() as int) == old(history)@,
        final(history)@[old(history)@.len() as int].tiles@
            == Seq::new(old(map).tiles@.len(), |i: int| culled(old(map).tiles@, distances@, i)),
        final(history)@[old(history)@.len() + 1int].tiles@ == final(map).tiles@,
        spawn_regions_of(final(map), noise@, final(noise_areas)@),
        forall|i: int| 0 <= i < final(map).tiles@.len() && #[trigger] final(map).tiles@[i] is Floor
            ==> distances@[i] != UNREACHABLE,
        (forall|i: int| 0 <= i < old(map).tiles@.len() ==> !(#[trigger] old(map).tiles@[i] is DownStairs))
            ==> forall|i: int| 0 <= i < final(map).tiles@.len() ==> (#[trigger] final(map).tiles@[i] is DownStairs <==> i == r),
{
    let ghost h0 = history@;
    let exit_tile = cull_unreachable(map, distances);
    history.push(revealed_copy(map));
    map.set_tile(exit_tile, TileType::DownStairs);
    history.push(revealed_copy(map));
    *noise_areas = generate_voronoi_spawn_regions(map, noise);
    proof {
        assert(history@.subrange(0, h0.len() as int) =~= h0);
    }
    exit_tile
}

impl DrunkardsWalkBuilder {
    /// A builder over a fresh `width` by `height` map of walls.
    pub fn new(depth: i32, width: i32, height: i32) -> (r: DrunkardsWalkBuilder)
        requires
            0 <= width <= 0x4000,
            0 <= height <= 0x4000,
            width * height <= max_cells(),
        ensures
            r.map.wf(),
            r.map.depth == depth,
            r.map.width == width,
            r.map.height == height,
            r.history@.len() == 0,
            r.noise_areas@.len() == 0,
    {
        DrunkardsWalkBuilder {
            map: TileMap::new(depth, width, height, String::new()),
            starting_position: Position { x: 0, y: 0 },
            history: Vec::new(),
            noise_areas: Vec::new(),
        }
    }

    /// Records a copy of the map, fully revealed, in the history.
    pub fn take_snapshot(&mut self)
        ensures
            final(self).map == old(self).map,
            final(self).starting_position == old(self).starting_position,
            final(self).noise_areas == old(self).noise_areas,
            final(self).history@.len() == old(self).history@.len() + 1,
            final(self).history@.subrange(0, old(self).history@.len() as int) == old(self).history@,
    {
        let mut snapshot = self.map.duplicate();
        let n = snapshot.revealed_tiles.len();
        for i in 0..n
            invariant
                n == snapshot.revealed_tiles.len(),
        {
            snapshot.revealed_tiles.set(i, true);
        }
        self.history.push(snapshot);
    }

    /// Builds the cave on its map in the order its steps go: the start moves
    /// from the centre westwards to the first floor cell of the middle row,
    /// then, given each cell's distance from that start and its noise value,
    /// the cave is finished as [`DrunkardsWalkBuilder::finish`] says. Gives
    /// back the exit's cell.
    pub fn build(&mut self, distances: &Vec<u32>, noise: &Vec<i32>) -> (r: usize)
        requires
            old(self).map.wf(),
            old(self).map.width > 0,
            old(self).map.height > 0,
            exists|x: int| 0 <= x <= old(self).map.width / 2 && #[trigger] old(self).map.tile_at(x, old(self).map.height / 2) is Floor,
            distances@.len() == old(self).map.tiles@.len(),
            noise@.len() == old(self).map.tiles@.len(),
        ensures
            final(self).starting_position.y == old(self).map.height / 2,
            start_column(&old(self).map, final(self).starting_position.x as int),
            final(self).map.wf(),
            only_tiles_changed(&old(self).map, &final(self).map),
            is_exit(old(self).map.tiles@, distances@, r as int),
            final(self).map.tiles@ == Seq::new(old(self).map.tiles@.len(), |i: int| culled(old(self).map.tiles@, distances@, i)).update(r as int, TileType::DownStairs),
            final(self).history@.len() == old(self).history@.len() + 2,
            spawn_regions_of(&final(self).map, noise@, final(self).noise_areas@),
    {
        self.find_start();
        proof {
            assert(self.map.tiles@.len() > 0) by {
                assert(self.map.width * self.map.height > 0) by (nonlinear_arith)
                    requires self.map.width > 0, self.map.height > 0;
            }
        }
        self.finish(distances, noise)
    }

    /// Culls the floor that cannot be reached from the start, puts the down
    /// stairs on the farthest reachable floor, recording a snapshot after
    /// each, and groups the floor by noise value, as [`finish_cave`] says.
    pub fn finish(&mut self, distances: &Vec<u32>, noise: &Vec<i32>) -> (r: usize)
        requires
            old(self).map.wf(),
            old(self).map.tiles@.len() > 0,
            distances@.len() == old(self).map.tiles@.len(),
            noise@.len() == old(self).map.tiles@.len(),
        ensures
            final(self).map.wf(),
            final(self).starting_position == old(self).starting_position,
            only_tiles_changed(&old(self).map, &final(self).map),
            is_exit(old(self).map.tiles@, distances@, r as int),
            final(self).map.tiles@ == Seq::new(old(self).map.tiles@.len(), |i: int| culled(old(self).map.tiles@, distances@, i)).update(r as int, TileType::DownStairs),
            final(self).history@.len() == old(self).history@.len() + 2,
            final(self).history@.subrange(0, old(self).history@.len() as int) == old(self).history@,
            final(self).history@[old(self).history@.len() as int].tiles@
                == Seq::new(old(self).map.tiles@.len(), |i: int| culled(old(self).map.tiles@, distances@, i)),
            final(self).history@[old(self).history@.len() + 1int].tiles@ == final(self).map.tiles@,
            spawn_regions_of(&final(self).map, noise@, final(self).noise_areas@),
            forall|i: int| 0 <= i < final(self).map.tiles@.len() && #[trigger] final(self).map.tiles@[i] is Floor
                ==> distances@[i] != UNREACHABLE,
            (forall|i: int| 0 <= i < old(self).map.tiles@.len() ==> !(#[trigger] old(self).map.tiles@[i] is DownStairs))
                ==> forall|i: int| 0 <= i < final(self).map.tiles@.len() ==> (#[trigger] final(self).map.tiles@[i] is DownStairs <==> i == r),
    {
        finish_cave(&mut self.map, &mut self.history, &mut self.noise_areas, distances, noise)
    }

    /// Groups the floor cells off the border by the noise value of their
    /// cell (`values`, one per cell), in the order the values are first met.
    pub fn group_noise_areas(&mut self, values: &Vec<i32>)
        requires
            old(self).map.wf(),
            values@.len() == old(self).map.tiles@.len(),
        ensures
            final(self).map == old(self).map,
            final(self).starting_position == old(self).starting_position,
            final(self).history == old(self).history,
            spawn_regions_of(&old(self).map, values@, final(self).noise_areas@),
    {
        self.noise_areas = generate_voronoi_spawn_regions(&self.map, values);
    }

    /// Moves the start from the centre of the map westwards to the first
    /// floor cell on the middle row, and gives back its cell.
    pub fn find_start(&mut self) -> (r: usize)
        requires
            old(self).map.wf(),
            old(self).map.width > 0,
            old(self).map.height > 0,
            exists|x: int| 0 <= x <= old(self).map.width / 2 && #[trigger] old(self).map.tile_at(x, old(self).map.height / 2) is Floor,
        ensures
            final(self).map == old(self).map,
            final(self).history == old(self).history,
            final(self).noise_areas == old(self).noise_areas,
            final(self).starting_position.y == old(self).map.height / 2,
            start_column(&old(self).map, final(self).starting_position.x as int),
            r == old(self).map.idx(final(self).starting_position.x as int, final(self).starting_position.y as int),
    {
        let start = get_central_starting_position(&self.map);
        self.starting_position = start;
        proof { lemma_cell_index(self.map.width as int, self.map.height as int, start.x as int, start.y as int); }
        self.map.xy_idx(start.x, start.y)
    }
}

} // verus!
