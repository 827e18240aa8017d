use vstd::prelude::*;
use crate::builders::BuilderMap;
use crate::tile::spec_tile_walkable;
use crate::tile::TileType;

verus! {

/// The distance recorded for a cell that cannot be reached: the bit pattern
/// of the largest finite `f32`.
pub const UNREACHABLE: u32 = 0x7f7f_ffff;

/// Cell `i` may take the exit: it is floor and can be reached.
pub open spec fn exit_candidate(tiles: Seq<TileType>, distances: Seq<u32>, i: int) -> bool {
    tiles[i] is Floor && distances[i] != UNREACHABLE
}

/// `f` is where the exit goes: the first reachable floor cell among those
/// farthest from the start, or cell 0 when no reachable floor cell lies at a
/// distance above zero.
///
/// Distances are the bit patterns of non-negative `f32` values, which are
/// ordered as the values are.
pub open spec fn is_farthest(tiles: Seq<TileType>, distances: Seq<u32>, f: int) -> bool {
    if exists|i: int| 0 <= i < tiles.len() && #[trigger] exit_candidate(tiles, distances, i) && distances[i] > 0 {
        &&& 0 <= f < tiles.len()
        &&& exit_candidate(tiles, distances, f)
        &&& distances[f] > 0
        &&& forall|j: int| 0 <= j < tiles.len() && #[trigger] exit_candidate(tiles, distances, j) ==> distances[j] <= distances[f]
        &&& forall|j: int| 0 <= j < f && #[trigger] exit_candidate(tiles, distances, j) ==> distances[j] < distances[f]
    } else {
        f == 0
    }
}

/// Finds the cell for the exit: the first reachable floor cell with the
/// greatest distance from the start.
pub fn farthest_floor(tiles: &Vec<TileType>, distances: &Vec<u32>) -> (r: usize)
    requires
        distances@.len() == tiles@.len(),
    ensures
        is_farthest(tiles@, distances@, r as int),
{
    let mut farthest: usize = 0;
    let mut best: u32 = 0;
    for i in 0..tiles.len()
        invariant
            distances@.len() == tiles@.len(),
            best == 0 ==> farthest == 0,
            best == 0 ==> forall|j: int| 0 <= j < i && #[trigger] exit_candidate(tiles@, distances@, j) ==> distances@[j] == 0,
            best > 0 ==> {
                &&& farthest < i
                &&& exit_candidate(tiles@, distances@, farthest as int)
                &&& best == distances@[farthest as int]
                &&& forall|j: int| 0 <= j < i && #[trigger] exit_candidate(tiles@, distances@, j) ==> distances@[j] <= best
                &&& forall|j: int| 0 <= j < farthest && #[trigger] exit_candidate(tiles@, distances@, j) ==> distances@[j] < best
            },
    {
        if tiles[i] == TileType::Floor {
            let d = distances[i];
            if d != UNREACHABLE && d > best {
                farthest = i;
                best = d;
            }
        }
    }
    proof {
        if exists|i: int| 0 <= i < tiles@.len() && #[trigger] exit_candidate(tiles@, distances@, i) && distances@[i] > 0 {
            assert(best > 0);
        }
    }
    farthest
}

/// Puts the down stairs as far as possible from the start.
pub struct DistantExit {}

impl DistantExit {
    pub fn new() -> (r: Box<DistantExit>) {
        Box::new(DistantExit {})
    }

    /// Marks the cells that cannot be walked on as blocked, turns into down
    /// stairs the first reachable floor cell farthest from the start, given
    /// each cell's distance from it, and records a snapshot.
    pub fn place_exit(&mut self, build_data: &mut BuilderMap, distances: &Vec<u32>)
        requires
            old(build_data).wf(),
            old(build_data).map.tiles@.len() > 0,
            distances@.len() == old(build_data).map.tiles@.len(),
        ensures
            final(build_data).wf(),
            final(build_data).map.width == old(build_data).map.width,
            final(build_data).map.height == old(build_data).map.height,
            final(build_data).map.revealed_tiles == old(build_data).map.revealed_tiles,
            final(build_data).map.visible_tiles == old(build_data).map.visible_tiles,
            final(build_data).map.tile_content == old(build_data).map.tile_content,
            final(build_data).map.depth == old(build_data).map.depth,
            forall|i: int| 0 <= i < final(build_data).map.blocked@.len() ==>
                #[trigger] final(build_data).map.blocked@[i] == !spec_tile_walkable(old(build_data).map.tiles@[i]),
            final(build_data).history@.len() == old(build_data).history@.len() + 1,
            final(build_data).rooms == old(build_data).rooms,
            final(build_data).starting_position == old(build_data).starting_position,
            final(build_data).spawn_list == old(build_data).spawn_list,
            exists|f: int| #[trigger] is_farthest(old(build_data).map.tiles@, distances@, f)
                && final(build_data).map.tiles@ == old(build_data).map.tiles@.update(f, TileType::DownStairs),
    {
        build_data.map.populate_blocked();
        let f = farthest_floor(&build_data.map.tiles, distances);
        if f == 0 {
            assert(build_data.map.tiles@.len() > 0);
        }
        build_data.map.set_tile(f, TileType::DownStairs);
        build_data.take_snapshot();
    }
}

} // verus!
