use vstd::prelude::*;
use crate::tile::TileType;
use crate::map::{TileMap, lemma_cell_index, lemma_idx_injective};

verus! {

/// A square pattern of tiles cut from a map, with the floor cells on each of
/// its edges (its exits) and, for each edge, the patterns that may lie beyond it.
///
/// Edges are numbered north 0, south 1, west 2, east 3.
pub struct MapChunk {
    pub pattern: Vec<TileType>,
    pub exits: [Vec<bool>; 4],
    pub has_exits: bool,
    pub compatible_with: [Vec<usize>; 4],
}

/// The index of cell `(x, y)` in a square chunk of side `chunk_size`.
pub open spec fn chunk_idx(chunk_size: int, x: int, y: int) -> int {
    y * chunk_size + x
}

/// The index of cell `(x, y)` in a square chunk of side `chunk_size`.
pub fn tile_idx_in_chunk(chunk_size: i32, x: i32, y: i32) -> (r: usize)
    requires
        0 <= x < chunk_size,
        0 <= y < chunk_size,
        chunk_size * chunk_size <= i32::MAX,
    ensures
        r == chunk_idx(chunk_size as int, x as int, y as int),
        r < chunk_size * chunk_size,
{
    proof {
        assert(0 <= y * chunk_size + x < chunk_size * chunk_size) by (nonlinear_arith)
            requires 0 <= x < chunk_size, 0 <= y < chunk_size;
    }
    (y * chunk_size + x) as usize
}

/// The cell at position `k` along edge `dir` of a chunk: north runs along
/// the top row, south along the bottom row, west down the left column and
/// east down the right column.
pub open spec fn edge_cell(chunk_size: int, dir: int, k: int) -> int {
    if dir == 0 {
        chunk_idx(chunk_size, k, 0)
    } else if dir == 1 {
        chunk_idx(chunk_size, k, chunk_size - 1)
    } else if dir == 2 {
        chunk_idx(chunk_size, 0, k)
    } else {
        chunk_idx(chunk_size, chunk_size - 1, k)
    }
}

/// Whether position `k` along edge `dir` of the pattern is an exit (a floor tile).
pub open spec fn spec_exit(pattern: Seq<TileType>, chunk_size: int, dir: int, k: int) -> bool {
    pattern[edge_cell(chunk_size, dir, k)] is Floor
}

/// The edge facing edge `dir` of a neighbour.
pub open spec fn opposite(dir: int) -> int {
    if dir == 0 { 1 } else if dir == 1 { 0 } else if dir == 2 { 3 } else { 2 }
}

/// Whether the pattern has an exit on any edge.
pub open spec fn spec_has_exits(pattern: Seq<TileType>, chunk_size: int) -> bool {
    exists|dir: int, k: int| 0 <= dir < 4 && 0 <= k < chunk_size && #[trigger] spec_exit(pattern, chunk_size, dir, k)
}

/// Pattern `b` may lie beyond edge `dir` of pattern `a`: one of them has no
/// exits at all, or `a` has no exit on that edge, or some exit of `a` on that
/// edge meets an exit of `b` on the facing edge.
pub open spec fn spec_compatible(a: Seq<TileType>, b: Seq<TileType>, chunk_size: int, dir: int) -> bool {
    ||| !spec_has_exits(a, chunk_size)
    ||| !spec_has_exits(b, chunk_size)
    ||| !(exists|k: int| 0 <= k < chunk_size && #[trigger] spec_exit(a, chunk_size, dir, k))
    ||| exists|k: int| 0 <= k < chunk_size && #[trigger] spec_exit(a, chunk_size, dir, k) && spec_exit(b, chunk_size, opposite(dir), k)
}

/// Compatibility is symmetric where both facing edges have exits: `b` may
/// lie beyond edge `dir` of `a` exactly when `a` may lie beyond the facing
/// edge of `b`.
pub proof fn lemma_compatible_symmetric(a: Seq<TileType>, b: Seq<TileType>, chunk_size: int, dir: int)
    requires
        0 <= dir < 4,
        exists|k: int| 0 <= k < chunk_size && #[trigger] spec_exit(a, chunk_size, dir, k),
        exists|k: int| 0 <= k < chunk_size && #[trigger] spec_exit(b, chunk_size, opposite(dir), k),
    ensures
        spec_compatible(a, b, chunk_size, dir) == spec_compatible(b, a, chunk_size, opposite(dir)),
{
    assert(opposite(opposite(dir)) == dir);
    let ka = choose|k: int| 0 <= k < chunk_size && #[trigger] spec_exit(a, chunk_size, dir, k);
    let kb = choose|k: int| 0 <= k < chunk_size && #[trigger] spec_exit(b, chunk_size, opposite(dir), k);
    assert(spec_has_exits(a, chunk_size));
    assert(spec_has_exits(b, chunk_size));
    if spec_compatible(a, b, chunk_size, dir) {
        let k = choose|k: int| 0 <= k < chunk_size && #[trigger] spec_exit(a, chunk_size, dir, k) && spec_exit(b, chunk_size, opposite(dir), k);
        assert(spec_exit(b, chunk_size, opposite(dir), k) && spec_exit(a, chunk_size, opposite(opposite(dir)), k));
    }
    if spec_compatible(b, a, chunk_size, opposite(dir)) {
        let k = choose|k: int| 0 <= k < chunk_size && #[trigger] spec_exit(b, chunk_size, opposite(dir), k) && spec_exit(a, chunk_size, opposite(opposite(dir)), k);
        assert(spec_exit(a, chunk_size, dir, k) && spec_exit(b, chunk_size, opposite(dir), k));
    }
}

/// The chunk describes pattern `p` among `patterns`: its exits, whether it
/// has any, and on each edge the indices, in increasing order, of the patterns
/// that may lie beyond that edge.
pub open spec fn chunk_describes(c: MapChunk, patterns: Seq<Seq<TileType>>, p: int, chunk_size: int) -> bool {
    &&& c.pattern@ == patterns[p]
    &&& c.has_exits == spec_has_exits(patterns[p], chunk_size)
    &&& forall|dir: int| 0 <= dir < 4 ==> {
        &&& (#[trigger] c.exits@[dir])@.len() == chunk_size
        &&& forall|k: int| 0 <= k < chunk_size ==> c.exits@[dir]@[k] == spec_exit(patterns[p], chunk_size, dir, k)
        &&& c.compatible_with@[dir]@ == Seq::new(patterns.len(), |j: int| j as usize).filter(
            |j: usize| spec_compatible(patterns[p], patterns[j as int], chunk_size, dir),
        )
    }
}

/// An index `j` of `0..n` is in the increasing list of the indices that
/// pass `pred` exactly when it passes `pred`.
proof fn lemma_index_filter_contains(n: int, pred: spec_fn(usize) -> bool, j: int)
    requires
        0 <= j < n <= usize::MAX + 1,
    ensures
        Seq::new(n as nat, |q: int| q as usize).filter(pred).contains(j as usize) == pred(j as usize),
{
    let all = Seq::new(n as nat, |q: int| q as usize);
    assert(all[j] == j as usize);
    if pred(j as usize) {
        all.lemma_filter_contains(pred, j);
    }
    if all.filter(pred).contains(j as usize) {
        let m = choose|m: int| 0 <= m < all.filter(pred).len() && all.filter(pred)[m] == j as usize;
        all.lemma_filter_pred(pred, m);
    }
}

/// In chunks that describe their patterns (as `patterns_to_constraints`
/// builds them), where both facing edges have exits, pattern `j` is listed
/// beyond edge `dir` of pattern `i` exactly when `i` is listed beyond the
/// facing edge of `j`.
pub proof fn lemma_constraints_symmetric(r: Seq<MapChunk>, patterns: Seq<Seq<TileType>>, chunk_size: int,
    i: int, j: int, dir: int)
    requires
        r.len() == patterns.len(),
        patterns.len() <= usize::MAX,
        forall|p: int| 0 <= p < r.len() ==> chunk_describes(#[trigger] r[p], patterns, p, chunk_size),
        0 <= i < r.len(),
        0 <= j < r.len(),
        0 <= dir < 4,
        exists|k: int| 0 <= k < chunk_size && #[trigger] spec_exit(patterns[i], chunk_size, dir, k),
        exists|k: int| 0 <= k < chunk_size && #[trigger] spec_exit(patterns[j], chunk_size, opposite(dir), k),
    ensures
        r[i].compatible_with@[dir]@.contains(j as usize) == r[j].compatible_with@[opposite(dir)]@.contains(i as usize),
{
    let n = patterns.len() as int;
    let od = opposite(dir);
    assert(chunk_describes(r[i], patterns, i, chunk_size));
    assert(chunk_describes(r[j], patterns, j, chunk_size));
    assert(0 <= od < 4);
    assert((r[i].exits@[dir])@.len() == chunk_size);
    assert((r[j].exits@[od])@.len() == chunk_size);
    lemma_index_filter_contains(n, |q: usize| spec_compatible(patterns[i], patterns[q as int], chunk_size, dir), j);
    lemma_index_filter_contains(n, |q: usize| spec_compatible(patterns[j], patterns[q as int], chunk_size, od), i);
    lemma_compatible_symmetric(patterns[i], patterns[j], chunk_size, dir);
}

/// Whether tile `t` is floor.
fn is_floor_tile(t: TileType) -> (r: bool)
    ensures
        r == (t is Floor),
{
    match t {
        TileType::Floor => true,
        _ => false,
    }
}

/// The exits along edge `dir` of a pattern.
fn edge_exits(pattern: &Vec<TileType>, chunk_size: i32, dir: i32) -> (r: Vec<bool>)
    requires
        1 <= chunk_size && chunk_size * chunk_size <= i32::MAX,
        pattern@.len() >= chunk_size * chunk_size,
        0 <= dir < 4,
    ensures
        r@.len() == chunk_size,
        forall|k: int| 0 <= k < chunk_size ==> #[trigger] r@[k] == spec_exit(pattern@, chunk_size as int, dir as int, k),
{
    let mut r: Vec<bool> = Vec::new();
    for k in 0..chunk_size
        invariant
            1 <= chunk_size && chunk_size * chunk_size <= i32::MAX,
            pattern@.len() >= chunk_size * chunk_size,
            0 <= dir < 4,
            r@.len() == k,
            forall|j: int| 0 <= j < k ==> #[trigger] r@[j] == spec_exit(pattern@, chunk_size as int, dir as int, j),
    {
        let idx = if dir == 0 {
            tile_idx_in_chunk(chunk_size, k, 0)
        } else if dir == 1 {
            tile_idx_in_chunk(chunk_size, k, chunk_size - 1)
        } else if dir == 2 {
            tile_idx_in_chunk(chunk_size, 0, k)
        } else {
            tile_idx_in_chunk(chunk_size, chunk_size - 1, k)
        };
        r.push(is_floor_tile(pattern[idx]));
    }
    r
}

/// Whether any entry is set.
fn any_set(v: &Vec<bool>) -> (r: bool)
    ensures
        r == (exists|k: int| 0 <= k < v@.len() && #[trigger] v@[k]),
{
    for k in 0..v.len()
        invariant
            forall|j: int| 0 <= j < k ==> !#[trigger] v@[j],
    {
        if v[k] {
            return true;
        }
    }
    false
}

/// Whether some position is set in both.
fn any_both(a: &Vec<bool>, b: &Vec<bool>) -> (r: bool)
    requires
        a@.len() == b@.len(),
    ensures
        r == (exists|k: int| 0 <= k < a@.len() && #[trigger] a@[k] && b@[k]),
{
    for k in 0..a.len()
        invariant
            a@.len() == b@.len(),
            forall|j: int| 0 <= j < k ==> !(#[trigger] a@[j] && b@[j]),
    {
        if a[k] && b[k] {
            return true;
        }
    }
    false
}

/// Turns each pattern into a chunk: its exits on each edge and, for each
/// edge, which patterns may lie beyond it.
pub fn patterns_to_constraints(patterns: Vec<Vec<TileType>>, chunk_size: i32) -> (r: Vec<MapChunk>)
    requires
        1 <= chunk_size && chunk_size * chunk_size <= i32::MAX,
        forall|p: int| 0 <= p < patterns@.len() ==> (#[trigger] patterns@[p])@.len() >= chunk_size * chunk_size,
    ensures
        r@.len() == patterns@.len(),
        forall|p: int| 0 <= p < r@.len() ==>
            chunk_describes(#[trigger] r@[p], patterns@.map_values(|v: Vec<TileType>| v@), p, chunk_size as int),
{
    let ghost pats = patterns@.map_values(|v: Vec<TileType>| v@);
    let n = patterns.len();
    // The exits of every pattern.
    let mut all_exits: Vec<[Vec<bool>; 4]> = Vec::new();
    let mut all_has: Vec<bool> = Vec::new();
    for p in 0..n
        invariant
            n == patterns@.len(),
            pats == patterns@.map_values(|v: Vec<TileType>| v@),
            1 <= chunk_size && chunk_size * chunk_size <= i32::MAX,
            forall|q: int| 0 <= q < patterns@.len() ==> (#[trigger] patterns@[q])@.len() >= chunk_size * chunk_size,
            all_exits@.len() == p,
            all_has@.len() == p,
            forall|q: int, dir: int| 0 <= q < p && 0 <= dir < 4 ==> {
                &&& (#[trigger] all_exits@[q]@[dir])@.len() == chunk_size
                &&& forall|k: int| 0 <= k < chunk_size ==> #[trigger] all_exits@[q]@[dir]@[k] == spec_exit(pats[q], chunk_size as int, dir, k)
            },
            forall|q: int| 0 <= q < p ==> #[trigger] all_has@[q] == spec_has_exits(pats[q], chunk_size as int),
    {
        let pattern = &patterns[p];
        let north = edge_exits(pattern, chunk_size, 0);
        let south = edge_exits(pattern, chunk_size, 1);
        let west = edge_exits(pattern, chunk_size, 2);
        let east = edge_exits(pattern, chunk_size, 3);
        let has = any_set(&north) || any_set(&south) || any_set(&west) || any_set(&east);
        proof {
            assert(pats[p as int] == pattern@);
            if has {
                if exists|k: int| 0 <= k < north@.len() && #[trigger] north@[k] {
                    let k = choose|k: int| 0 <= k < north@.len() && #[trigger] north@[k];
                    assert(spec_exit(pats[p as int], chunk_size as int, 0, k));
                } else if exists|k: int| 0 <= k < south@.len() && #[trigger] south@[k] {
                    let k = choose|k: int| 0 <= k < south@.len() && #[trigger] south@[k];
                    assert(spec_exit(pats[p as int], chunk_size as int, 1, k));
                } else if exists|k: int| 0 <= k < west@.len() && #[trigger] west@[k] {
                    let k = choose|k: int| 0 <= k < west@.len() && #[trigger] west@[k];
                    assert(spec_exit(pats[p as int], chunk_size as int, 2, k));
                } else {
                    let k = choose|k: int| 0 <= k < east@.len() && #[trigger] east@[k];
                    assert(spec_exit(pats[p as int], chunk_size as int, 3, k));
                }
            } else {
                assert forall|dir: int, k: int| 0 <= dir < 4 && 0 <= k < chunk_size implies !#[trigger] spec_exit(pats[p as int], chunk_size as int, dir, k) by {
                    if dir == 0 { assert(!north@[k]); } else if dir == 1 { assert(!south@[k]); } else if dir == 2 { assert(!west@[k]); } else { assert(!east@[k]); }
                }
            }
        }
        let ghost prev = all_exits@;
        all_exits.push([north, south, west, east]);
        all_has.push(has);
        proof {
            assert forall|q: int, dir: int| 0 <= q < p + 1 && 0 <= dir < 4 implies {
                &&& (#[trigger] all_exits@[q]@[dir])@.len() == chunk_size
                &&& forall|k: int| 0 <= k < chunk_size ==> #[trigger] all_exits@[q]@[dir]@[k] == spec_exit(pats[q], chunk_size as int, dir, k)
            } by {
                if q < p {
                    assert(all_exits@[q] == prev[q]);
                } else {
                    assert(pats[q] == pattern@);
                }
            }
        }
    }
    // The compatibility lists.
    let mut constraints: Vec<MapChunk> = Vec::new();
    let mut p: usize = 0;
    while p < n
        invariant
            n == all_exits@.len(),
            n == all_has@.len(),
            n == patterns@.len(),
            p <= n,
            pats == patterns@.map_values(|v: Vec<TileType>| v@),
            1 <= chunk_size && chunk_size * chunk_size <= i32::MAX,
            forall|q: int, dir: int| 0 <= q < n && 0 <= dir < 4 ==> {
                &&& (#[trigger] all_exits@[q]@[dir])@.len() == chunk_size
                &&& forall|k: int| 0 <= k < chunk_size ==> #[trigger] all_exits@[q]@[dir]@[k] == spec_exit(pats[q], chunk_size as int, dir, k)
            },
            forall|q: int| 0 <= q < n ==> #[trigger] all_has@[q] == spec_has_exits(pats[q], chunk_size as int),
            constraints@.len() == p,
            forall|q: int| 0 <= q < p ==> chunk_describes(#[trigger] constraints@[q], pats, q, chunk_size as int),
        decreases n - p,
    {
        let mut compat: Vec<Vec<usize>> = Vec::new();
        for dir in 0..4usize
            invariant
                n == all_exits@.len(),
                n == all_has@.len(),
                p < n,
                1 <= chunk_size && chunk_size * chunk_size <= i32::MAX,
                forall|q: int, dd: int| 0 <= q < n && 0 <= dd < 4 ==> {
                    &&& (#[trigger] all_exits@[q]@[dd])@.len() == chunk_size
                    &&& forall|k: int| 0 <= k < chunk_size ==> #[trigger] all_exits@[q]@[dd]@[k] == spec_exit(pats[q], chunk_size as int, dd, k)
                },
                forall|q: int| 0 <= q < n ==> #[trigger] all_has@[q] == spec_has_exits(pats[q], chunk_size as int),
                compat@.len() == dir,
                forall|dd: int| 0 <= dd < dir ==> (#[trigger] compat@[dd])@ == Seq::new(n as nat, |j: int| j as usize).filter(
                    |j: usize| spec_compatible(pats[p as int], pats[j as int], chunk_size as int, dd),
                ),
        {
            let mut list: Vec<usize> = Vec::new();
            let ghost f = |j: usize| spec_compatible(pats[p as int], pats[j as int], chunk_size as int, dir as int);
            let ghost all = Seq::new(n as nat, |j: int| j as usize);
            for j in 0..n
                invariant
                    n == all_exits@.len(),
                    n == all_has@.len(),
                    p < n,
                    dir < 4,
                    1 <= chunk_size && chunk_size * chunk_size <= i32::MAX,
                    forall|q: int, dd: int| 0 <= q < n && 0 <= dd < 4 ==> {
                        &&& (#[trigger] all_exits@[q]@[dd])@.len() == chunk_size
                        &&& forall|k: int| 0 <= k < chunk_size ==> #[trigger] all_exits@[q]@[dd]@[k] == spec_exit(pats[q], chunk_size as int, dd, k)
                    },
                    forall|q: int| 0 <= q < n ==> #[trigger] all_has@[q] == spec_has_exits(pats[q], chunk_size as int),
                    f == (|j: usize| spec_compatible(pats[p as int], pats[j as int], chunk_size as int, dir as int)),
                    all == Seq::new(n as nat, |j: int| j as usize),
                    list@ == all.take(j as int).filter(f),
            {
                let mine = &all_exits[p][dir];
                let theirs = &all_exits[j][if dir == 0 { 1 } else if dir == 1 { 0 } else if dir == 2 { 3 } else { 2 }];
                let ok = if !all_has[p] || !all_has[j] {
                    true
                } else {
                    let it_fits = any_both(mine, theirs);
                    let has_any = any_set(mine);
                    it_fits || !has_any
                };
                proof {
                    let opp = opposite(dir as int);
                    assert(theirs@ == all_exits@[j as int]@[opp]@);
                    assert((exists|k: int| 0 <= k < mine@.len() && #[trigger] mine@[k] && theirs@[k])
                        == (exists|k: int| 0 <= k < chunk_size && #[trigger] spec_exit(pats[p as int], chunk_size as int, dir as int, k)
                            && spec_exit(pats[j as int], chunk_size as int, opp, k))) by {
                        if exists|k: int| 0 <= k < mine@.len() && #[trigger] mine@[k] && theirs@[k] {
                            let k = choose|k: int| 0 <= k < mine@.len() && #[trigger] mine@[k] && theirs@[k];
                            assert(spec_exit(pats[p as int], chunk_size as int, dir as int, k));
                        }
                        if exists|k: int| 0 <= k < chunk_size && #[trigger] spec_exit(pats[p as int], chunk_size as int, dir as int, k)
                            && spec_exit(pats[j as int], chunk_size as int, opp, k) {
                            let k = choose|k: int| 0 <= k < chunk_size && #[trigger] spec_exit(pats[p as int], chunk_size as int, dir as int, k)
                                && spec_exit(pats[j as int], chunk_size as int, opp, k);
                            assert(mine@[k] && theirs@[k]);
                        }
                    }
                    assert((exists|k: int| 0 <= k < mine@.len() && #[trigger] mine@[k])
                        == (exists|k: int| 0 <= k < chunk_size && #[trigger] spec_exit(pats[p as int], chunk_size as int, dir as int, k))) by {
                        if exists|k: int| 0 <= k < mine@.len() && #[trigger] mine@[k] {
                            let k = choose|k: int| 0 <= k < mine@.len() && #[trigger] mine@[k];
                            assert(spec_exit(pats[p as int], chunk_size as int, dir as int, k));
                        }
                        if exists|k: int| 0 <= k < chunk_size && #[trigger] spec_exit(pats[p as int], chunk_size as int, dir as int, k) {
                            let k = choose|k: int| 0 <= k < chunk_size && #[trigger] spec_exit(pats[p as int], chunk_size as int, dir as int, k);
                            assert(mine@[k]);
                        }
                    }
                    assert(ok == f(j));
                    assert(all.take(j + 1) == all.take(j as int).push(j));
                    all.take(j as int).lemma_filter_push(j, f);
                }
                if ok {
                    list.push(j);
                }
            }
            proof { assert(all.take(n as int) == all); }
            compat.push(list);
        }
        let c3 = compat.pop().unwrap();
        let c2 = compat.pop().unwrap();
        let c1 = compat.pop().unwrap();
        let c0 = compat.pop().unwrap();
        let exits_p = [
            clone_bools(&all_exits[p][0]),
            clone_bools(&all_exits[p][1]),
            clone_bools(&all_exits[p][2]),
            clone_bools(&all_exits[p][3]),
        ];
        let pattern = clone_tiles(&patterns[p]);
        let chunk = MapChunk { pattern, exits: exits_p, has_exits: all_has[p], compatible_with: [c0, c1, c2, c3] };
        proof {
            assert(pats[p as int] == patterns@[p as int]@);
            assert forall|dir: int| 0 <= dir < 4 implies {
                &&& (#[trigger] chunk.exits@[dir])@.len() == chunk_size
                &&& forall|k: int| 0 <= k < chunk_size ==> chunk.exits@[dir]@[k] == spec_exit(pats[p as int], chunk_size as int, dir, k)
                &&& chunk.compatible_with@[dir]@ == Seq::new(pats.len(), |j: int| j as usize).filter(
                    |j: usize| spec_compatible(pats[p as int], pats[j as int], chunk_size as int, dir),
                )
            } by {
                assert(chunk.exits@[dir] == all_exits@[p as int]@[dir] || chunk.exits@[dir]@ == all_exits@[p as int]@[dir]@);
                assert(pats.len() == n);
            }
            assert(chunk_describes(chunk, pats, p as int, chunk_size as int));
        }
        constraints.push(chunk);
        proof {
            assert forall|q: int| 0 <= q < p + 1 implies chunk_describes(#[trigger] constraints@[q], pats, q, chunk_size as int) by {}
        }
        p = p + 1;
    }
    constraints
}

/// A copy of a pattern.
fn clone_tiles(v: &Vec<TileType>) -> (r: Vec<TileType>)
    ensures
        r@ == v@,
{
    let mut r: Vec<TileType> = Vec::new();
    for k in 0..v.len()
        invariant
            r@ == v@.take(k as int),
    {
        r.push(v[k]);
        proof { assert(v@.take(k + 1) == v@.take(k as int).push(v@[k as int])); }
    }
    proof { assert(v@.take(v@.len() as int) == v@); }
    r
}

/// A copy of a vector of flags.
fn clone_bools(v: &Vec<bool>) -> (r: Vec<bool>)
    ensures
        r@ == v@,
{
    let mut r: Vec<bool> = Vec::new();
    for k in 0..v.len()
        invariant
            r@ == v@.take(k as int),
    {
        r.push(v[k]);
        proof { assert(v@.take(k + 1) == v@.take(k as int).push(v@[k as int])); }
    }
    proof { assert(v@.take(v@.len() as int) == v@); }
    r
}

/// The tiles of chunk `(cx, cy)` of the map, row by row, mirrored left to
/// right when `flip_x` and top to bottom when `flip_y`.
pub open spec fn chunk_pattern(map: &TileMap, cs: int, cx: int, cy: int, flip_x: bool, flip_y: bool) -> Seq<TileType> {
    Seq::new((cs * cs) as nat, |k: int| {
        let lx = k % cs;
        let ly = k / cs;
        map.tile_at(cx * cs + if flip_x { cs - 1 - lx } else { lx }, cy * cs + if flip_y { cs - 1 - ly } else { ly })
    })
}

/// The patterns cut from the map before duplicates are dropped: for each
/// chunk, row by row, the chunk itself and, with `include_flipping`, its
/// left-right mirror, its top-bottom mirror and both mirrors.
pub open spec fn raw_patterns(map: &TileMap, cs: int, include_flipping: bool) -> Seq<Seq<TileType>> {
    let chunks_x = (map.width as int) / cs;
    let chunks_y = (map.height as int) / cs;
    let m = if include_flipping { 4int } else { 1int };
    Seq::new((chunks_x * chunks_y * m) as nat, |p: int| {
        let c = p / m;
        let v = p % m;
        chunk_pattern(map, cs, c % chunks_x, c / chunks_x, v == 1 || v == 3, v == 2 || v == 3)
    })
}

/// The tiles of one chunk, possibly mirrored.
fn extract_chunk(map: &TileMap, chunk_size: i32, cx: i32, cy: i32, flip_x: bool, flip_y: bool) -> (r: Vec<TileType>)
    requires
        map.wf(),
        1 <= chunk_size,
        0 <= cx < (map.width as int) / (chunk_size as int),
        0 <= cy < (map.height as int) / (chunk_size as int),
    ensures
        r@ == chunk_pattern(map, chunk_size as int, cx as int, cy as int, flip_x, flip_y),
{
    let cs = chunk_size;
    let ghost target = chunk_pattern(map, cs as int, cx as int, cy as int, flip_x, flip_y);
    proof {
        vstd::arithmetic::div_mod::lemma_fundamental_div_mod(map.width as int, cs as int);
        vstd::arithmetic::div_mod::lemma_fundamental_div_mod(map.height as int, cs as int);
        assert((cx + 1) * cs <= map.width) by (nonlinear_arith)
            requires cx + 1 <= (map.width as int) / (cs as int), map.width == cs * ((map.width as int) / (cs as int)) + (map.width as int) % (cs as int), (map.width as int) % (cs as int) >= 0, cs >= 1;
        assert((cy + 1) * cs <= map.height) by (nonlinear_arith)
            requires cy + 1 <= (map.height as int) / (cs as int), map.height == cs * ((map.height as int) / (cs as int)) + (map.height as int) % (cs as int), (map.height as int) % (cs as int) >= 0, cs >= 1;
        assert(cs <= map.width) by (nonlinear_arith) requires (cx + 1) * cs <= map.width, cx >= 0, cs >= 1;
        assert(cx * cs + cs == (cx + 1) * cs) by (nonlinear_arith);
        assert(cy * cs + cs == (cy + 1) * cs) by (nonlinear_arith);
        assert(cx * cs >= 0) by (nonlinear_arith) requires cx >= 0, cs >= 1;
        assert(cy * cs >= 0) by (nonlinear_arith) requires cy >= 0, cs >= 1;
    }
    let start_x = cx * cs;
    let start_y = cy * cs;
    let mut r: Vec<TileType> = Vec::new();
    proof { assert(0 * (cs as int) == 0) by (nonlinear_arith); }
    for ly in 0..cs
        invariant
            map.wf(),
            cs == chunk_size,
            1 <= cs <= map.width,
            start_x == cx * cs,
            start_y == cy * cs,
            0 <= cx,
            0 <= cy,
            (cx + 1) * cs <= map.width,
            (cy + 1) * cs <= map.height,
            0 <= start_x && start_x + cs <= map.width,
            0 <= start_y && start_y + cs <= map.height,
            target == chunk_pattern(map, cs as int, cx as int, cy as int, flip_x, flip_y),
            r@.len() == ly * cs,
            forall|k: int| 0 <= k < r@.len() ==> #[trigger] r@[k] == target[k],
    {
        for lx in 0..cs
            invariant
                map.wf(),
                cs == chunk_size,
                1 <= cs <= map.width,
                start_x == cx * cs,
                start_y == cy * cs,
                0 <= cx,
                0 <= cy,
                (cx + 1) * cs <= map.width,
                (cy + 1) * cs <= map.height,
                0 <= ly < cs,
                0 <= start_x && start_x + cs <= map.width,
                0 <= start_y && start_y + cs <= map.height,
                target == chunk_pattern(map, cs as int, cx as int, cy as int, flip_x, flip_y),
                r@.len() == ly * cs + lx,
                forall|k: int| 0 <= k < r@.len() ==> #[trigger] r@[k] == target[k],
        {
            let x = start_x + if flip_x { cs - 1 - lx } else { lx };
            let y = start_y + if flip_y { cs - 1 - ly } else { ly };
            proof {
                assert(start_x <= x < start_x + cs);
                assert(start_y <= y < start_y + cs);
                assert(start_x + cs == (cx + 1) * cs) by (nonlinear_arith) requires start_x == cx * cs;
                assert(start_y + cs == (cy + 1) * cs) by (nonlinear_arith) requires start_y == cy * cs;
                lemma_cell_index(map.width as int, map.height as int, x as int, y as int);
                let k = ly * cs + lx;
                vstd::arithmetic::div_mod::lemma_fundamental_div_mod_converse(k, cs as int, ly as int, lx as int);
                assert(0 <= k < cs * cs) by (nonlinear_arith) requires k == ly * cs + lx, 0 <= lx < cs, 0 <= ly < cs;
            }
            let idx = map.xy_idx(x, y);
            r.push(map.tiles[idx]);
        }
        proof {
            assert((ly + 1) * cs == ly * cs + cs) by (nonlinear_arith);
        }
    }
    proof {
        assert(r@.len() == cs * cs);
        assert(r@ == target);
    }
    r
}

/// Whether two patterns are the same.
fn same_pattern(a: &Vec<TileType>, b: &Vec<TileType>) -> (r: bool)
    ensures
        r == (a@ == b@),
{
    if a.len() != b.len() {
        return false;
    }
    for k in 0..a.len()
        invariant
            a@.len() == b@.len(),
            forall|j: int| 0 <= j < k ==> a@[j] == b@[j],
    {
        if a[k] != b[k] {
            return false;
        }
    }
    proof { assert(a@ == b@); }
    true
}

/// The patterns with repeats left out, each kept once.
pub fn dedupe_patterns(patterns: Vec<Vec<TileType>>) -> (r: Vec<Vec<TileType>>)
    ensures
        r@.map_values(|v: Vec<TileType>| v@).no_duplicates(),
        r@.map_values(|v: Vec<TileType>| v@).to_set() == patterns@.map_values(|v: Vec<TileType>| v@).to_set(),
{
    let ghost src = patterns@.map_values(|v: Vec<TileType>| v@);
    let mut r: Vec<Vec<TileType>> = Vec::new();
    let mut rest = patterns;
    let mut k: usize = 0;
    let n = rest.len();
    while k < n
        invariant
            n == rest@.len(),
            src == rest@.map_values(|v: Vec<TileType>| v@),
            k <= n,
            r@.map_values(|v: Vec<TileType>| v@).no_duplicates(),
            r@.map_values(|v: Vec<TileType>| v@).to_set() == src.take(k as int).to_set(),
        decreases n - k,
    {
        let mut seen = false;
        for j in 0..r.len()
            invariant
                !seen ==> forall|i: int| 0 <= i < j ==> r@[i]@ != rest@[k as int]@,
                seen ==> exists|i: int| 0 <= i < r@.len() && r@[i]@ == rest@[k as int]@,
                k < n,
                n == rest@.len(),
        {
            if !seen && same_pattern(&r[j], &rest[k]) {
                seen = true;
            }
        }
        let ghost rv = r@.map_values(|v: Vec<TileType>| v@);
        proof {
            assert(src.take(k + 1) == src.take(k as int).push(src[k as int]));
            src.take(k as int).lemma_push_to_set_commute(src[k as int]);
        }
        if !seen {
            r.push(clone_tiles(&rest[k]));
            proof {
                let ghost rr = r@.map_values(|v: Vec<TileType>| v@);
                assert(rr == rv.push(src[k as int]));
                rv.lemma_push_to_set_commute(src[k as int]);
                assert forall|a: int, b: int| #![trigger rr[a], rr[b]] 0 <= a < b < rr.len() implies rr[a] != rr[b] by {
                    if b == rv.len() {
                        assert(rr[a] == r@[a]@);
                    }
                }
            }
        } else {
            proof {
                let i = choose|i: int| 0 <= i < r@.len() && r@[i]@ == rest@[k as int]@;
                assert(rv[i] == src[k as int]);
                assert(rv.to_set().contains(src[k as int]));
                assert(src.take(k as int).to_set().insert(src[k as int]) == src.take(k as int).to_set());
            }
        }
        k = k + 1;
    }
    proof { assert(src.take(n as int) == src); }
    r
}

/// The square patterns of side `chunk_size` cut from the map, chunk by chunk
/// row by row, with their mirror images when `include_flipping`, and each
/// kept only once when `dedupe` (in some order).
pub fn build_pattern(map: &TileMap, chunk_size: i32, include_flipping: bool, dedupe: bool) -> (r: Vec<Vec<TileType>>)
    requires
        map.wf(),
        1 <= chunk_size,
    ensures
        !dedupe ==> r@.map_values(|v: Vec<TileType>| v@) == raw_patterns(map, chunk_size as int, include_flipping),
        dedupe ==> r@.map_values(|v: Vec<TileType>| v@).no_duplicates(),
        dedupe ==> r@.map_values(|v: Vec<TileType>| v@).to_set() == raw_patterns(map, chunk_size as int, include_flipping).to_set(),
        forall|p: int| 0 <= p < r@.len() ==> (#[trigger] r@[p])@.len() == chunk_size * chunk_size,
{
    let cs = chunk_size;
    let chunks_x = map.width / cs;
    let chunks_y = map.height / cs;
    let ghost m: int = if include_flipping { 4 } else { 1 };
    let ghost raw = raw_patterns(map, cs as int, include_flipping);
    let mut patterns: Vec<Vec<TileType>> = Vec::new();
    proof {
        assert(chunks_x * chunks_y * m >= 0) by (nonlinear_arith) requires chunks_x >= 0, chunks_y >= 0, m >= 1;
        assert(0 * chunks_x * m == 0) by (nonlinear_arith);
    }
    for cy in 0..chunks_y
        invariant
            map.wf(),
            cs == chunk_size,
            1 <= cs,
            chunks_x == (map.width as int) / (cs as int),
            chunks_y == (map.height as int) / (cs as int),
            chunks_x >= 0,
            m == if include_flipping { 4int } else { 1int },
            raw == raw_patterns(map, cs as int, include_flipping),
            patterns@.len() == cy * chunks_x * m,
            forall|p: int| 0 <= p < patterns@.len() ==> (#[trigger] patterns@[p])@ == raw[p],
    {
        for cx in 0..chunks_x
            invariant
                map.wf(),
                cs == chunk_size,
                1 <= cs,
                chunks_x == (map.width as int) / (cs as int),
                chunks_y == (map.height as int) / (cs as int),
                0 <= cy < chunks_y,
                m == if include_flipping { 4int } else { 1int },
                raw == raw_patterns(map, cs as int, include_flipping),
                patterns@.len() == (cy * chunks_x + cx) * m,
                forall|p: int| 0 <= p < patterns@.len() ==> (#[trigger] patterns@[p])@ == raw[p],
        {
            let ghost c = (cy * chunks_x + cx) as int;
            proof {
                assert(c < chunks_x * chunks_y) by (nonlinear_arith) requires c == cy * chunks_x + cx, 0 <= cx < chunks_x, 0 <= cy < chunks_y;
                assert(0 <= c) by (nonlinear_arith) requires c == cy * chunks_x + cx, 0 <= cx, 0 <= cy, chunks_x >= 0;
                vstd::arithmetic::div_mod::lemma_fundamental_div_mod_converse(c, chunks_x as int, cy as int, cx as int);
                assert(raw.len() == chunks_x * chunks_y * m);
                assert((c + 1) * m <= chunks_x * chunks_y * m) by (nonlinear_arith) requires c < chunks_x * chunks_y, m >= 1;
                assert((c + 1) * m == c * m + m) by (nonlinear_arith);
            }
            let ghost base = patterns@.len() as int;
            let normal = extract_chunk(map, cs, cx, cy, false, false);
            patterns.push(normal);
            proof {
                vstd::arithmetic::div_mod::lemma_fundamental_div_mod_converse(base, m, c, 0);
            }
            if include_flipping {
                let fx = extract_chunk(map, cs, cx, cy, true, false);
                patterns.push(fx);
                let fy = extract_chunk(map, cs, cx, cy, false, true);
                patterns.push(fy);
                let fxy = extract_chunk(map, cs, cx, cy, true, true);
                patterns.push(fxy);
                proof {
                    vstd::arithmetic::div_mod::lemma_fundamental_div_mod_converse(base + 1, m, c, 1);
                    vstd::arithmetic::div_mod::lemma_fundamental_div_mod_converse(base + 2, m, c, 2);
                    vstd::arithmetic::div_mod::lemma_fundamental_div_mod_converse(base + 3, m, c, 3);
                }
            }
            proof {
                assert((cy * chunks_x + cx + 1) * m == (cy * chunks_x + cx) * m + m) by (nonlinear_arith);
            }
        }
        proof {
            assert(((cy + 1) * chunks_x) * m == (cy * chunks_x + chunks_x) * m) by (nonlinear_arith);
        }
    }
    proof {
        assert(chunks_y * chunks_x * m == chunks_x * chunks_y * m) by (nonlinear_arith);
        assert(patterns@.len() == raw.len());
        assert(patterns@.map_values(|v: Vec<TileType>| v@) =~= raw);
    }
    if dedupe {
        let d = dedupe_patterns(patterns);
        proof {
            let dv = d@.map_values(|v: Vec<TileType>| v@);
            assert forall|p: int| 0 <= p < d@.len() implies (#[trigger] d@[p])@.len() == chunk_size * chunk_size by {
                assert(dv[p] == d@[p]@);
                assert(dv.to_set().contains(dv[p]));
                assert(raw.contains(dv[p]));
                let q = choose|q: int| 0 <= q < raw.len() && raw[q] == dv[p];
            }
        }
        d
    } else {
        patterns
    }
}

/// Whether cell `(lx, ly)` of a rendered chunk shows an exit marker: it lies
/// on an edge at a position that the chunk marks as an exit of that edge.
pub open spec fn exit_marked(chunk: &MapChunk, cs: int, lx: int, ly: int) -> bool {
    ||| ly == 0 && lx < chunk.exits@[0]@.len() && chunk.exits@[0]@[lx]
    ||| ly == cs - 1 && lx < chunk.exits@[1]@.len() && chunk.exits@[1]@[lx]
    ||| lx == 0 && ly < chunk.exits@[2]@.len() && chunk.exits@[2]@[ly]
    ||| lx == cs - 1 && ly < chunk.exits@[3]@.len() && chunk.exits@[3]@[ly]
}

/// The tile drawn at cell `(lx, ly)` of a rendered chunk: down stairs where
/// an exit is marked, the pattern's tile elsewhere.
pub open spec fn rendered_tile(chunk: &MapChunk, cs: int, lx: int, ly: int) -> TileType {
    if exit_marked(chunk, cs, lx, ly) {
        TileType::DownStairs
    } else {
        chunk.pattern@[chunk_idx(cs, lx, ly)]
    }
}

fn exit_flag(v: &Vec<bool>, k: i32) -> (r: bool)
    requires
        0 <= k,
    ensures
        r == (k < v@.len() && v@[k as int]),
{
    (k as usize) < v.len() && v[k as usize]
}

fn cell_tile(chunk: &MapChunk, cs: i32, lx: i32, ly: i32) -> (r: TileType)
    requires
        0 <= lx < cs,
        0 <= ly < cs,
        cs * cs <= i32::MAX,
        chunk.pattern@.len() >= cs * cs,
    ensures
        r == rendered_tile(chunk, cs as int, lx as int, ly as int),
{
    let marked = (ly == 0 && exit_flag(&chunk.exits[0], lx))
        || (ly == cs - 1 && exit_flag(&chunk.exits[1], lx))
        || (lx == 0 && exit_flag(&chunk.exits[2], ly))
        || (lx == cs - 1 && exit_flag(&chunk.exits[3], ly));
    if marked {
        TileType::DownStairs
    } else {
        let i = tile_idx_in_chunk(cs, lx, ly);
        chunk.pattern[i]
    }
}

/// Draws the chunk onto the map with its top-left corner at `(x, y)`: each
/// cell of the square shows the pattern's tile, or down stairs where the
/// chunk marks an exit on that edge, and becomes visible. Nothing else changes.
pub fn render_pattern_to_map(map: &mut TileMap, chunk: &MapChunk, chunk_size: i32, x: i32, y: i32)
    requires
        old(map).wf(),
        0 <= chunk_size,
        chunk_size * chunk_size <= i32::MAX,
        0 <= x,
        0 <= y,
        x + chunk_size <= old(map).width,
        y + chunk_size <= old(map).height,
        chunk.pattern@.len() >= chunk_size * chunk_size,
        forall|d: int| 0 <= d < 4 ==> (#[trigger] chunk.exits@[d])@.len() <= chunk_size,
    ensures
        final(map).wf(),
        final(map).width == old(map).width,
        final(map).height == old(map).height,
        final(map).revealed_tiles == old(map).revealed_tiles,
        final(map).blocked == old(map).blocked,
        final(map).tile_content == old(map).tile_content,
        final(map).depth == old(map).depth,
        final(map).bloodstains@ == old(map).bloodstains@,
        final(map).view_blocked@ == old(map).view_blocked@,
        final(map).name@ == old(map).name@,
        forall|px: int, py: int| #![trigger final(map).tile_at(px, py)] old(map).in_bounds(px, py) ==> {
            let inside = x <= px < x + chunk_size && y <= py < y + chunk_size;
            &&& final(map).tile_at(px, py) == (if inside {
                rendered_tile(chunk, chunk_size as int, px - x, py - y)
            } else {
                old(map).tile_at(px, py)
            })
            &&& final(map).visible_tiles@[final(map).idx(px, py)] == (inside || old(map).visible_tiles@[old(map).idx(px, py)])
        },
{
    let cs = chunk_size;
    let ghost om = *old(map);
    for ly in 0..cs
        invariant
            map.wf(),
            cs == chunk_size,
            0 <= cs,
            cs * cs <= i32::MAX,
            0 <= x,
            0 <= y,
            x + cs <= om.width,
            y + cs <= om.height,
            chunk.pattern@.len() >= cs * cs,
            om == *old(map),
            map.width == om.width,
            map.height == om.height,
            map.revealed_tiles == om.revealed_tiles,
            map.blocked == om.blocked,
            map.tile_content == om.tile_content,
            map.depth == om.depth,
            map.bloodstains@ == om.bloodstains@,
            map.view_blocked@ == om.view_blocked@,
            map.name@ == om.name@,
            forall|px: int, py: int| #![trigger map.tile_at(px, py)] om.in_bounds(px, py) ==> {
                let done = x <= px < x + cs && y <= py < y + ly;
                &&& map.tile_at(px, py) == (if done { rendered_tile(chunk, cs as int, px - x, py - y) } else { om.tile_at(px, py) })
                &&& map.visible_tiles@[map.idx(px, py)] == (done || om.visible_tiles@[om.idx(px, py)])
            },
    {
        for lx in 0..cs
            invariant
                map.wf(),
                cs == chunk_size,
                0 <= cs,
            cs * cs <= i32::MAX,
                0 <= ly < cs,
                0 <= x,
                0 <= y,
                x + cs <= om.width,
                y + cs <= om.height,
                chunk.pattern@.len() >= cs * cs,
                om == *old(map),
                map.width == om.width,
                map.height == om.height,
                map.revealed_tiles == om.revealed_tiles,
                map.blocked == om.blocked,
                map.tile_content == om.tile_content,
                map.depth == om.depth,
                map.bloodstains@ == om.bloodstains@,
                map.view_blocked@ == om.view_blocked@,
                map.name@ == om.name@,
                forall|px: int, py: int| #![trigger map.tile_at(px, py)] om.in_bounds(px, py) ==> {
                    let done = x <= px < x + cs && (y <= py < y + ly || (py == y + ly && px < x + lx));
                    &&& map.tile_at(px, py) == (if done { rendered_tile(chunk, cs as int, px - x, py - y) } else { om.tile_at(px, py) })
                    &&& map.visible_tiles@[map.idx(px, py)] == (done || om.visible_tiles@[om.idx(px, py)])
                },
        {
            let t = cell_tile(chunk, cs, lx, ly);
            proof { lemma_cell_index(map.width as int, map.height as int, (x + lx) as int, (y + ly) as int); }
            let idx = map.xy_idx(x + lx, y + ly);
            let ghost before = *map;
            map.tiles.set(idx, t);
            map.visible_tiles.set(idx, true);
            proof {
                assert forall|px: int, py: int| #![trigger map.tile_at(px, py)] om.in_bounds(px, py) implies {
                    let done = x <= px < x + cs && (y <= py < y + ly || (py == y + ly && px < x + lx + 1));
                    &&& map.tile_at(px, py) == (if done { rendered_tile(chunk, cs as int, px - x, py - y) } else { om.tile_at(px, py) })
                    &&& map.visible_tiles@[map.idx(px, py)] == (done || om.visible_tiles@[om.idx(px, py)])
                } by {
                    lemma_cell_index(map.width as int, map.height as int, px, py);
                    assert(before.tile_at(px, py) == before.tiles@[before.idx(px, py)]);
                    if map.idx(px, py) == idx as int {
                        lemma_idx_injective(map.width as int, px, py, (x + lx) as int, (y + ly) as int);
                    }
                }
            }
        }
    }
}

} // verus!
