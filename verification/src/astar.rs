use vstd::prelude::*;
use crate::map::{TileMap, lemma_cell_index};
use crate::point::{Point, spec_distance_squared, distance_squared};
use crate::tile::{spec_step_cost, step_cost};

verus! {

/// A map a path can be looked for on: well formed and not empty.
pub open spec fn path_sized(map: &TileMap) -> bool {
    &&& map.wf()
    &&& 0 < map.width
    &&& 0 < map.height
}

/// A creature on `p` may step to the neighbouring cell `q`.
pub open spec fn can_step(map: &TileMap, p: Point, q: Point) -> bool {
    let dx = q.x - p.x;
    let dy = q.y - p.y;
    &&& map.in_bounds(p.x as int, p.y as int)
    &&& -1 <= dx <= 1
    &&& -1 <= dy <= 1
    &&& !(dx == 0 && dy == 0)
    &&& map.spec_is_exit_valid(q.x as int, q.y as int)
}

/// One step of a creature from `p` to `q`, with its cost in 1/256 of a plain step.
pub open spec fn is_step(map: &TileMap, p: Point, q: Point, cost: int) -> bool {
    &&& can_step(map, p, q)
    &&& cost == spec_step_cost(map.tile_at(p.x as int, p.y as int), q.x != p.x && q.y != p.y)
}

/// The step out of `p` by `(dx, dy)`, with its cost, if a creature may take it.
pub open spec fn successor_towards(map: &TileMap, p: Point, dx: int, dy: int) -> Seq<(Point, i128)> {
    if map.spec_is_exit_valid(p.x + dx, p.y + dy) {
        seq![
            (
                Point { x: (p.x + dx) as i32, y: (p.y + dy) as i32 },
                spec_step_cost(map.tile_at(p.x as int, p.y as int), dx != 0 && dy != 0) as i128,
            ),
        ]
    } else {
        seq![]
    }
}

/// The steps, with their costs, that lead out of `p`, in the order in which
/// the map lists its exits (west, east, north, south, then the diagonals
/// north-west, north-east, south-west, south-east).
pub open spec fn spec_successors(map: &TileMap, p: Point) -> Seq<(Point, i128)> {
    successor_towards(map, p, -1, 0) + successor_towards(map, p, 1, 0) + successor_towards(map, p, 0, -1)
        + successor_towards(map, p, 0, 1) + successor_towards(map, p, -1, -1) + successor_towards(
        map,
        p,
        1,
        -1,
    ) + successor_towards(map, p, -1, 1) + successor_towards(map, p, 1, 1)
}

fn push_successor(map: &TileMap, p: Point, out: &mut Vec<(Point, i128)>, dx: i32, dy: i32)
    requires
        map.wf(),
        map.in_bounds(p.x as int, p.y as int),
        -1 <= dx <= 1,
        -1 <= dy <= 1,
        !(dx == 0 && dy == 0),
        forall|i: int| 0 <= i < old(out)@.len() ==> is_step(map, p, #[trigger] old(out)@[i].0, old(out)@[i].1 as int),
    ensures
        final(out)@ == old(out)@ + successor_towards(map, p, dx as int, dy as int),
        forall|i: int| 0 <= i < final(out)@.len() ==> is_step(map, p, #[trigger] final(out)@[i].0, final(out)@[i].1 as int),
{
    if map.is_exit_valid(p.x + dx, p.y + dy) {
        proof { lemma_cell_index(map.width as int, map.height as int, p.x as int, p.y as int); }
        let idx = map.xy_idx(p.x, p.y);
        let c = step_cost(map.tiles[idx], dx != 0 && dy != 0);
        out.push((Point { x: p.x + dx, y: p.y + dy }, c as i128));
    }
}

/// A sequence of points in which each point is one step from the previous.
pub open spec fn is_walk(map: &TileMap, path: Seq<Point>) -> bool {
    &&& path.len() >= 1
    &&& forall|i: int| 0 <= i < path.len() - 1 ==>
            #[trigger] can_step(map, path[i], path[i + 1])
}

/// A creature standing on `start` can walk to `end`.
pub open spec fn reachable(map: &TileMap, start: Point, end: Point) -> bool {
    exists|path: Seq<Point>|
        #![trigger is_walk(map, path)]
        is_walk(map, path) && path[0] == start && path.last() == end
}

/// The steps out of `p`, each with its cost in 1/256 of a plain step.
pub fn successors(map: &TileMap, p: Point) -> (r: Vec<(Point, i128)>)
    requires
        map.wf(),
        map.in_bounds(p.x as int, p.y as int),
    ensures
        r@ == spec_successors(map, p),
        forall|i: int| 0 <= i < r@.len() ==> is_step(map, p, #[trigger] r@[i].0, r@[i].1 as int),
{
    let mut r: Vec<(Point, i128)> = Vec::new();
    push_successor(map, p, &mut r, -1, 0);
    push_successor(map, p, &mut r, 1, 0);
    push_successor(map, p, &mut r, 0, -1);
    push_successor(map, p, &mut r, 0, 1);
    push_successor(map, p, &mut r, -1, -1);
    push_successor(map, p, &mut r, 1, -1);
    push_successor(map, p, &mut r, -1, 1);
    push_successor(map, p, &mut r, 1, 1);
    r
}

/// The path finder's estimate of the cost from `start` to `p`: the squared
/// distance between them, in 1/256 steps.
pub fn heuristic_256(start: Point, p: Point) -> (r: i128)
    ensures
        r == spec_distance_squared(start, p) * 256,
{
    let d = distance_squared(start, p);
    proof {
        let dx = start.x - p.x;
        let dy = start.y - p.y;
        assert(dx * dx <= 0x1_0000_0000 * 0x1_0000_0000) by (nonlinear_arith)
            requires -0x1_0000_0000 <= dx <= 0x1_0000_0000;
        assert(dy * dy <= 0x1_0000_0000 * 0x1_0000_0000) by (nonlinear_arith)
            requires -0x1_0000_0000 <= dy <= 0x1_0000_0000;
        assert(0 <= dx * dx) by (nonlinear_arith);
        assert(0 <= dy * dy) by (nonlinear_arith);
    }
    d * 256
}

/// Whether `p` is the goal `end`.
pub fn is_goal(p: Point, end: Point) -> (r: bool)
    ensures
        r == (p == end),
{
    p.x == end.x && p.y == end.y
}

/// `pathfinding::directed::astar::astar`, run from `start` over the steps that
/// [`successors`] lists, with [`heuristic_256`] as estimate and [`is_goal`]
/// as goal test.
///
/// The crate's source shows that a path it returns starts at `start`, ends on
/// a node that passes the goal test and follows the successor lists, and that
/// it returns nothing only once every node reachable from `start` has been
/// expanded. The cost it returns is the cost with which the goal left the
/// queue, a sum of step costs, so it is not negative; which of several paths
/// it picks, and whether that cost equals the cost of the returned path, is
/// not stated.
#[verifier::external_body]
fn astar_path(map: &TileMap, start: Point, end: Point) -> (r: Option<(Vec<Point>, i128)>)
    requires
        path_sized(map),
        map.in_bounds(start.x as int, start.y as int),
    ensures
        r matches Some((path, cost)) ==> {
            &&& is_walk(map, path@)
            &&& path@[0] == start
            &&& path@.last() == end
            &&& cost >= 0
        },
        r is None ==> !reachable(map, start, end),
{
    pathfinding::prelude::astar(
        &start,
        |p| successors(map, *p),
        |p| heuristic_256(start, *p),
        |p| is_goal(*p, end),
    )
}

/// A path for a creature from `start` to `end`, with its cost in 1/256 of a
/// plain step: `None` exactly when `end` cannot be reached from `start`.
pub fn a_star_search(start: Point, end: Point, map: &TileMap) -> (r: Option<(Vec<Point>, i128)>)
    requires
        path_sized(map),
        map.in_bounds(start.x as int, start.y as int),
    ensures
        r is Some <==> reachable(map, start, end),
        r matches Some((path, cost)) ==> {
            &&& is_walk(map, path@)
            &&& path@[0] == start
            &&& path@.last() == end
            &&& cost >= 0
        },
{
    let r = astar_path(map, start, end);
    proof {
        if r is Some {
            let pair = r->0;
            let path = pair.0;
            assert(is_walk(map, path@) && path@[0] == start && path@.last() == end);
        }
    }
    r
}

} // verus!
