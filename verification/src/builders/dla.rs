use vstd::prelude::*;
use rltk::RandomNumberGenerator;
use crate::builders::common::{paint, paint_ok, paint_centers, paint_covers, brush_ok, brush_covers, Symmetry};
use crate::components::Position;
use crate::map::{TileMap, max_cells, lemma_cell_index, lemma_idx_injective, only_tiles_changed, tiles_set_where};
use crate::rng::{roll_dice, line_points};
use crate::tile::TileType;
use crate::point::Point;
use crate::builders::drunkard::{finish_cave, culled, is_exit};
use crate::builders::distant_exit::UNREACHABLE;
use crate::builders::common::spawn_regions_of;

verus! {

/// How the diggers of diffusion-limited aggregation move.
#[derive(Debug, Copy, Clone, PartialEq, Eq, Structural)]
pub enum DLAAlgorithm {
    /// From a random cell, wandering until they reach the floor.
    WalkInwards,
    /// From the centre, wandering until they leave the floor.
    WalkOutwards,
    /// From a random cell, straight towards the centre.
    CentralAttractor,
}

/// How each stroke is mirrored around the centre of the map.
#[derive(Debug, Copy, Clone, PartialEq, Eq, Structural)]
pub enum DLASymmetry {
    NoSymmetry,
    Horizontal,
    Vertical,
    Both,
}

/// The most diggers sent out before the builder gives up on reaching its
/// floor target: a bound that only makes the loop's end provable.
pub const MAX_DLA_WALKERS: u64 = 0xffff_ffff_ffff_ffff;
/// The most rounds of rolls a wandering digger draws; the rolls double each
/// round, so a walk is cut short only after more rolls than memory holds.
pub const MAX_WALK_ROUNDS: u32 = 64;

/// Grows a cave from its centre by diffusion-limited aggregation.
pub struct DLABuilder {
    pub map: TileMap,
    pub starting_position: Position,
    pub history: Vec<TileMap>,
    pub algorithm: DLAAlgorithm,
    pub brush_size: i32,
    pub symmetry: DLASymmetry,
    /// The share of the map to turn into floor, in hundredths.
    pub floor_percent: i32,
    /// Groups of floor cells by the noise value of their cell, in the
    /// order the values were first met.
    pub noise_areas: Vec<(i32, Vec<usize>)>,
}

/// The painter's symmetry for a DLA symmetry.
pub open spec fn spec_symmetry(s: DLASymmetry) -> Symmetry {
    match s {
        DLASymmetry::NoSymmetry => Symmetry::NoSymmetry,
        DLASymmetry::Horizontal => Symmetry::Horizontal,
        DLASymmetry::Vertical => Symmetry::Vertical,
        DLASymmetry::Both => Symmetry::Both,
    }
}

fn painter_symmetry(s: DLASymmetry) -> (r: Symmetry)
    ensures
        r == spec_symmetry(s),
{
    match s {
        DLASymmetry::NoSymmetry => Symmetry::NoSymmetry,
        DLASymmetry::Horizontal => Symmetry::Horizontal,
        DLASymmetry::Vertical => Symmetry::Vertical,
        DLASymmetry::Both => Symmetry::Both,
    }
}

/// How many cells of the tiles are floor.
pub open spec fn floor_count(tiles: Seq<TileType>) -> nat {
    tiles.filter(|t: TileType| t is Floor).len()
}

fn count_floor(tiles: &Vec<TileType>) -> (r: usize)
    ensures
        r == floor_count(tiles@),
{
    let ghost pred = |t: TileType| t is Floor;
    let mut n: usize = 0;
    for k in 0..tiles.len()
        invariant
            pred == (|t: TileType| t is Floor),
            n == tiles@.take(k as int).filter(pred).len(),
            n <= k,
    {
        proof {
            assert(tiles@.take(k + 1) == tiles@.take(k as int).push(tiles@[k as int]));
            tiles@.take(k as int).lemma_filter_push(tiles@[k as int], pred);
        }
        if tiles[k] == TileType::Floor {
            n = n + 1;
        }
    }
    proof { assert(tiles@.take(tiles@.len() as int) == tiles@); }
    n
}

/// A map the diggers can work on: at least 5 cells each way, and no more
/// than the painter's coordinate limit of 2^20 each way.
pub open spec fn dla_map_ok(map: &TileMap) -> bool {
    &&& map.wf()
    &&& 5 <= map.width
    &&& 5 <= map.height
    &&& map.width <= 0x10_0000
    &&& map.height <= 0x10_0000
}

/// Cell `i` lies on the outermost ring of the map.
pub open spec fn on_map_edge(map: &TileMap, i: int) -> bool {
    let w = map.width as int;
    ||| i % w == 0
    ||| i % w == w - 1
    ||| i / w == 0
    ||| i / w == map.height - 1
}

/// Where one step of a wandering digger at `(x, y)` takes it for a roll
/// of `roll`: 1 west, 2 east, 3 north, anything else south, unless that
/// leaves the band two cells inside the map's edges.
pub open spec fn stagger_to(map: &TileMap, x: int, y: int, roll: int) -> (int, int) {
    if roll == 1 {
        if x > 2 { (x - 1, y) } else { (x, y) }
    } else if roll == 2 {
        if x < map.width - 2 { (x + 1, y) } else { (x, y) }
    } else if roll == 3 {
        if y > 2 { (x, y - 1) } else { (x, y) }
    } else {
        if y < map.height - 2 { (x, y + 1) } else { (x, y) }
    }
}

/// A digger walking in: at `(x, y)`, having last been at `(px, py)`, it
/// steps by the rolls while it stands on wall, and paints the cell it was
/// on just before it reached something else. `None` when the rolls run out
/// first.
pub open spec fn walk_in_end(map: &TileMap, x: int, y: int, px: int, py: int, rolls: Seq<i32>) -> Option<(int, int)>
    decreases rolls.len(),
{
    if !(map.tile_at(x, y) is Wall) {
        Some((px, py))
    } else if rolls.len() == 0 {
        None
    } else {
        let n = stagger_to(map, x, y, rolls[0] as int);
        walk_in_end(map, n.0, n.1, x, y, rolls.drop_first())
    }
}

/// A digger walking out: at `(x, y)` it steps by the rolls while it stands
/// on floor, and paints the first cell that is not floor. `None` when the
/// rolls run out first.
pub open spec fn walk_out_end(map: &TileMap, x: int, y: int, rolls: Seq<i32>) -> Option<(int, int)>
    decreases rolls.len(),
{
    if !(map.tile_at(x, y) is Floor) {
        Some((x, y))
    } else if rolls.len() == 0 {
        None
    } else {
        let n = stagger_to(map, x, y, rolls[0] as int);
        walk_out_end(map, n.0, n.1, rolls.drop_first())
    }
}

/// A digger drawn to the centre: at `(x, y)`, having last been at
/// `(px, py)`, it follows `path` while it stands on wall, and paints the
/// cell it was on before it stopped.
pub open spec fn attract_end(map: &TileMap, x: int, y: int, px: int, py: int, path: Seq<Point>) -> (int, int)
    decreases path.len(),
{
    if !(map.tile_at(x, y) is Wall) || path.len() == 0 {
        (px, py)
    } else {
        attract_end(map, path[0].x as int, path[0].y as int, x, y, path.drop_first())
    }
}

/// A builder as its constructors leave it: a map of nothing but wall, no
/// history and no noise areas.
pub open spec fn starts_fresh(b: &DLABuilder) -> bool {
    &&& forall|i: int| 0 <= i < b.map.tiles@.len() ==> #[trigger] b.map.tiles@[i] is Wall
    &&& b.history@.len() == 0
    &&& b.noise_areas@.len() == 0
}

/// The floor of `tiles` is mirrored left to right about column
/// `width / 2`: a cell and its mirror image, where both lie on the map, are
/// both floor or both not.
pub open spec fn floor_mirrored_x(map: &TileMap, tiles: Seq<TileType>) -> bool {
    forall|x: int, y: int| 0 <= x < map.width && 0 <= y < map.height && 0 <= 2 * (map.width / 2) - x < map.width ==>
        (#[trigger] tiles[map.idx(x, y)] is Floor) == (tiles[map.idx(2 * (map.width / 2) - x, y)] is Floor)
}

/// The floor of `tiles` is mirrored top to bottom about row `height / 2`:
/// a cell and its mirror image, where both lie on the map, are both floor
/// or both not.
pub open spec fn floor_mirrored_y(map: &TileMap, tiles: Seq<TileType>) -> bool {
    forall|x: int, y: int| 0 <= x < map.width && 0 <= y < map.height && 0 <= 2 * (map.height / 2) - y < map.height ==>
        (#[trigger] tiles[map.idx(x, y)] is Floor) == (tiles[map.idx(x, 2 * (map.height / 2) - y)] is Floor)
}

/// The tiles of `b` are those of `a` with some cells turned into floor.
pub open spec fn only_floor_added(a: Seq<TileType>, b: Seq<TileType>) -> bool {
    &&& b.len() == a.len()
    &&& forall|i: int| 0 <= i < b.len() ==> #[trigger] b[i] == a[i] || b[i] is Floor
}

impl DLABuilder {
    fn with(depth: i32, width: i32, height: i32, algorithm: DLAAlgorithm, brush_size: i32, symmetry: DLASymmetry) -> (r: DLABuilder)
        requires
            0 <= width <= 0x4000,
            0 <= height <= 0x4000,
            width * height <= max_cells(),
        ensures
            r.map.wf(),
            r.map.depth == depth,
            r.map.width == width,
            r.map.height == height,
            r.algorithm == algorithm,
            r.brush_size == brush_size,
            r.symmetry == symmetry,
            r.floor_percent == 25,
            starts_fresh(&r),
    {
        DLABuilder {
            map: TileMap::new(depth, width, height, String::new()),
            starting_position: Position { x: 0, y: 0 },
            history: Vec::new(),
            algorithm,
            brush_size,
            symmetry,
            floor_percent: 25,
            noise_areas: Vec::new(),
        }
    }

    /// Central attractor, brush 3, mirrored both ways.
    pub fn new(depth: i32, width: i32, height: i32) -> (r: DLABuilder)
        requires
            0 <= width <= 0x4000,
            0 <= height <= 0x4000,
            width * height <= max_cells(),
        ensures
            r.map.wf(),
            r.map.width == width,
            r.map.height == height,
            r.map.depth == depth,
            r.algorithm == DLAAlgorithm::CentralAttractor,
            r.brush_size == 3,
            r.symmetry == DLASymmetry::Both,
            r.floor_percent == 25,
            starts_fresh(&r),
    {
        Self::with(depth, width, height, DLAAlgorithm::CentralAttractor, 3, DLASymmetry::Both)
    }

    /// Diggers walking in, brush 1, no mirroring.
    pub fn walk_inwards(depth: i32, width: i32, height: i32) -> (r: DLABuilder)
        requires
            0 <= width <= 0x4000,
            0 <= height <= 0x4000,
            width * height <= max_cells(),
        ensures
            r.map.wf(),
            r.map.width == width,
            r.map.height == height,
            r.map.depth == depth,
            r.algorithm == DLAAlgorithm::WalkInwards,
            r.brush_size == 1,
            r.symmetry == DLASymmetry::NoSymmetry,
            r.floor_percent == 25,
            starts_fresh(&r),
    {
        Self::with(depth, width, height, DLAAlgorithm::WalkInwards, 1, DLASymmetry::NoSymmetry)
    }

    /// Diggers walking out, brush 2, no mirroring.
    pub fn walk_outwards(depth: i32, width: i32, height: i32) -> (r: DLABuilder)
        requires
            0 <= width <= 0x4000,
            0 <= height <= 0x4000,
            width * height <= max_cells(),
        ensures
            r.map.wf(),
            r.map.width == width,
            r.map.height == height,
            r.map.depth == depth,
            r.algorithm == DLAAlgorithm::WalkOutwards,
            r.brush_size == 2,
            r.symmetry == DLASymmetry::NoSymmetry,
            r.floor_percent == 25,
            starts_fresh(&r),
    {
        Self::with(depth, width, height, DLAAlgorithm::WalkOutwards, 2, DLASymmetry::NoSymmetry)
    }

    /// Central attractor, brush 2, no mirroring.
    pub fn central_attractor(depth: i32, width: i32, height: i32) -> (r: DLABuilder)
        requires
            0 <= width <= 0x4000,
            0 <= height <= 0x4000,
            width * height <= max_cells(),
        ensures
            r.map.wf(),
            r.map.width == width,
            r.map.height == height,
            r.map.depth == depth,
            r.algorithm == DLAAlgorithm::CentralAttractor,
            r.brush_size == 2,
            r.symmetry == DLASymmetry::NoSymmetry,
            r.floor_percent == 25,
            starts_fresh(&r),
    {
        Self::with(depth, width, height, DLAAlgorithm::CentralAttractor, 2, DLASymmetry::NoSymmetry)
    }

    /// Central attractor, brush 2, mirrored left to right.
    pub fn insectoid(depth: i32, width: i32, height: i32) -> (r: DLABuilder)
        requires
            0 <= width <= 0x4000,
            0 <= height <= 0x4000,
            width * height <= max_cells(),
        ensures
            r.map.wf(),
            r.map.width == width,
            r.map.height == height,
            r.map.depth == depth,
            r.algorithm == DLAAlgorithm::CentralAttractor,
            r.brush_size == 2,
            r.symmetry == DLASymmetry::Horizontal,
            r.floor_percent == 25,
            starts_fresh(&r),
    {
        Self::with(depth, width, height, DLAAlgorithm::CentralAttractor, 2, DLASymmetry::Horizontal)
    }

    /// A cell inside the band the diggers stay in, two cells from the edges.
    pub open spec fn in_band(&self, x: int, y: int) -> bool {
        2 <= x <= self.map.width - 2 && 2 <= y <= self.map.height - 2
    }

    proof fn lemma_paint_ok(map: &TileMap, s: DLASymmetry, brush: i32, x: int, y: int)
        requires
            dla_map_ok(map),
            2 <= x <= map.width - 2,
            2 <= y <= map.height - 2,
            -0x1000 <= brush <= 0x1000,
        ensures
            paint_ok(map, spec_symmetry(s), brush as int, x, y),
    {
        let cs = paint_centers(map, spec_symmetry(s), x, y);
        assert forall|k: int| 0 <= k < cs.len() implies brush_ok(map, brush as int, #[trigger] cs[k].0, cs[k].1) by {
            assert(map.in_bounds(cs[k].0, cs[k].1));
        }
    }

    proof fn lemma_paint_spares_edge(map: &TileMap, s: DLASymmetry, brush: int, x: int, y: int, i: int)
        requires
            dla_map_ok(map),
            2 <= x <= map.width - 2,
            2 <= y <= map.height - 2,
            0 <= i < map.tiles@.len(),
            on_map_edge(map, i),
        ensures
            !paint_covers(map, spec_symmetry(s), brush, x, y, i),
    {
        let w = map.width as int;
        let cs = paint_centers(map, spec_symmetry(s), x, y);
        assert forall|k: int| 0 <= k < cs.len() implies !brush_covers(map, brush, #[trigger] cs[k].0, cs[k].1, i) by {
            assert(1 <= cs[k].0 <= w - 2 && 1 <= cs[k].1 <= map.height - 2);
            if brush == 1 && i == map.idx(cs[k].0, cs[k].1) {
                vstd::arithmetic::div_mod::lemma_fundamental_div_mod_converse(i, w, cs[k].1, cs[k].0);
            }
        }
    }

    /// With a one-cell brush and left-right mirroring, a stroke covers a cell
    /// exactly when it covers the cell's mirror image.
    proof fn lemma_stroke_covers_mirror(map: &TileMap, s: DLASymmetry, x: int, y: int, x1: int, y1: int)
        requires
            dla_map_ok(map),
            2 <= x <= map.width - 2,
            2 <= y <= map.height - 2,
            s is Horizontal || s is Both,
            0 <= x1 < map.width,
            0 <= y1 < map.height,
            0 <= 2 * (map.width / 2) - x1 < map.width,
        ensures
            paint_covers(map, spec_symmetry(s), 1, x, y, map.idx(x1, y1))
                == paint_covers(map, spec_symmetry(s), 1, x, y, map.idx(2 * (map.width / 2) - x1, y1)),
    {
        let w = map.width as int;
        let cx = w / 2;
        let x2 = 2 * cx - x1;
        let cs = paint_centers(map, spec_symmetry(s), x, y);
        assert forall|k: int| 0 <= k < cs.len() implies 1 <= (#[trigger] cs[k]).0 <= w - 2 && 1 <= cs[k].1 <= map.height - 2 by {}
        if paint_covers(map, spec_symmetry(s), 1, x, y, map.idx(x1, y1)) {
            let k = choose|k: int| 0 <= k < cs.len() && #[trigger] brush_covers(map, 1, cs[k].0, cs[k].1, map.idx(x1, y1));
            lemma_idx_injective(w, x1, y1, cs[k].0, cs[k].1);
            let j = choose|j: int| 0 <= j < cs.len() && cs[j].0 == 2 * cx - cs[k].0 && cs[j].1 == cs[k].1;
            assert(brush_covers(map, 1, cs[j].0, cs[j].1, map.idx(x2, y1)));
        }
        if paint_covers(map, spec_symmetry(s), 1, x, y, map.idx(x2, y1)) {
            let k = choose|k: int| 0 <= k < cs.len() && #[trigger] brush_covers(map, 1, cs[k].0, cs[k].1, map.idx(x2, y1));
            lemma_idx_injective(w, x2, y1, cs[k].0, cs[k].1);
            let j = choose|j: int| 0 <= j < cs.len() && cs[j].0 == 2 * cx - cs[k].0 && cs[j].1 == cs[k].1;
            assert(brush_covers(map, 1, cs[j].0, cs[j].1, map.idx(x1, y1)));
        }
    }

    /// With a one-cell brush and top-bottom mirroring, a stroke covers a cell
    /// exactly when it covers the cell's mirror image.
    proof fn lemma_stroke_covers_mirror_y(map: &TileMap, s: DLASymmetry, x: int, y: int, x1: int, y1: int)
        requires
            dla_map_ok(map),
            2 <= x <= map.width - 2,
            2 <= y <= map.height - 2,
            s is Vertical || s is Both,
            0 <= x1 < map.width,
            0 <= y1 < map.height,
            0 <= 2 * (map.height / 2) - y1 < map.height,
        ensures
            paint_covers(map, spec_symmetry(s), 1, x, y, map.idx(x1, y1))
                == paint_covers(map, spec_symmetry(s), 1, x, y, map.idx(x1, 2 * (map.height / 2) - y1)),
    {
        let w = map.width as int;
        let cy = map.height / 2;
        let y2 = 2 * cy - y1;
        let cs = paint_centers(map, spec_symmetry(s), x, y);
        assert forall|k: int| 0 <= k < cs.len() implies 1 <= (#[trigger] cs[k]).0 <= w - 2 && 1 <= cs[k].1 <= map.height - 2 by {}
        if paint_covers(map, spec_symmetry(s), 1, x, y, map.idx(x1, y1)) {
            let k = choose|k: int| 0 <= k < cs.len() && #[trigger] brush_covers(map, 1, cs[k].0, cs[k].1, map.idx(x1, y1));
            lemma_idx_injective(w, x1, y1, cs[k].0, cs[k].1);
            let j = choose|j: int| 0 <= j < cs.len() && cs[j].1 == 2 * cy - cs[k].1 && cs[j].0 == cs[k].0;
            assert(brush_covers(map, 1, cs[j].0, cs[j].1, map.idx(x1, y2)));
        }
        if paint_covers(map, spec_symmetry(s), 1, x, y, map.idx(x1, y2)) {
            let k = choose|k: int| 0 <= k < cs.len() && #[trigger] brush_covers(map, 1, cs[k].0, cs[k].1, map.idx(x1, y2));
            lemma_idx_injective(w, x1, y2, cs[k].0, cs[k].1);
            let j = choose|j: int| 0 <= j < cs.len() && cs[j].1 == 2 * cy - cs[k].1 && cs[j].0 == cs[k].0;
            assert(brush_covers(map, 1, cs[j].0, cs[j].1, map.idx(x1, y1)));
        }
    }

    /// Mirrors a stroke at `(x, y)` as the builder's symmetry says, paints
    /// floor with its brush, and records a snapshot.
    fn paint_at(&mut self, x: i32, y: i32)
        requires
            dla_map_ok(&old(self).map),
            old(self).in_band(x as int, y as int),
            -0x1000 <= old(self).brush_size <= 0x1000,
        ensures
            dla_map_ok(&final(self).map),
            final(self).map.width == old(self).map.width,
            final(self).map.height == old(self).map.height,
            final(self).brush_size == old(self).brush_size,
            final(self).symmetry == old(self).symmetry,
            final(self).algorithm == old(self).algorithm,
            final(self).starting_position == old(self).starting_position,
            final(self).floor_percent == old(self).floor_percent,
            only_floor_added(old(self).map.tiles@, final(self).map.tiles@),
            only_tiles_changed(&old(self).map, &final(self).map),
            tiles_set_where(old(self).map.tiles@, final(self).map.tiles@,
                |i: int| paint_covers(&old(self).map, spec_symmetry(old(self).symmetry), old(self).brush_size as int, x as int, y as int, i),
                TileType::Floor),
            forall|i: int| 0 <= i < old(self).map.tiles@.len() && on_map_edge(&old(self).map, i)
                ==> #[trigger] final(self).map.tiles@[i] == old(self).map.tiles@[i],
            old(self).brush_size == 1 && (old(self).symmetry is Horizontal || old(self).symmetry is Both)
                && floor_mirrored_x(&old(self).map, old(self).map.tiles@)
                ==> floor_mirrored_x(&final(self).map, final(self).map.tiles@),
            old(self).brush_size == 1 && (old(self).symmetry is Vertical || old(self).symmetry is Both)
                && floor_mirrored_y(&old(self).map, old(self).map.tiles@)
                ==> floor_mirrored_y(&final(self).map, final(self).map.tiles@),
            final(self).history@.len() == old(self).history@.len() + 1,
    {
        let ghost m0 = self.map;
        let mode = painter_symmetry(self.symmetry);
        proof { Self::lemma_paint_ok(&self.map, self.symmetry, self.brush_size, x as int, y as int); }
        paint(&mut self.map, mode, self.brush_size, x, y);
        proof {
            assert forall|i: int| 0 <= i < m0.tiles@.len() && on_map_edge(&m0, i)
                implies #[trigger] self.map.tiles@[i] == m0.tiles@[i] by {
                Self::lemma_paint_spares_edge(&m0, self.symmetry, self.brush_size as int, x as int, y as int, i);
            }
            if self.brush_size == 1 && (self.symmetry is Horizontal || self.symmetry is Both) && floor_mirrored_x(&m0, m0.tiles@) {
                let cx = m0.width / 2;
                assert forall|x1: int, y1: int| 0 <= x1 < m0.width && 0 <= y1 < m0.height && 0 <= 2 * cx - x1 < m0.width implies
                    (#[trigger] self.map.tiles@[self.map.idx(x1, y1)] is Floor) == (self.map.tiles@[self.map.idx(2 * cx - x1, y1)] is Floor) by {
                    Self::lemma_stroke_covers_mirror(&m0, self.symmetry, x as int, y as int, x1, y1);
                    lemma_cell_index(m0.width as int, m0.height as int, x1, y1);
                    lemma_cell_index(m0.width as int, m0.height as int, 2 * cx - x1, y1);
                    assert(m0.tiles@[m0.idx(x1, y1)] is Floor == m0.tiles@[m0.idx(2 * cx - x1, y1)] is Floor);
                }
            }
            if self.brush_size == 1 && (self.symmetry is Vertical || self.symmetry is Both) && floor_mirrored_y(&m0, m0.tiles@) {
                let cy = m0.height / 2;
                assert forall|x1: int, y1: int| 0 <= x1 < m0.width && 0 <= y1 < m0.height && 0 <= 2 * cy - y1 < m0.height implies
                    (#[trigger] self.map.tiles@[self.map.idx(x1, y1)] is Floor) == (self.map.tiles@[self.map.idx(x1, 2 * cy - y1)] is Floor) by {
                    Self::lemma_stroke_covers_mirror_y(&m0, self.symmetry, x as int, y as int, x1, y1);
                    lemma_cell_index(m0.width as int, m0.height as int, x1, y1);
                    lemma_cell_index(m0.width as int, m0.height as int, x1, 2 * cy - y1);
                    assert(m0.tiles@[m0.idx(x1, y1)] is Floor == m0.tiles@[m0.idx(x1, 2 * cy - y1)] is Floor);
                }
            }
        }
        self.take_snapshot();
    }

    /// Records a copy of the map, fully revealed, in the history.
    pub fn take_snapshot(&mut self)
        ensures
            final(self).map == old(self).map,
            final(self).starting_position == old(self).starting_position,
            final(self).algorithm == old(self).algorithm,
            final(self).brush_size == old(self).brush_size,
            final(self).symmetry == old(self).symmetry,
            final(self).floor_percent == old(self).floor_percent,
            final(self).history@.len() == old(self).history@.len() + 1,
    {
        let mut snapshot = self.map.duplicate();
        let n = snapshot.revealed_tiles.len();
        for i in 0..n
            invariant
                n == snapshot.revealed_tiles.len(),
        {
            snapshot.revealed_tiles.set(i, true);
        }
        self.history.push(snapshot);
    }

    /// One step of a wandering digger at `(x, y)` for a roll of `roll`, kept
    /// inside the band, as [`stagger_to`] says.
    pub fn stagger_by(&self, roll: i32, x: i32, y: i32) -> (r: (i32, i32))
        requires
            dla_map_ok(&self.map),
            self.in_band(x as int, y as int),
        ensures
            (r.0 as int, r.1 as int) == stagger_to(&self.map, x as int, y as int, roll as int),
            self.in_band(r.0 as int, r.1 as int),
    {
        let mut dx = x;
        let mut dy = y;
        if roll == 1 {
            if dx > 2 { dx = dx - 1; }
        } else if roll == 2 {
            if dx < self.map.width - 2 { dx = dx + 1; }
        } else if roll == 3 {
            if dy > 2 { dy = dy - 1; }
        } else {
            if dy < self.map.height - 2 { dy = dy + 1; }
        }
        (dx, dy)
    }

    /// Where a digger that starts at `(sx, sy)` and walks in by the given
    /// rolls paints, as [`walk_in_end`] says: `None` when the rolls run
    /// out before it reaches the floor.
    pub fn walk_in_end_of(&self, sx: i32, sy: i32, rolls: &Vec<i32>) -> (r: Option<(i32, i32)>)
        requires
            dla_map_ok(&self.map),
            self.in_band(sx as int, sy as int),
        ensures
            match r {
                Some(c) => walk_in_end(&self.map, sx as int, sy as int, sx as int, sy as int, rolls@)
                    == Some((c.0 as int, c.1 as int)) && self.in_band(c.0 as int, c.1 as int),
                None => walk_in_end(&self.map, sx as int, sy as int, sx as int, sy as int, rolls@) is None,
            },
    {
        let mut x = sx;
        let mut y = sy;
        let mut px = sx;
        let mut py = sy;
        let mut k: usize = 0;
        proof { assert(rolls@.skip(0) =~= rolls@); }
        while k < rolls.len() && self.tile_is(x, y, TileType::Wall)
            invariant
                dla_map_ok(&self.map),
                self.in_band(x as int, y as int),
                self.in_band(px as int, py as int),
                k <= rolls@.len(),
                walk_in_end(&self.map, sx as int, sy as int, sx as int, sy as int, rolls@)
                    == walk_in_end(&self.map, x as int, y as int, px as int, py as int, rolls@.skip(k as int)),
            decreases rolls@.len() - k,
        {
            proof {
                assert(rolls@.skip(k as int)[0] == rolls@[k as int]);
                assert(rolls@.skip(k as int).drop_first() =~= rolls@.skip(k + 1));
            }
            px = x;
            py = y;
            let n = self.stagger_by(rolls[k], x, y);
            x = n.0;
            y = n.1;
            k = k + 1;
        }
        if self.tile_is(x, y, TileType::Wall) {
            None
        } else {
            Some((px, py))
        }
    }

    /// Where a digger that starts at `(sx, sy)` and walks out by the given
    /// rolls paints, as [`walk_out_end`] says: `None` when the rolls run
    /// out before it leaves the floor.
    pub fn walk_out_end_of(&self, sx: i32, sy: i32, rolls: &Vec<i32>) -> (r: Option<(i32, i32)>)
        requires
            dla_map_ok(&self.map),
            self.in_band(sx as int, sy as int),
        ensures
            match r {
                Some(c) => walk_out_end(&self.map, sx as int, sy as int, rolls@)
                    == Some((c.0 as int, c.1 as int)) && self.in_band(c.0 as int, c.1 as int),
                None => walk_out_end(&self.map, sx as int, sy as int, rolls@) is None,
            },
    {
        let mut x = sx;
        let mut y = sy;
        let mut k: usize = 0;
        proof { assert(rolls@.skip(0) =~= rolls@); }
        while k < rolls.len() && self.tile_is(x, y, TileType::Floor)
            invariant
                dla_map_ok(&self.map),
                self.in_band(x as int, y as int),
                k <= rolls@.len(),
                walk_out_end(&self.map, sx as int, sy as int, rolls@)
                    == walk_out_end(&self.map, x as int, y as int, rolls@.skip(k as int)),
            decreases rolls@.len() - k,
        {
            proof {
                assert(rolls@.skip(k as int)[0] == rolls@[k as int]);
                assert(rolls@.skip(k as int).drop_first() =~= rolls@.skip(k + 1));
            }
            let n = self.stagger_by(rolls[k], x, y);
            x = n.0;
            y = n.1;
            k = k + 1;
        }
        if self.tile_is(x, y, TileType::Floor) {
            None
        } else {
            Some((x, y))
        }
    }

    /// Where a digger that starts at `(sx, sy)` and heads for the centre
    /// along `path` paints, as [`attract_end`] says.
    pub fn attract_end_of(&self, sx: i32, sy: i32, path: &Vec<Point>) -> (r: (i32, i32))
        requires
            dla_map_ok(&self.map),
            self.in_band(sx as int, sy as int),
            forall|j: int| 0 <= j < path@.len() ==> self.in_band((#[trigger] path@[j]).x as int, path@[j].y as int),
        ensures
            (r.0 as int, r.1 as int) == attract_end(&self.map, sx as int, sy as int, sx as int, sy as int, path@),
            self.in_band(r.0 as int, r.1 as int),
    {
        let mut x = sx;
        let mut y = sy;
        let mut px = sx;
        let mut py = sy;
        let mut k: usize = 0;
        proof { assert(path@.skip(0) =~= path@); }
        while k < path.len() && self.tile_is(x, y, TileType::Wall)
            invariant
                dla_map_ok(&self.map),
                self.in_band(x as int, y as int),
                self.in_band(px as int, py as int),
                k <= path@.len(),
                forall|j: int| 0 <= j < path@.len() ==> self.in_band((#[trigger] path@[j]).x as int, path@[j].y as int),
                attract_end(&self.map, sx as int, sy as int, sx as int, sy as int, path@)
                    == attract_end(&self.map, x as int, y as int, px as int, py as int, path@.skip(k as int)),
            decreases path@.len() - k,
        {
            proof {
                assert(path@.skip(k as int)[0] == path@[k as int]);
                assert(path@.skip(k as int).drop_first() =~= path@.skip(k + 1));
            }
            px = x;
            py = y;
            let p = path[k];
            x = p.x;
            y = p.y;
            k = k + 1;
        }
        (px, py)
    }

    /// Draws rolls for a wandering digger that starts at `(sx, sy)`, more
    /// each time they run out, until its walk ends; gives back where it
    /// paints (`None` only if `MAX_WALK_ROUNDS` rounds of rolls never end
    /// the walk).
    fn wander(&self, rng: &mut RandomNumberGenerator, sx: i32, sy: i32, inwards: bool) -> (r: Option<(i32, i32)>)
        requires
            dla_map_ok(&self.map),
            self.in_band(sx as int, sy as int),
        ensures
            r matches Some(c) ==> self.in_band(c.0 as int, c.1 as int),
            r matches Some(c) ==> exists|rolls: Seq<i32>| {
                &&& forall|k: int| 0 <= k < rolls.len() ==> 1 <= #[trigger] rolls[k] <= 4
                &&& (if inwards { walk_in_end(&self.map, sx as int, sy as int, sx as int, sy as int, rolls) }
                    else { walk_out_end(&self.map, sx as int, sy as int, rolls) }) == Some((c.0 as int, c.1 as int))
            },
    {
        let mut rolls: Vec<i32> = Vec::new();
        let mut end = if inwards { self.walk_in_end_of(sx, sy, &rolls) } else { self.walk_out_end_of(sx, sy, &rolls) };
        let mut more: usize = 16;
        let mut rounds: u32 = 0;
        while end.is_none() && rounds < MAX_WALK_ROUNDS
            invariant
                dla_map_ok(&self.map),
                self.in_band(sx as int, sy as int),
                16 <= more,
                forall|k: int| 0 <= k < rolls@.len() ==> 1 <= #[trigger] rolls@[k] <= 4,
                end matches Some(c) ==> self.in_band(c.0 as int, c.1 as int),
                end matches Some(c) ==> (if inwards { walk_in_end(&self.map, sx as int, sy as int, sx as int, sy as int, rolls@) }
                    else { walk_out_end(&self.map, sx as int, sy as int, rolls@) }) == Some((c.0 as int, c.1 as int)),
            decreases MAX_WALK_ROUNDS - rounds,
        {
            let mut k: usize = 0;
            let start_len = rolls.len();
            while k < more
                invariant
                    k <= more,
                    rolls@.len() == start_len + k,
                    forall|j: int| 0 <= j < rolls@.len() ==> 1 <= #[trigger] rolls@[j] <= 4,
                decreases more - k,
            {
                let roll = roll_dice(rng, 1, 4);
                rolls.push(roll);
                k = k + 1;
            }
            end = if inwards { self.walk_in_end_of(sx, sy, &rolls) } else { self.walk_out_end_of(sx, sy, &rolls) };
            more = if rolls.len() < 0x4000_0000 { rolls.len() } else { 0x4000_0000 };
            if more < 16 { more = 16; }
            rounds = rounds + 1;
        }
        end
    }

    fn tile_is(&self, x: i32, y: i32, t: TileType) -> (r: bool)
        requires
            self.map.wf(),
            self.map.in_bounds(x as int, y as int),
        ensures
            r == (self.map.tile_at(x as int, y as int) == t),
    {
        proof { lemma_cell_index(self.map.width as int, self.map.height as int, x as int, y as int); }
        let idx = self.map.xy_idx(x, y);
        self.map.tiles[idx] == t
    }

    /// Once the distance of every cell from the start is known: culls the
    /// floor that cannot be reached, puts the down stairs on the farthest
    /// reachable floor, recording a snapshot after each, and groups the floor
    /// by noise value, as [`finish_cave`] says.
    pub fn finish(&mut self, distances: &Vec<u32>, noise: &Vec<i32>) -> (r: usize)
        requires
            old(self).map.wf(),
            old(self).map.tiles@.len() > 0,
            distances@.len() == old(self).map.tiles@.len(),
            noise@.len() == old(self).map.tiles@.len(),
        ensures
            final(self).map.wf(),
            final(self).starting_position == old(self).starting_position,
            only_tiles_changed(&old(self).map, &final(self).map),
            is_exit(old(self).map.tiles@, distances@, r as int),
            final(self).map.tiles@ == Seq::new(old(self).map.tiles@.len(), |i: int| culled(old(self).map.tiles@, distances@, i)).update(r as int, TileType::DownStairs),
            final(self).history@.len() == old(self).history@.len() + 2,
            final(self).history@.subrange(0, old(self).history@.len() as int) == old(self).history@,
            final(self).history@[old(self).history@.len() as int].tiles@
                == Seq::new(old(self).map.tiles@.len(), |i: int| culled(old(self).map.tiles@, distances@, i)),
            final(self).history@[old(self).history@.len() + 1int].tiles@ == final(self).map.tiles@,
            spawn_regions_of(&final(self).map, noise@, final(self).noise_areas@),
            forall|i: int| 0 <= i < final(self).map.tiles@.len() && #[trigger] final(self).map.tiles@[i] is Floor
                ==> distances@[i] != UNREACHABLE,
            (forall|i: int| 0 <= i < old(self).map.tiles@.len() ==> !(#[trigger] old(self).map.tiles@[i] is DownStairs))
                ==> forall|i: int| 0 <= i < final(self).map.tiles@.len() ==> (#[trigger] final(self).map.tiles@[i] is DownStairs <==> i == r),
    {
        finish_cave(&mut self.map, &mut self.history, &mut self.noise_areas, distances, noise)
    }

    /// Carves a cross of floor at the centre of the map and sends diggers
    /// out, each painting floor where it stops, until the floor covers the
    /// builder's share of the map (or `MAX_DLA_WALKERS` diggers have gone
    /// out). Where a digger paints is worked out from the rolls it draws by
    /// [`DLABuilder::walk_in_end_of`], [`DLABuilder::walk_out_end_of`] and
    /// [`DLABuilder::attract_end_of`]; a snapshot is recorded after each
    /// digger. Returns the index of the centre. Cells only ever turn into
    /// floor, the map's outermost ring stays as it was, and with a one-cell
    /// brush a floor that starts mirrored the way the builder mirrors stays
    /// mirrored (a wider brush is cut at the edges and offset for even
    /// sizes, so it does not mirror exactly). Culling, the stairs and the
    /// spawn regions follow in [`DLABuilder::finish`], once the distances
    /// are known.
    #[verifier::rlimit(60)]
    #[verifier::spinoff_prover]
    pub fn build(&mut self, rng: &mut RandomNumberGenerator) -> (r: usize)
        requires
            dla_map_ok(&old(self).map),
            -0x1000 <= old(self).brush_size <= 0x1000,
            0 <= old(self).floor_percent <= 100,
        ensures
            dla_map_ok(&final(self).map),
            final(self).map.width == old(self).map.width,
            final(self).map.height == old(self).map.height,
            final(self).starting_position.x == old(self).map.width / 2,
            final(self).starting_position.y == old(self).map.height / 2,
            r == final(self).map.idx(old(self).map.width / 2, old(self).map.height / 2),
            only_floor_added(old(self).map.tiles@, final(self).map.tiles@),
            final(self).map.tiles@[r as int] is Floor,
            final(self).map.tiles@[r - 1] is Floor,
            final(self).map.tiles@[r + 1] is Floor,
            final(self).map.tiles@[r - final(self).map.width] is Floor,
            final(self).map.tiles@[r + final(self).map.width] is Floor,
            final(self).floor_percent == old(self).floor_percent,
            final(self).history@.len() <= old(self).history@.len() + 1 + MAX_DLA_WALKERS,
            floor_count(final(self).map.tiles@) >= old(self).map.width * old(self).map.height * old(self).floor_percent / 100
                || final(self).history@.len() == old(self).history@.len() + 1 + MAX_DLA_WALKERS,
            forall|i: int| 0 <= i < old(self).map.tiles@.len() && on_map_edge(&old(self).map, i)
                ==> #[trigger] final(self).map.tiles@[i] == old(self).map.tiles@[i],
            old(self).brush_size == 1 && (old(self).symmetry is Horizontal || old(self).symmetry is Both)
                && floor_mirrored_x(&old(self).map, old(self).map.tiles@)
                ==> floor_mirrored_x(&final(self).map, final(self).map.tiles@),
            old(self).brush_size == 1 && (old(self).symmetry is Vertical || old(self).symmetry is Both)
                && floor_mirrored_y(&old(self).map, old(self).map.tiles@)
                ==> floor_mirrored_y(&final(self).map, final(self).map.tiles@),
    {
        let ghost m0 = self.map;
        let ghost mirrored_y = self.brush_size == 1 && (self.symmetry is Vertical || self.symmetry is Both)
            && floor_mirrored_y(&m0, m0.tiles@);
        let ghost mirrored = self.brush_size == 1 && (self.symmetry is Horizontal || self.symmetry is Both)
            && floor_mirrored_x(&m0, m0.tiles@);
        let ghost h0 = self.history@.len();
        let w = self.map.width;
        let h = self.map.height;
        let ghost t0 = self.map.tiles@;
        self.starting_position = Position { x: w / 2, y: h / 2 };
        proof { lemma_cell_index(w as int, h as int, (w / 2) as int, (h / 2) as int); }
        let start_idx = self.map.xy_idx(w / 2, h / 2);
        let wu = w as usize;
        proof {
            lemma_cell_index(w as int, h as int, (w / 2) as int, (h / 2 + 1) as int);
            lemma_cell_index(w as int, h as int, (w / 2 + 1) as int, (h / 2) as int);
            lemma_cell_index(w as int, h as int, (w / 2) as int, (h / 2 - 1) as int);
            assert((h / 2 + 1) * w == (h / 2) * w + w) by (nonlinear_arith);
            assert((h / 2 - 1) * w == (h / 2) * w - w) by (nonlinear_arith);
        }
        self.map.set_tile(start_idx, TileType::Floor);
        self.map.set_tile(start_idx - 1, TileType::Floor);
        self.map.set_tile(start_idx + 1, TileType::Floor);
        self.map.set_tile(start_idx - wu, TileType::Floor);
        self.map.set_tile(start_idx + wu, TileType::Floor);
        self.take_snapshot();
        let ghost cross = set![start_idx as int, start_idx - 1, start_idx + 1, start_idx - wu, start_idx + wu];
        proof {
            let cx = (w / 2) as int;
            let cy = (h / 2) as int;
            vstd::arithmetic::div_mod::lemma_fundamental_div_mod_converse(start_idx as int, w as int, cy, cx);
            vstd::arithmetic::div_mod::lemma_fundamental_div_mod_converse(start_idx - 1, w as int, cy, cx - 1);
            vstd::arithmetic::div_mod::lemma_fundamental_div_mod_converse(start_idx + 1, w as int, cy, cx + 1);
            vstd::arithmetic::div_mod::lemma_fundamental_div_mod_converse(start_idx - wu, w as int, cy - 1, cx);
            vstd::arithmetic::div_mod::lemma_fundamental_div_mod_converse(start_idx + wu, w as int, cy + 1, cx);
            assert forall|i: int| 0 <= i < t0.len() && on_map_edge(&m0, i) implies #[trigger] self.map.tiles@[i] == t0[i] by {
                assert(!cross.contains(i));
            }
            if mirrored {
                let mc = 2 * ((w as int) / 2);
                assert forall|x1: int, y1: int| 0 <= x1 < w && 0 <= y1 < h && 0 <= mc - x1 < w implies
                    (#[trigger] self.map.tiles@[self.map.idx(x1, y1)] is Floor) == (self.map.tiles@[self.map.idx(mc - x1, y1)] is Floor) by {
                    lemma_cell_index(w as int, h as int, x1, y1);
                    lemma_cell_index(w as int, h as int, mc - x1, y1);
                    vstd::arithmetic::div_mod::lemma_fundamental_div_mod_converse(m0.idx(x1, y1), w as int, y1, x1);
                    vstd::arithmetic::div_mod::lemma_fundamental_div_mod_converse(m0.idx(mc - x1, y1), w as int, y1, mc - x1);
                    assert(cross.contains(m0.idx(x1, y1)) == cross.contains(m0.idx(mc - x1, y1)));
                    assert((t0[m0.idx(x1, y1)] is Floor) == (t0[m0.idx(mc - x1, y1)] is Floor));
                }
            }
            if mirrored_y {
                let mr = 2 * ((h as int) / 2);
                assert((h / 2 + 1) * w == (h / 2) * w + w) by (nonlinear_arith);
                assert((h / 2 - 1) * w == (h / 2) * w - w) by (nonlinear_arith);
                assert forall|x1: int, y1: int| 0 <= x1 < w && 0 <= y1 < h && 0 <= mr - y1 < h implies
                    (#[trigger] self.map.tiles@[self.map.idx(x1, y1)] is Floor) == (self.map.tiles@[self.map.idx(x1, mr - y1)] is Floor) by {
                    lemma_cell_index(w as int, h as int, x1, y1);
                    lemma_cell_index(w as int, h as int, x1, mr - y1);
                    vstd::arithmetic::div_mod::lemma_fundamental_div_mod_converse(m0.idx(x1, y1), w as int, y1, x1);
                    vstd::arithmetic::div_mod::lemma_fundamental_div_mod_converse(m0.idx(x1, mr - y1), w as int, mr - y1, x1);
                    assert(cross.contains(m0.idx(x1, y1)) == cross.contains(m0.idx(x1, mr - y1)));
                    assert((t0[m0.idx(x1, y1)] is Floor) == (t0[m0.idx(x1, mr - y1)] is Floor));
                }
            }
        }
        let total = w as u64 * h as u64;
        proof {
            assert(total <= max_cells());
            assert(total * (self.floor_percent as u64) <= max_cells() * 100) by (nonlinear_arith)
                requires total <= max_cells(), 0 <= self.floor_percent <= 100;
        }
        let desired = total * (self.floor_percent as u64) / 100;
        assert(desired == w * h * self.floor_percent / 100);
        let mut walkers: u64 = 0;
        while walkers < MAX_DLA_WALKERS && (count_floor(&self.map.tiles) as u64) < desired
            invariant
                self.history@.len() == h0 + 1 + walkers,
                walkers <= MAX_DLA_WALKERS,
                desired == w * h * self.floor_percent / 100,
                self.floor_percent == old(self).floor_percent,
                dla_map_ok(&self.map),
                self.map.width == w,
                self.map.height == h,
                -0x1000 <= self.brush_size <= 0x1000,
                self.starting_position.x == w / 2,
                self.starting_position.y == h / 2,
                start_idx == self.map.idx((w / 2) as int, (h / 2) as int),
                wu == w,
                only_floor_added(t0, self.map.tiles@),
                forall|i: int| #[trigger] cross.contains(i) ==> self.map.tiles@[i] is Floor,
                cross == set![start_idx as int, start_idx - 1, start_idx + 1, start_idx - wu, start_idx + wu],
                0 <= start_idx - wu,
                start_idx + wu < self.map.tiles@.len(),
                m0.width == w,
                m0.height == h,
                t0.len() == self.map.tiles@.len(),
                forall|i: int| 0 <= i < t0.len() && on_map_edge(&m0, i) ==> #[trigger] self.map.tiles@[i] == t0[i],
                mirrored == (self.brush_size == 1 && (self.symmetry is Horizontal || self.symmetry is Both)
                    && floor_mirrored_x(&m0, m0.tiles@)),
                mirrored ==> floor_mirrored_x(&self.map, self.map.tiles@),
                mirrored_y == (self.brush_size == 1 && (self.symmetry is Vertical || self.symmetry is Both)
                    && floor_mirrored_y(&m0, m0.tiles@)),
                mirrored_y ==> floor_mirrored_y(&self.map, self.map.tiles@),
            decreases MAX_DLA_WALKERS - walkers,
        {
            let ghost before = self.map.tiles@;
            match self.algorithm {
                DLAAlgorithm::WalkInwards => {
                    let sx = roll_dice(rng, 1, w - 3) + 1;
                    let sy = roll_dice(rng, 1, h - 3) + 1;
                    match self.wander(rng, sx, sy, true) {
                        Some((cx, cy)) => self.paint_at(cx, cy),
                        None => self.take_snapshot(),
                    }
                },
                DLAAlgorithm::WalkOutwards => {
                    match self.wander(rng, w / 2, h / 2, false) {
                        Some((cx, cy)) => self.paint_at(cx, cy),
                        None => self.take_snapshot(),
                    }
                },
                DLAAlgorithm::CentralAttractor => {
                    let sx = roll_dice(rng, 1, w - 3) + 1;
                    let sy = roll_dice(rng, 1, h - 3) + 1;
                    let path = line_points(sx, sy, w / 2, h / 2);
                    assert forall|j: int| 0 <= j < path@.len() implies self.in_band((#[trigger] path@[j]).x as int, path@[j].y as int) by {
                        assert(if sx <= w / 2 { sx <= path@[j].x <= w / 2 } else { w / 2 <= path@[j].x <= sx });
                        assert(if sy <= h / 2 { sy <= path@[j].y <= h / 2 } else { h / 2 <= path@[j].y <= sy });
                    }
                    let (cx, cy) = self.attract_end_of(sx, sy, &path);
                    self.paint_at(cx, cy);
                },
            }
            proof {
                assert forall|i: int| #[trigger] cross.contains(i) implies self.map.tiles@[i] is Floor by {
                    assert(before[i] is Floor);
                }
                assert forall|i: int| 0 <= i < self.map.tiles@.len() implies #[trigger] self.map.tiles@[i] == t0[i]
                    || self.map.tiles@[i] is Floor by {
                    assert(before[i] == t0[i] || before[i] is Floor);
                }
                assert forall|i: int| 0 <= i < t0.len() && on_map_edge(&m0, i) implies #[trigger] self.map.tiles@[i] == t0[i] by {
                    assert(before[i] == t0[i]);
                }
            }
            walkers = walkers + 1;
        }
        proof {
            assert(cross.contains(start_idx as int));
            assert(cross.contains(start_idx - 1));
            assert(cross.contains(start_idx + 1));
            assert(cross.contains(start_idx - wu));
            assert(cross.contains(start_idx + wu));
        }
        start_idx
    }
}

} // verus!
