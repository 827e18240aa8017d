use vstd::prelude::*;
use std::collections::HashSet;
use crate::tile::{TileType, tile_walkable, tile_opaque, spec_tile_walkable, spec_tile_opaque};

verus! {

broadcast use vstd::std_specs::hash::group_hash_axioms;

/// A rectangular map of tiles, stored row by row, with what has been seen of
/// it, what blocks movement, and which entities stand on each cell.
#[derive(Debug)]
pub struct TileMap {
    pub tiles: Vec<TileType>,
    pub width: i32,
    pub height: i32,
    pub revealed_tiles: Vec<bool>,
    pub visible_tiles: Vec<bool>,
    pub blocked: Vec<bool>,
    pub depth: i32,
    pub bloodstains: HashSet<usize>,
    pub view_blocked: HashSet<usize>,
    pub name: String,
    /// Identifiers of the entities standing on each cell.
    pub tile_content: Vec<Vec<u64>>,
}

/// The largest number of cells a map may have: the count is worked out as
/// an `i32`, so it must fit in one.
pub open spec fn max_cells() -> int {
    0x7fff_ffff
}

impl TileMap {
    /// The number of cells of a `width` by `height` map.
    pub open spec fn cells(&self) -> int {
        self.width * self.height
    }

    /// The map's dimensions are sane and every per-cell layer covers the whole map.
    pub open spec fn wf(&self) -> bool {
        &&& 0 <= self.width
        &&& 0 <= self.height
        &&& self.width * self.height <= max_cells()
        &&& self.tiles.len() == self.cells()
        &&& self.revealed_tiles.len() == self.cells()
        &&& self.visible_tiles.len() == self.cells()
        &&& self.blocked.len() == self.cells()
        &&& self.tile_content.len() == self.cells()
    }

    /// Whether `(x, y)` lies on the map.
    pub open spec fn in_bounds(&self, x: int, y: int) -> bool {
        0 <= x < self.width && 0 <= y < self.height
    }

    /// The index of cell `(x, y)` in the row-by-row layers.
    pub open spec fn idx(&self, x: int, y: int) -> int {
        y * self.width + x
    }

    /// The tile at `(x, y)`.
    pub open spec fn tile_at(&self, x: int, y: int) -> TileType {
        self.tiles@[self.idx(x, y)]
    }

    /// The index of cell `(x, y)`.
    pub fn xy_idx(&self, x: i32, y: i32) -> (r: usize)
        requires
            self.wf(),
            self.in_bounds(x as int, y as int),
        ensures
            r == self.idx(x as int, y as int),
            r < self.tiles@.len(),
    {
        proof {
            lemma_cell_index(self.width as int, self.height as int, x as int, y as int);
            vstd::arithmetic::mul::lemma_mul_nonnegative(y as int, self.width as int);
        }
        (y as usize * self.width as usize) + x as usize
    }

    /// The row-by-row index `y * width + x`, for a cell on the map or past
    /// its right edge.
    pub fn raw_idx(&self, x: i32, y: i32) -> (r: usize)
        requires
            0 <= x,
            0 <= y,
            0 <= self.width,
            y * self.width + x <= usize::MAX,
        ensures
            r == self.idx(x as int, y as int),
    {
        proof {
            vstd::arithmetic::mul::lemma_mul_nonnegative(y as int, self.width as int);
        }
        (y as usize * self.width as usize) + x as usize
    }

    pub open spec fn spec_is_exit_valid(&self, x: int, y: int) -> bool {
        self.in_bounds(x, y) && !self.blocked@[self.idx(x, y)]
    }

    /// Whether a creature may step onto `(x, y)`: it is on the map and not blocked.
    pub fn is_exit_valid(&self, x: i32, y: i32) -> (r: bool)
        requires
            self.wf(),
        ensures
            r == self.spec_is_exit_valid(x as int, y as int),
    {
        if x < 0 || x >= self.width || y < 0 || y >= self.height {
            return false;
        }
        proof { lemma_cell_index(self.width as int, self.height as int, x as int, y as int); }
        let idx = self.xy_idx(x, y);
        !self.blocked[idx]
    }

    /// Marks as blocked exactly the cells whose tile cannot be walked on.
    pub fn populate_blocked(&mut self)
        requires
            old(self).wf(),
        ensures
            final(self).wf(),
            final(self).tiles == old(self).tiles,
            final(self).width == old(self).width,
            final(self).height == old(self).height,
            final(self).revealed_tiles == old(self).revealed_tiles,
            final(self).visible_tiles == old(self).visible_tiles,
            final(self).tile_content == old(self).tile_content,
            final(self).depth == old(self).depth,
            final(self).bloodstains@ == old(self).bloodstains@,
            final(self).view_blocked@ == old(self).view_blocked@,
            final(self).name@ == old(self).name@,
            forall|i: int| 0 <= i < final(self).blocked.len() ==>
                final(self).blocked@[i] == !spec_tile_walkable(#[trigger] final(self).tiles@[i]),
    {
        let n = self.tiles.len();
        for i in 0..n
            invariant
                self.wf(),
                n == self.tiles.len(),
                self.tiles == old(self).tiles,
                self.width == old(self).width,
                self.height == old(self).height,
                self.revealed_tiles == old(self).revealed_tiles,
                self.visible_tiles == old(self).visible_tiles,
                self.tile_content == old(self).tile_content,
                self.depth == old(self).depth,
                self.bloodstains@ == old(self).bloodstains@,
                self.view_blocked@ == old(self).view_blocked@,
                self.name@ == old(self).name@,
                forall|j: int| 0 <= j < i ==>
                    self.blocked@[j] == !spec_tile_walkable(#[trigger] self.tiles@[j]),
        {
            let w = tile_walkable(self.tiles[i]);
            self.blocked.set(i, !w);
        }
    }

    /// Forgets which entities stand where.
    pub fn clear_content_index(&mut self)
        requires
            old(self).wf(),
        ensures
            final(self).wf(),
            final(self).tiles == old(self).tiles,
            final(self).width == old(self).width,
            final(self).height == old(self).height,
            final(self).blocked == old(self).blocked,
            final(self).revealed_tiles == old(self).revealed_tiles,
            final(self).visible_tiles == old(self).visible_tiles,
            final(self).depth == old(self).depth,
            final(self).tile_content.len() == old(self).tile_content.len(),
            forall|i: int| 0 <= i < final(self).tile_content.len() ==>
                (#[trigger] final(self).tile_content@[i])@.len() == 0,
    {
        let n = self.tile_content.len();
        for i in 0..n
            invariant
                self.wf(),
                n == self.tile_content.len(),
                self.tiles == old(self).tiles,
                self.width == old(self).width,
                self.height == old(self).height,
                self.blocked == old(self).blocked,
                self.revealed_tiles == old(self).revealed_tiles,
                self.visible_tiles == old(self).visible_tiles,
                self.depth == old(self).depth,
                forall|j: int| 0 <= j < i ==> (#[trigger] self.tile_content@[j])@.len() == 0,
        {
            self.tile_content.set(i, Vec::new());
        }
    }

    /// A map of solid walls, `width` by `height`, with nothing seen, nothing
    /// blocked and no bloodstains.
    pub fn new(depth: i32, width: i32, height: i32, name: String) -> (r: TileMap)
        requires
            0 <= width,
            0 <= height,
            width * height <= max_cells(),
        ensures
            r.wf(),
            r.depth == depth,
            r.width == width,
            r.height == height,
            r.name@ == name@,
            r.bloodstains@.is_empty(),
            r.view_blocked@.is_empty(),
            forall|i: int| 0 <= i < r.cells() ==> {
                &&& #[trigger] r.tiles@[i] == TileType::Wall
                &&& !r.revealed_tiles@[i]
                &&& !r.visible_tiles@[i]
                &&& !r.blocked@[i]
                &&& r.tile_content@[i]@.len() == 0
            },
    {
        let n = (width * height) as usize;
        let mut tiles: Vec<TileType> = Vec::new();
        let mut revealed_tiles: Vec<bool> = Vec::new();
        let mut visible_tiles: Vec<bool> = Vec::new();
        let mut blocked: Vec<bool> = Vec::new();
        let mut tile_content: Vec<Vec<u64>> = Vec::new();
        for i in 0..n
            invariant
                tiles.len() == i,
                revealed_tiles.len() == i,
                visible_tiles.len() == i,
                blocked.len() == i,
                tile_content.len() == i,
                forall|j: int| 0 <= j < i ==> {
                    &&& #[trigger] tiles@[j] == TileType::Wall
                    &&& !revealed_tiles@[j]
                    &&& !visible_tiles@[j]
                    &&& !blocked@[j]
                    &&& tile_content@[j]@.len() == 0
                },
        {
            tiles.push(TileType::Wall);
            revealed_tiles.push(false);
            visible_tiles.push(false);
            blocked.push(false);
            tile_content.push(Vec::new());
        }
        TileMap {
            tiles,
            width,
            height,
            revealed_tiles,
            visible_tiles,
            blocked,
            tile_content,
            depth,
            bloodstains: HashSet::new(),
            view_blocked: HashSet::new(),
            name,
        }
    }

    pub open spec fn spec_is_opaque(&self, idx: int) -> bool {
        idx >= self.tiles.len() || spec_tile_opaque(self.tiles@[idx]) || self.view_blocked@.contains(
            idx as usize,
        )
    }

    /// Whether cell `idx` blocks sight: it is off the map, its tile is opaque,
    /// or something standing there blocks the view.
    pub fn is_opaque(&self, idx: usize) -> (r: bool)
        ensures
            r == self.spec_is_opaque(idx as int),
    {
        idx >= self.tiles.len() || tile_opaque(self.tiles[idx]) || self.view_blocked.contains(&idx)
    }
}

impl TileMap {
    /// An independent copy of the map.
    pub fn duplicate(&self) -> (r: TileMap)
        ensures
            r.tiles@ == self.tiles@,
            r.width == self.width,
            r.height == self.height,
            r.revealed_tiles@ == self.revealed_tiles@,
            r.visible_tiles@ == self.visible_tiles@,
            r.blocked@ == self.blocked@,
            r.depth == self.depth,
            r.bloodstains@ == self.bloodstains@,
            r.view_blocked@ == self.view_blocked@,
            r.name@ == self.name@,
            r.tile_content@.len() == self.tile_content@.len(),
            forall|i: int| 0 <= i < r.tile_content@.len() ==> (#[trigger] r.tile_content@[i])@ == self.tile_content@[i]@,
    {
        let mut tile_content: Vec<Vec<u64>> = Vec::new();
        for i in 0..self.tile_content.len()
            invariant
                tile_content.len() == i,
                forall|j: int| 0 <= j < i ==> (#[trigger] tile_content@[j])@ == self.tile_content@[j]@,
        {
            let mut cell: Vec<u64> = Vec::new();
            let src = &self.tile_content[i];
            for k in 0..src.len()
                invariant
                    cell@ == src@.take(k as int),
            {
                cell.push(src[k]);
                proof { assert(src@.take(k + 1) == src@.take(k as int).push(src@[k as int])); }
            }
            proof { assert(src@.take(src@.len() as int) == src@); }
            tile_content.push(cell);
        }
        TileMap {
            tiles: self.tiles.clone(),
            width: self.width,
            height: self.height,
            revealed_tiles: self.revealed_tiles.clone(),
            visible_tiles: self.visible_tiles.clone(),
            blocked: self.blocked.clone(),
            depth: self.depth,
            bloodstains: copy_cell_set(&self.bloodstains),
            view_blocked: copy_cell_set(&self.view_blocked),
            name: self.name.clone(),
            tile_content,
        }
    }

    /// The exit towards `(x + dx, y + dy)`, if a creature may take it: the
    /// destination cell and whether the step is diagonal.
    pub open spec fn exit_towards(&self, x: int, y: int, dx: int, dy: int) -> Seq<(usize, bool)> {
        if self.spec_is_exit_valid(x + dx, y + dy) {
            seq![(self.idx(x + dx, y + dy) as usize, dx != 0 && dy != 0)]
        } else {
            seq![]
        }
    }

    /// The exits of cell `idx`, in the order west, east, north, south, then
    /// north-west, north-east, south-west, south-east.
    pub open spec fn spec_exits(&self, idx: int) -> Seq<(usize, bool)> {
        let x = idx % (self.width as int);
        let y = idx / (self.width as int);
        self.exit_towards(x, y, -1, 0) + self.exit_towards(x, y, 1, 0) + self.exit_towards(x, y, 0, -1)
            + self.exit_towards(x, y, 0, 1) + self.exit_towards(x, y, -1, -1) + self.exit_towards(x, y, 1, -1)
            + self.exit_towards(x, y, -1, 1) + self.exit_towards(x, y, 1, 1)
    }

    fn push_exit(&self, exits: &mut Vec<(usize, bool)>, x: i32, y: i32, dx: i32, dy: i32)
        requires
            self.wf(),
            -1 <= dx <= 1,
            -1 <= dy <= 1,
            0 <= x < self.width,
            0 <= y < self.height,
        ensures
            final(exits)@ == old(exits)@ + self.exit_towards(x as int, y as int, dx as int, dy as int),
    {
        if self.is_exit_valid(x + dx, y + dy) {
            proof { lemma_cell_index(self.width as int, self.height as int, (x + dx) as int, (y + dy) as int); }
            let idx = self.xy_idx(x + dx, y + dy);
            exits.push((idx, dx != 0 && dy != 0));
        }
    }

    /// The cells a creature on cell `idx` may step to, each with whether the
    /// step is diagonal (diagonal steps cost 1.45 times as much as orthogonal ones).
    pub fn get_available_exits(&self, idx: usize) -> (r: Vec<(usize, bool)>)
        requires
            self.wf(),
            idx < self.tiles.len(),
        ensures
            r@ == self.spec_exits(idx as int),
    {
        let x = (idx as i32) % self.width;
        let y = (idx as i32) / self.width;
        proof { lemma_index_cell(self.width as int, self.height as int, idx as int); }
        let mut exits: Vec<(usize, bool)> = Vec::new();
        self.push_exit(&mut exits, x, y, -1, 0);
        self.push_exit(&mut exits, x, y, 1, 0);
        self.push_exit(&mut exits, x, y, 0, -1);
        self.push_exit(&mut exits, x, y, 0, 1);
        self.push_exit(&mut exits, x, y, -1, -1);
        self.push_exit(&mut exits, x, y, 1, -1);
        self.push_exit(&mut exits, x, y, -1, 1);
        self.push_exit(&mut exits, x, y, 1, 1);
        exits
    }
}

/// `b` differs from `a` at most in its tiles, and has as many of them.
pub open spec fn only_tiles_changed(a: &TileMap, b: &TileMap) -> bool {
    &&& b.width == a.width
    &&& b.height == a.height
    &&& b.tiles.len() == a.tiles.len()
    &&& b.revealed_tiles == a.revealed_tiles
    &&& b.visible_tiles == a.visible_tiles
    &&& b.blocked == a.blocked
    &&& b.depth == a.depth
    &&& b.bloodstains@ == a.bloodstains@
    &&& b.view_blocked@ == a.view_blocked@
    &&& b.name@ == a.name@
    &&& b.tile_content == a.tile_content
}

/// `new` is `old` with the tiles at the indices that `f` selects turned into `t`.
pub open spec fn tiles_set_where(old: Seq<TileType>, new: Seq<TileType>, f: spec_fn(int) -> bool, t: TileType) -> bool {
    &&& new.len() == old.len()
    &&& forall|i: int| 0 <= i < new.len() ==> #[trigger] new[i] == (if f(i) { t } else { old[i] })
}

impl TileMap {
    /// Sets the tile at index `idx`, leaving everything else as it was.
    pub fn set_tile(&mut self, idx: usize, t: TileType)
        requires
            old(self).wf(),
            idx < old(self).tiles.len(),
        ensures
            final(self).wf(),
            only_tiles_changed(old(self), final(self)),
            final(self).tiles@ == old(self).tiles@.update(idx as int, t),
    {
        self.tiles.set(idx, t);
    }

    /// Records a bloodstain on cell `(x, y)`, leaving everything else as it was.
    pub fn add_bloodstain(&mut self, x: i32, y: i32)
        requires
            old(self).wf(),
            old(self).in_bounds(x as int, y as int),
        ensures
            final(self).wf(),
            final(self).bloodstains@ == old(self).bloodstains@.insert(old(self).idx(x as int, y as int) as usize),
            final(self).tiles == old(self).tiles,
            final(self).width == old(self).width,
            final(self).height == old(self).height,
            final(self).revealed_tiles == old(self).revealed_tiles,
            final(self).visible_tiles == old(self).visible_tiles,
            final(self).blocked == old(self).blocked,
            final(self).depth == old(self).depth,
            final(self).view_blocked@ == old(self).view_blocked@,
            final(self).name@ == old(self).name@,
            final(self).tile_content == old(self).tile_content,
    {
        proof { lemma_cell_index(self.width as int, self.height as int, x as int, y as int); }
        let idx = self.xy_idx(x, y);
        self.bloodstains.insert(idx);
    }

    /// Marks every cell of row `row` as revealed, leaving everything else
    /// as it was.
    pub fn reveal_row(&mut self, row: i32)
        requires
            old(self).wf(),
            0 <= row < old(self).height,
        ensures
            final(self).wf(),
            final(self).tiles == old(self).tiles,
            final(self).width == old(self).width,
            final(self).height == old(self).height,
            final(self).visible_tiles == old(self).visible_tiles,
            final(self).blocked == old(self).blocked,
            final(self).depth == old(self).depth,
            final(self).bloodstains@ == old(self).bloodstains@,
            final(self).view_blocked@ == old(self).view_blocked@,
            final(self).name@ == old(self).name@,
            final(self).tile_content == old(self).tile_content,
            final(self).revealed_tiles@.len() == old(self).revealed_tiles@.len(),
            forall|i: int| 0 <= i < old(self).revealed_tiles@.len() ==> #[trigger] final(self).revealed_tiles@[i]
                == (old(self).revealed_tiles@[i] || (row * old(self).width <= i < row * old(self).width + old(self).width)),
    {
        let w = self.width;
        let ghost start = row * w;
        let ghost before = self.revealed_tiles@;
        let mut x: i32 = 0;
        while x < w
            invariant
                self.wf(),
                w == self.width,
                0 <= x <= w,
                0 <= row < self.height,
                start == row * w,
                self.tiles == old(self).tiles,
                self.width == old(self).width,
                self.height == old(self).height,
                self.visible_tiles == old(self).visible_tiles,
                self.blocked == old(self).blocked,
                self.depth == old(self).depth,
                self.bloodstains@ == old(self).bloodstains@,
                self.view_blocked@ == old(self).view_blocked@,
                self.name@ == old(self).name@,
                self.tile_content == old(self).tile_content,
                self.revealed_tiles@.len() == before.len(),
                forall|i: int| 0 <= i < before.len() ==> #[trigger] self.revealed_tiles@[i]
                    == (before[i] || (start <= i < start + x)),
            decreases w - x,
        {
            proof { lemma_cell_index(w as int, self.height as int, x as int, row as int); }
            let idx = self.xy_idx(x, row);
            self.revealed_tiles.set(idx, true);
            x += 1;
        }
    }
}

/// A copy of a set of cell indices.
pub fn copy_cell_set(s: &HashSet<usize>) -> (r: HashSet<usize>)
    ensures
        r@ == s@,
{
    let mut r: HashSet<usize> = HashSet::new();
    for k in it: s.iter()
        invariant
            r@ == it.seq().take(it.index() as int).unref().to_set(),
            it.seq().unref().to_set() == s@,
            it.index() == it.seq().len() ==> r@ == s@,
    {
        let ghost prev = it.seq().take(it.index() as int);
        r.insert(*k);
        proof {
            assert(it.seq().take(it.index() + 1) == prev.push(k));
            assert(it.seq().take(it.index() + 1).unref() == prev.unref().push(*k));
            prev.unref().lemma_push_to_set_commute(*k);
            assert(it.seq().take(it.seq().len() as int) == it.seq());
        }
    }
    r
}

/// A cell inside a map of sane size has an index inside the map.
pub proof fn lemma_cell_index(w: int, h: int, x: int, y: int)
    requires
        0 <= x < w,
        0 <= y < h,
    ensures
        0 <= y * w + x < w * h,
        y * w + x == y * w + x,
{
    vstd::arithmetic::mul::lemma_mul_inequality(y, h - 1, w);
    vstd::arithmetic::mul::lemma_mul_is_distributive_sub(w, h, 1);
    vstd::arithmetic::mul::lemma_mul_nonnegative(y, w);
    vstd::arithmetic::mul::lemma_mul_is_commutative(y, w);
    vstd::arithmetic::mul::lemma_mul_is_commutative(h - 1, w);
    vstd::arithmetic::mul::lemma_mul_is_commutative(h, w);
}

/// Two cells of a row-by-row map share an index only if they are the same cell.
pub proof fn lemma_idx_injective(w: int, x1: int, y1: int, x2: int, y2: int)
    requires
        0 <= x1 < w,
        0 <= x2 < w,
        y1 * w + x1 == y2 * w + x2,
    ensures
        x1 == x2,
        y1 == y2,
{
    vstd::arithmetic::div_mod::lemma_fundamental_div_mod_converse(y1 * w + x1, w, y1, x1);
    vstd::arithmetic::div_mod::lemma_fundamental_div_mod_converse(y2 * w + x2, w, y2, x2);
}

/// The cell at an index inside a map lies on the map.
pub proof fn lemma_index_cell(w: int, h: int, idx: int)
    requires
        0 < w,
        0 <= h,
        0 <= idx < w * h,
    ensures
        0 <= idx % w < w,
        0 <= idx / w < h,
        idx == (idx / w) * w + idx % w,
{
    vstd::arithmetic::div_mod::lemma_fundamental_div_mod(idx, w);
    vstd::arithmetic::div_mod::lemma_div_pos_is_pos(idx, w);
    vstd::arithmetic::mul::lemma_mul_is_commutative(idx / w, w);
    if idx / w >= h {
        vstd::arithmetic::mul::lemma_mul_inequality(h, idx / w, w);
        vstd::arithmetic::mul::lemma_mul_is_commutative(h, w);
    }
}

} // verus!
