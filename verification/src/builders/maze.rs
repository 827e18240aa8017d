use vstd::prelude::*;
use rltk::RandomNumberGenerator;
use crate::rng::roll_dice;
use crate::map::{TileMap, max_cells, only_tiles_changed, tiles_set_where, lemma_cell_index, lemma_idx_injective};
use crate::components::Position;
use crate::tile::TileType;

verus! {

/// The side of a maze cell that `walls[TOP]` stands for; likewise the others.
pub const TOP: usize = 0;
pub const RIGHT: usize = 1;
pub const BOTTOM: usize = 2;
pub const LEFT: usize = 3;

/// One cell of a maze grid: where it is, which of its four walls still
/// stand, and whether the maze generator has been there.
#[derive(Copy, Clone, Debug)]
pub struct Cell {
    pub row: i32,
    pub column: i32,
    pub walls: [bool; 4],
    pub visited: bool,
}

/// `after` is cell `c` with its wall facing `other` knocked down (when the
/// two cells are side by side; otherwise with its walls as they were).
pub open spec fn opened_toward(c: Cell, other: Cell, after: Cell) -> bool {
    let x = c.column - other.column;
    let y = c.row - other.row;
    &&& after.row == c.row
    &&& after.column == c.column
    &&& after.visited == c.visited
    &&& after.walls@ == (if x == 1 {
        c.walls@.update(LEFT as int, false)
    } else if x == -1 {
        c.walls@.update(RIGHT as int, false)
    } else if y == 1 {
        c.walls@.update(TOP as int, false)
    } else if y == -1 {
        c.walls@.update(BOTTOM as int, false)
    } else {
        c.walls@
    })
}

impl Cell {
    /// A cell at `(row, column)` with all four walls standing, not visited.
    pub fn new(row: i32, column: i32) -> (r: Cell)
        ensures
            r.row == row,
            r.column == column,
            r.walls@ == seq![true, true, true, true],
            !r.visited,
    {
        Cell { row, column, walls: [true, true, true, true], visited: false }
    }

    /// Knocks down the wall between this cell and `next` when they are
    /// side by side: this cell's wall facing `next` and `next`'s wall
    /// facing this cell. Cells that are not side by side are left alone.
    pub fn remove_walls(&mut self, next: &mut Cell)
        requires
            i32::MIN <= old(self).column - old(next).column <= i32::MAX,
            i32::MIN <= old(self).row - old(next).row <= i32::MAX,
        ensures
            final(self).row == old(self).row,
            final(self).column == old(self).column,
            final(self).visited == old(self).visited,
            final(next).row == old(next).row,
            final(next).column == old(next).column,
            final(next).visited == old(next).visited,
            ({
                let x = old(self).column - old(next).column;
                let y = old(self).row - old(next).row;
                if x == 1 {
                    final(self).walls@ == old(self).walls@.update(LEFT as int, false)
                        && final(next).walls@ == old(next).walls@.update(RIGHT as int, false)
                } else if x == -1 {
                    final(self).walls@ == old(self).walls@.update(RIGHT as int, false)
                        && final(next).walls@ == old(next).walls@.update(LEFT as int, false)
                } else if y == 1 {
                    final(self).walls@ == old(self).walls@.update(TOP as int, false)
                        && final(next).walls@ == old(next).walls@.update(BOTTOM as int, false)
                } else if y == -1 {
                    final(self).walls@ == old(self).walls@.update(BOTTOM as int, false)
                        && final(next).walls@ == old(next).walls@.update(TOP as int, false)
                } else {
                    final(self).walls@ == old(self).walls@ && final(next).walls@ == old(next).walls@
                }
            }),
    {
        let x = self.column - next.column;
        let y = self.row - next.row;
        if x == 1 {
            self.walls[LEFT] = false;
            next.walls[RIGHT] = false;
        } else if x == -1 {
            self.walls[RIGHT] = false;
            next.walls[LEFT] = false;
        } else if y == 1 {
            self.walls[TOP] = false;
            next.walls[BOTTOM] = false;
        } else if y == -1 {
            self.walls[BOTTOM] = false;
            next.walls[TOP] = false;
        }
    }
}

/// A `width` by `height` grid of maze cells, stored row by row, with the
/// cell the generator stands on and the way it came.
pub struct Grid {
    pub width: i32,
    pub height: i32,
    pub cells: Vec<Cell>,
    pub backtrace: Vec<usize>,
    pub current: usize,
}

/// The number of cells of a grid with the given dimensions.
pub open spec fn grid_len(width: int, height: int) -> int {
    if width > 0 && height > 0 { width * height } else { 0 }
}

/// Cell `i` of `cells` sits at the row and column that its index names.
pub open spec fn cell_placed(cells: Seq<Cell>, width: int, height: int, i: int) -> bool {
    &&& 0 <= cells[i].column < width
    &&& 0 <= cells[i].row < height
    &&& cells[i].row * width + cells[i].column == i
}

/// The index of the cell at `(row, col)`, or -1 off the grid.
pub open spec fn spec_calculate_index(width: int, height: int, row: int, col: int) -> int {
    if row < 0 || col < 0 || col >= width || row >= height { -1 } else { col + row * width }
}

/// The indices of the cells above, right of, below and left of `(row, col)`,
/// each -1 where the grid ends.
pub open spec fn neighbor_candidates(width: int, height: int, row: int, col: int) -> Seq<int> {
    seq![
        spec_calculate_index(width, height, row - 1, col),
        spec_calculate_index(width, height, row, col + 1),
        spec_calculate_index(width, height, row + 1, col),
        spec_calculate_index(width, height, row, col - 1),
    ]
}

/// The first `k` of the candidates that are on the grid and not visited, in order.
pub open spec fn unvisited_among(cells: Seq<Cell>, cand: Seq<int>, k: nat) -> Seq<usize>
    decreases k,
{
    if k == 0 {
        seq![]
    } else {
        let p = unvisited_among(cells, cand, (k - 1) as nat);
        let c = cand[k - 1];
        if c != -1 && !cells[c].visited { p.push(c as usize) } else { p }
    }
}

/// An index that names a cell on the grid lies among the grid's cells.
pub proof fn lemma_index_in_grid(width: int, height: int, row: int, col: int)
    ensures
        spec_calculate_index(width, height, row, col) == -1
            || 0 <= spec_calculate_index(width, height, row, col) < grid_len(width, height),
{
    if !(row < 0 || col < 0 || col >= width || row >= height) {
        assert(col + row * width < width * height) by (nonlinear_arith)
            requires 0 <= row < height, 0 <= col < width;
        assert(0 <= row * width) by (nonlinear_arith)
            requires 0 <= row, 0 <= width;
    }
}

/// The map cells that grid cell `c` opens on a map `width` cells wide: its
/// centre at `(2 * (column + 1), 2 * (row + 1))` and, next to it, the side
/// of each wall that has been knocked down.
pub open spec fn opens(width: int, c: Cell, j: int) -> bool {
    let k = (2 * c.row + 2) * width + (2 * c.column + 2);
    ||| j == k
    ||| (j == k - width && !c.walls@[TOP as int])
    ||| (j == k + 1 && !c.walls@[RIGHT as int])
    ||| (j == k + width && !c.walls@[BOTTOM as int])
    ||| (j == k - 1 && !c.walls@[LEFT as int])
}

/// The tile that a maze drawn on a map `width` cells wide puts at map cell
/// `j`: floor where some cell of the maze opens it, wall elsewhere.
pub open spec fn maze_tile(cells: Seq<Cell>, width: int, j: int) -> TileType {
    if exists|i: int| 0 <= i < cells.len() && #[trigger] opens(width, cells[i], j) {
        TileType::Floor
    } else {
        TileType::Wall
    }
}

/// The tiles of a map `width` cells wide with `len` cells after a maze is drawn on it.
pub open spec fn maze_tiles(cells: Seq<Cell>, width: int, len: int) -> Seq<TileType> {
    Seq::new(len as nat, |j: int| maze_tile(cells, width, j))
}

/// Turns into floor the map cells that one grid cell opens.
fn open_cell(map: &mut TileMap, cell: Cell)
    requires
        old(map).wf(),
        0 <= cell.column,
        0 <= cell.row,
        2 * cell.column + 3 < old(map).width,
        2 * cell.row + 3 < old(map).height,
    ensures
        final(map).wf(),
        only_tiles_changed(old(map), final(map)),
        tiles_set_where(old(map).tiles@, final(map).tiles@, |j: int| opens(old(map).width as int, cell, j), TileType::Floor),
{
    let ghost (mw, mh) = (map.width as int, map.height as int);
    let x = (cell.column + 1) * 2;
    let y = (cell.row + 1) * 2;
    proof {
        lemma_cell_index(mw, mh, x as int, y as int);
        lemma_cell_index(mw, mh, x as int, y - 1);
        lemma_cell_index(mw, mh, x as int, y + 1);
        lemma_cell_index(mw, mh, x + 1, y as int);
        lemma_cell_index(mw, mh, x - 1, y as int);
        assert((y - 1) * mw == y * mw - mw) by (nonlinear_arith);
        assert((y + 1) * mw == y * mw + mw) by (nonlinear_arith);
    }
    let idx = map.xy_idx(x, y);
    let w = map.width as usize;
    let ghost t0 = map.tiles@;
    let ghost k = idx as int;
    assert(k == (2 * cell.row + 2) * mw + (2 * cell.column + 2));
    map.set_tile(idx, TileType::Floor);
    if !cell.walls[TOP] {
        map.set_tile(idx - w, TileType::Floor);
    }
    if !cell.walls[RIGHT] {
        map.set_tile(idx + 1, TileType::Floor);
    }
    if !cell.walls[BOTTOM] {
        map.set_tile(idx + w, TileType::Floor);
    }
    if !cell.walls[LEFT] {
        map.set_tile(idx - 1, TileType::Floor);
    }
    proof {
        assert forall|j: int| 0 <= j < map.tiles@.len() implies #[trigger] map.tiles@[j]
            == (if opens(mw, cell, j) { TileType::Floor } else { t0[j] }) by {}
    }
}

/// Cell index `c` is off the grid (-1) or names a visited cell.
pub open spec fn visited_or_off(cells: Seq<Cell>, c: int) -> bool {
    c == -1 || cells[c].visited
}

/// Every neighbour on the grid of cell `v` has been visited.
pub open spec fn neighbours_visited(cells: Seq<Cell>, width: int, height: int, v: int) -> bool {
    let r = cells[v].row as int;
    let c = cells[v].column as int;
    &&& visited_or_off(cells, spec_calculate_index(width, height, r - 1, c))
    &&& visited_or_off(cells, spec_calculate_index(width, height, r, c + 1))
    &&& visited_or_off(cells, spec_calculate_index(width, height, r + 1, c))
    &&& visited_or_off(cells, spec_calculate_index(width, height, r, c - 1))
}

/// Visits made in `b` as in `a`, or more, over the same cells in the same
/// places, keep every neighbour of `v` visited.
pub proof fn lemma_more_visits(a: Seq<Cell>, b: Seq<Cell>, width: int, height: int, v: int)
    requires
        a.len() == b.len(),
        a.len() == grid_len(width, height),
        0 <= v < a.len(),
        forall|j: int| 0 <= j < a.len() ==> (#[trigger] a[j]).visited ==> b[j].visited,
        forall|j: int| 0 <= j < a.len() ==> (#[trigger] b[j]).row == a[j].row && b[j].column == a[j].column,
        forall|j: int| 0 <= j < a.len() ==> cell_placed(a, width, height, j),
        neighbours_visited(a, width, height, v),
    ensures
        neighbours_visited(b, width, height, v),
{
    let r = a[v].row as int;
    let c = a[v].column as int;
    assert(b[v].row == r && b[v].column == c);
    assert(cell_placed(a, width, height, v));
    lemma_index_in_grid(width, height, r - 1, c);
    lemma_index_in_grid(width, height, r, c + 1);
    lemma_index_in_grid(width, height, r + 1, c);
    lemma_index_in_grid(width, height, r, c - 1);
}

/// The walls of a grid agree: a wall between two neighbouring cells stands
/// on both sides or on neither, and the walls round the grid stand.
pub open spec fn walls_agree(cells: Seq<Cell>, width: int, height: int) -> bool {
    &&& forall|i: int| 0 <= i < cells.len() && cells[i].column + 1 < width ==>
        (#[trigger] cells[i].walls@[RIGHT as int]) == cells[i + 1].walls@[LEFT as int]
    &&& forall|i: int| 0 <= i < cells.len() && cells[i].row + 1 < height ==>
        (#[trigger] cells[i].walls@[BOTTOM as int]) == cells[i + width].walls@[TOP as int]
    &&& forall|i: int| 0 <= i < cells.len() && cells[i].column == 0 ==> #[trigger] cells[i].walls@[LEFT as int]
    &&& forall|i: int| 0 <= i < cells.len() && cells[i].column == width - 1 ==> #[trigger] cells[i].walls@[RIGHT as int]
    &&& forall|i: int| 0 <= i < cells.len() && cells[i].row == 0 ==> #[trigger] cells[i].walls@[TOP as int]
    &&& forall|i: int| 0 <= i < cells.len() && cells[i].row == height - 1 ==> #[trigger] cells[i].walls@[BOTTOM as int]
}

/// Grids whose cells have the same places and walls agree alike.
pub proof fn lemma_agree_same_walls(a: Seq<Cell>, b: Seq<Cell>, width: int, height: int)
    requires
        a.len() == b.len(),
        a.len() == grid_len(width, height),
        forall|i: int| 0 <= i < a.len() ==> cell_placed(a, width, height, i),
        forall|i: int| 0 <= i < a.len() ==> {
            &&& (#[trigger] b[i]).walls@ == a[i].walls@
            &&& b[i].row == a[i].row
            &&& b[i].column == a[i].column
        },
        walls_agree(a, width, height),
    ensures
        walls_agree(b, width, height),
{
    assert forall|i: int| 0 <= i < b.len() && b[i].column + 1 < width implies
        (#[trigger] b[i].walls@[RIGHT as int]) == b[i + 1].walls@[LEFT as int] by {
        assert(cell_placed(a, width, height, i));
        lemma_index_in_grid(width, height, a[i].row as int, a[i].column + 1);
        assert(b[i + 1].walls@ == a[i + 1].walls@);
    }
    assert forall|i: int| 0 <= i < b.len() && b[i].row + 1 < height implies
        (#[trigger] b[i].walls@[BOTTOM as int]) == b[i + width].walls@[TOP as int] by {
        assert(cell_placed(a, width, height, i));
        lemma_index_in_grid(width, height, a[i].row + 1, a[i].column as int);
        assert((a[i].row + 1) * width == a[i].row * width + width) by (nonlinear_arith);
        assert(b[i + width].walls@ == a[i + width].walls@);
    }
    assert forall|i: int| 0 <= i < b.len() && b[i].column == 0 implies #[trigger] b[i].walls@[LEFT as int] by {
        assert(b[i].walls@ == a[i].walls@);
    }
    assert forall|i: int| 0 <= i < b.len() && b[i].column == width - 1 implies #[trigger] b[i].walls@[RIGHT as int] by {
        assert(b[i].walls@ == a[i].walls@);
    }
    assert forall|i: int| 0 <= i < b.len() && b[i].row == 0 implies #[trigger] b[i].walls@[TOP as int] by {
        assert(b[i].walls@ == a[i].walls@);
    }
    assert forall|i: int| 0 <= i < b.len() && b[i].row == height - 1 implies #[trigger] b[i].walls@[BOTTOM as int] by {
        assert(b[i].walls@ == a[i].walls@);
    }
}

/// Knocking down the wall between cell `p` and the cell `q` right of it
/// (`horizontal`) or below it keeps the walls of a grid in agreement.
pub proof fn lemma_knock_keeps_agree(a: Seq<Cell>, b: Seq<Cell>, width: int, height: int, p: int, q: int, horizontal: bool)
    requires
        a.len() == b.len(),
        a.len() == grid_len(width, height),
        forall|i: int| 0 <= i < a.len() ==> cell_placed(a, width, height, i),
        0 <= p < a.len(),
        0 <= q < a.len(),
        horizontal ==> q == p + 1 && a[p].column + 1 < width,
        !horizontal ==> q == p + width && a[p].row + 1 < height,
        forall|i: int| 0 <= i < a.len() && i != p && i != q ==> #[trigger] b[i] == a[i],
        b[p].row == a[p].row && b[p].column == a[p].column,
        b[q].row == a[q].row && b[q].column == a[q].column,
        b[p].walls@ == a[p].walls@.update(if horizontal { RIGHT as int } else { BOTTOM as int }, false),
        b[q].walls@ == a[q].walls@.update(if horizontal { LEFT as int } else { TOP as int }, false),
        walls_agree(a, width, height),
    ensures
        walls_agree(b, width, height),
{
    assert(cell_placed(a, width, height, p));
    assert(cell_placed(a, width, height, q));
    if horizontal {
        assert(a[q].row == a[p].row && a[q].column == a[p].column + 1) by {
            lemma_idx_injective(width, a[p].column + 1, a[p].row as int, a[q].column as int, a[q].row as int);
        }
    } else {
        assert(a[q].row == a[p].row + 1 && a[q].column == a[p].column) by {
            assert((a[p].row + 1) * width == a[p].row * width + width) by (nonlinear_arith);
            lemma_idx_injective(width, a[p].column as int, a[p].row + 1, a[q].column as int, a[q].row as int);
        }
    }
    assert forall|i: int| 0 <= i < b.len() && b[i].column + 1 < width implies
        (#[trigger] b[i].walls@[RIGHT as int]) == b[i + 1].walls@[LEFT as int] by {
        assert(cell_placed(a, width, height, i));
        assert(b[i].column == a[i].column);
        assert(i + 1 < a.len()) by {
            lemma_index_in_grid(width, height, a[i].row as int, a[i].column + 1);
        }
        assert(cell_placed(a, width, height, i + 1));
        if !horizontal && i + 1 == q {
            lemma_idx_injective(width, a[i + 1].column as int, a[i + 1].row as int, a[i].column + 1, a[i].row as int);
        }
        if !horizontal && i == q {
            assert(b[i + 1] == a[i + 1]);
        }
    }
    assert forall|i: int| 0 <= i < b.len() && b[i].row + 1 < height implies
        (#[trigger] b[i].walls@[BOTTOM as int]) == b[i + width].walls@[TOP as int] by {
        assert(cell_placed(a, width, height, i));
        assert(b[i].row == a[i].row);
        assert(i + width < a.len()) by {
            lemma_index_in_grid(width, height, a[i].row + 1, a[i].column as int);
            assert((a[i].row + 1) * width == a[i].row * width + width) by (nonlinear_arith);
        }
        assert(cell_placed(a, width, height, i + width));
        if horizontal && i + width == q {
            assert((a[i].row + 1) * width == a[i].row * width + width) by (nonlinear_arith);
            lemma_idx_injective(width, a[i].column as int, a[i].row + 1, a[q].column as int, a[q].row as int);
        }
        if horizontal && i == q {
            assert((a[i].row + 1) * width == a[i].row * width + width) by (nonlinear_arith);
            assert((a[p].row + 1) * width == a[p].row * width + width) by (nonlinear_arith);
        }
    }
    assert forall|i: int| 0 <= i < b.len() && b[i].column == 0 implies #[trigger] b[i].walls@[LEFT as int] by {
        assert(cell_placed(a, width, height, i));
    }
    assert forall|i: int| 0 <= i < b.len() && b[i].column == width - 1 implies #[trigger] b[i].walls@[RIGHT as int] by {
        assert(cell_placed(a, width, height, i));
    }
    assert forall|i: int| 0 <= i < b.len() && b[i].row == 0 implies #[trigger] b[i].walls@[TOP as int] by {
        assert(cell_placed(a, width, height, i));
    }
    assert forall|i: int| 0 <= i < b.len() && b[i].row == height - 1 implies #[trigger] b[i].walls@[BOTTOM as int] by {
        assert(cell_placed(a, width, height, i));
    }
}

/// Cell `v` lies on the way the walk came.
pub open spec fn on_path(path: Seq<usize>, v: int) -> bool {
    exists|k: int| 0 <= k < path.len() && path[k] as int == v
}

/// `snap` is the grid `cells` as it was earlier on: the same cells in the
/// same places, with no wall knocked down that still stands in `cells`.
pub open spec fn earlier_state(snap: Seq<Cell>, cells: Seq<Cell>) -> bool {
    &&& snap.len() == cells.len()
    &&& forall|i: int| 0 <= i < cells.len() ==> {
        &&& (#[trigger] snap[i]).row == cells[i].row
        &&& snap[i].column == cells[i].column
        &&& forall|d: int| 0 <= d < 4 && !snap[i].walls@[d] ==> !#[trigger] cells[i].walls@[d]
    }
}

/// `g` is a finished maze on a `width` by `height` grid: its cells in
/// place, every one visited, its walls in agreement.
pub open spec fn finished_maze(g: Seq<Cell>, width: int, height: int) -> bool {
    &&& g.len() == grid_len(width, height)
    &&& forall|i: int| 0 <= i < g.len() ==> cell_placed(g, width, height, i)
    &&& forall|i: int| 0 <= i < g.len() ==> (#[trigger] g[i]).visited
    &&& walls_agree(g, width, height)
}

/// `tiles` show maze `g` as it was at some earlier point, drawn on a map
/// `map_width` cells wide.
pub open spec fn shows_earlier(tiles: Seq<TileType>, g: Seq<Cell>, map_width: int) -> bool {
    exists|snap: Seq<Cell>| earlier_state(snap, g) && #[trigger] maze_tiles(snap, map_width, tiles.len() as int) == tiles
}

/// In a grid whose first cell has been visited and where every visited
/// cell's neighbours have been visited too, every cell has been visited.
pub proof fn lemma_all_visited(cells: Seq<Cell>, width: int, height: int)
    requires
        0 < width,
        0 < height,
        cells.len() == width * height,
        forall|i: int| 0 <= i < cells.len() ==> cell_placed(cells, width, height, i),
        cells[0].visited,
        forall|v: int| 0 <= v < cells.len() && #[trigger] cells[v].visited ==> neighbours_visited(cells, width, height, v),
    ensures
        forall|v: int| 0 <= v < cells.len() ==> #[trigger] cells[v].visited,
{
    assert forall|v: int| 0 <= v < cells.len() implies #[trigger] cells[v].visited by {
        assert(cell_placed(cells, width, height, v));
        lemma_cell_reached(cells, width, height, cells[v].row as int, cells[v].column as int);
    }
}

/// Under the hypotheses of `lemma_all_visited`, the cell at `(row, col)` has been visited.
proof fn lemma_cell_reached(cells: Seq<Cell>, width: int, height: int, row: int, col: int)
    requires
        0 < width,
        0 < height,
        cells.len() == width * height,
        forall|i: int| 0 <= i < cells.len() ==> cell_placed(cells, width, height, i),
        cells[0].visited,
        forall|v: int| 0 <= v < cells.len() && #[trigger] cells[v].visited ==> neighbours_visited(cells, width, height, v),
        0 <= row < height,
        0 <= col < width,
    ensures
        cells[col + row * width].visited,
    decreases row, col,
{
    if col > 0 {
        lemma_cell_reached(cells, width, height, row, col - 1);
        let v = col - 1 + row * width;
        lemma_index_in_grid(width, height, row, col - 1);
        assert(cell_placed(cells, width, height, v));
        lemma_idx_injective(width, col - 1, row, cells[v].column as int, cells[v].row as int);
        assert(neighbours_visited(cells, width, height, v));
        assert(spec_calculate_index(width, height, row, col) == col + row * width);
        assert(visited_or_off(cells, spec_calculate_index(width, height, cells[v].row as int, cells[v].column + 1)));
    } else if row > 0 {
        lemma_cell_reached(cells, width, height, row - 1, 0);
        let v = (row - 1) * width;
        lemma_index_in_grid(width, height, row - 1, 0);
        assert(cell_placed(cells, width, height, v));
        lemma_idx_injective(width, 0, row - 1, cells[v].column as int, cells[v].row as int);
        assert(neighbours_visited(cells, width, height, v));
        assert((row - 1) * width + width == row * width) by (nonlinear_arith);
        assert(spec_calculate_index(width, height, row, 0) == 0 + row * width);
        assert(visited_or_off(cells, spec_calculate_index(width, height, cells[v].row + 1, cells[v].column as int)));
    } else {
        assert(row == 0 && col == 0);
        assert(row * width == 0) by (nonlinear_arith) requires row == 0;
    }
}

/// `x` is one of the first `k` candidates, on the grid and not visited.
pub open spec fn unvisited_candidate(cells: Seq<Cell>, cand: Seq<int>, k: int, x: int) -> bool {
    exists|d: int| 0 <= d < k && #[trigger] cand[d] == x && x != -1 && !cells[x].visited
}

/// What the walk's choice of neighbours is made of: each chosen index is
/// one of the candidates, on the grid and not visited; no choice at all
/// means every candidate is off the grid or visited.
pub proof fn lemma_unvisited_among(cells: Seq<Cell>, cand: Seq<int>, k: nat)
    requires
        k <= cand.len(),
        forall|d: int| 0 <= d < cand.len() ==> -1 <= #[trigger] cand[d] <= usize::MAX,
    ensures
        forall|m: int| 0 <= m < unvisited_among(cells, cand, k).len()
            ==> unvisited_candidate(cells, cand, k as int, #[trigger] unvisited_among(cells, cand, k)[m] as int),
        unvisited_among(cells, cand, k).len() == 0 ==> forall|d: int| 0 <= d < k ==> visited_or_off(cells, #[trigger] cand[d]),
    decreases k,
{
    if k > 0 {
        lemma_unvisited_among(cells, cand, (k - 1) as nat);
        let p = unvisited_among(cells, cand, (k - 1) as nat);
        let r = unvisited_among(cells, cand, k);
        assert forall|m: int| 0 <= m < r.len() implies unvisited_candidate(cells, cand, k as int, #[trigger] r[m] as int) by {
            if m < p.len() {
                assert(r[m] == p[m]);
                assert(unvisited_candidate(cells, cand, k - 1, p[m] as int));
                let d = choose|d: int| 0 <= d < k - 1 && #[trigger] cand[d] == p[m] as int && p[m] as int != -1 && !cells[p[m] as int].visited;
                assert(cand[d] == r[m] as int);
            } else {
                let d = k - 1;
                assert(cand[d] == r[m] as int);
            }
        }
    }
}

impl Grid {
    /// The grid's dimensions are sane, every cell sits where its index
    /// says, and the generator stands on a cell of the grid.
    pub open spec fn wf(&self) -> bool {
        &&& self.width <= 0x4000
        &&& self.height <= 0x4000
        &&& grid_len(self.width as int, self.height as int) <= 0x1000_0000
        &&& self.cells@.len() == grid_len(self.width as int, self.height as int)
        &&& forall|i: int| 0 <= i < self.cells@.len() ==> cell_placed(self.cells@, self.width as int, self.height as int, i)
    }

    /// The neighbours of the current cell that the generator has not been to,
    /// above, right, below and left, in that order.
    pub open spec fn available(&self) -> Seq<usize> {
        let c = self.cells@[self.current as int];
        unvisited_among(self.cells@, neighbor_candidates(self.width as int, self.height as int, c.row as int, c.column as int), 4)
    }

    /// A `width` by `height` grid of closed, unvisited cells, row by row
    /// (no cells where either dimension is not positive), standing on cell 0.
    pub fn new(width: i32, height: i32) -> (r: Grid)
        requires
            width <= 0x4000,
            height <= 0x4000,
            grid_len(width as int, height as int) <= 0x1000_0000,
        ensures
            r.wf(),
            r.width == width,
            r.height == height,
            r.current == 0,
            r.backtrace@.len() == 0,
            walls_agree(r.cells@, width as int, height as int),
            forall|i: int| 0 <= i < r.cells@.len() ==> {
                &&& (#[trigger] r.cells@[i]).walls@ == seq![true, true, true, true]
                &&& !r.cells@[i].visited
            },
    {
        let mut grid = Grid { width, height, cells: Vec::new(), backtrace: Vec::new(), current: 0 };
        let mut row: i32 = 0;
        while row < height
            invariant
                grid.width == width,
                grid.height == height,
                grid.current == 0,
                grid.backtrace@.len() == 0,
                width <= 0x4000,
                height <= 0x4000,
                grid_len(width as int, height as int) <= 0x1000_0000,
                0 <= row,
                row <= height || row == 0,
                grid.cells@.len() == (if width > 0 { row * width } else { 0 }),
                forall|i: int| 0 <= i < grid.cells@.len() ==> cell_placed(grid.cells@, width as int, height as int, i),
                forall|i: int| 0 <= i < grid.cells@.len() ==> {
                    &&& (#[trigger] grid.cells@[i]).walls@ == seq![true, true, true, true]
                    &&& !grid.cells@[i].visited
                },
            decreases height - row,
        {
            let mut col: i32 = 0;
            proof {
                if width > 0 {
                    assert(row * width + width <= height * width) by (nonlinear_arith)
                        requires row < height, 0 < width;
                }
            }
            while col < width
                invariant
                    grid.width == width,
                    grid.height == height,
                    grid.current == 0,
                    grid.backtrace@.len() == 0,
                    width <= 0x4000,
                    height <= 0x4000,
                    grid_len(width as int, height as int) <= 0x1000_0000,
                    0 <= row < height,
                    0 <= col,
                    col <= width || width <= 0,
                    width > 0 ==> row * width + width <= height * width,
                    grid.cells@.len() == (if width > 0 { row * width + col } else { 0 }),
                    forall|i: int| 0 <= i < grid.cells@.len() ==> cell_placed(grid.cells@, width as int, height as int, i),
                    forall|i: int| 0 <= i < grid.cells@.len() ==> {
                        &&& (#[trigger] grid.cells@[i]).walls@ == seq![true, true, true, true]
                        &&& !grid.cells@[i].visited
                    },
                decreases width - col,
            {
                let ghost before = grid.cells@;
                grid.cells.push(Cell::new(row, col));
                proof {
                    assert forall|i: int| 0 <= i < grid.cells@.len() implies cell_placed(grid.cells@, width as int, height as int, i) by {
                        if i < before.len() {
                            assert(grid.cells@[i] == before[i]);
                            assert(cell_placed(before, width as int, height as int, i));
                        }
                    }
                }
                col = col + 1;
            }
            proof {
                if width > 0 {
                    assert((row + 1) * width == row * width + width) by (nonlinear_arith);
                }
            }
            row = row + 1;
        }
        proof {
            if width > 0 && height > 0 {
                assert(row == height);
                assert(row * width == width * height) by (nonlinear_arith) requires row == height;
            }
            if width > 0 && height <= 0 {
                assert(row == 0);
                assert(grid.cells@.len() == 0);
            }
            assert(grid.cells@.len() == grid_len(width as int, height as int));
            assert forall|i: int| 0 <= i < grid.cells@.len() && grid.cells@[i].column + 1 < width implies
                (#[trigger] grid.cells@[i].walls@[RIGHT as int]) == grid.cells@[i + 1].walls@[LEFT as int] by {
                assert(cell_placed(grid.cells@, width as int, height as int, i));
                lemma_index_in_grid(width as int, height as int, grid.cells@[i].row as int, grid.cells@[i].column + 1);
            }
            assert forall|i: int| 0 <= i < grid.cells@.len() && grid.cells@[i].row + 1 < height implies
                (#[trigger] grid.cells@[i].walls@[BOTTOM as int]) == grid.cells@[i + width].walls@[TOP as int] by {
                assert(cell_placed(grid.cells@, width as int, height as int, i));
                lemma_index_in_grid(width as int, height as int, grid.cells@[i].row + 1, grid.cells@[i].column as int);
                assert((grid.cells@[i].row + 1) * width == grid.cells@[i].row * width + width) by (nonlinear_arith);
            }
        }
        grid
    }

    /// The index of the cell at `(row, col)`, or -1 when that is off the grid.
    pub fn calculate_index(&self, row: i32, col: i32) -> (r: i32)
        requires
            self.wf(),
        ensures
            r == spec_calculate_index(self.width as int, self.height as int, row as int, col as int),
    {
        if row < 0 || col < 0 || col >= self.width || row >= self.height {
            -1
        } else {
            proof {
                assert(row * self.width + col < self.height * self.width) by (nonlinear_arith)
                    requires 0 <= row < self.height, 0 <= col < self.width;
            }
            col + row * self.width
        }
    }

    /// The neighbours of the current cell that have not been visited,
    /// above, right, below and left, in that order.
    pub fn get_available_neighbors(&self) -> (r: Vec<usize>)
        requires
            self.wf(),
            self.current < self.cells@.len(),
        ensures
            r@ == self.available(),
    {
        let mut neighbors: Vec<usize> = Vec::new();
        let current_row = self.cells[self.current].row;
        let current_col = self.cells[self.current].column;
        proof { assert(cell_placed(self.cells@, self.width as int, self.height as int, self.current as int)); }
        let neighbor_indices: Vec<i32> = vec![
            self.calculate_index(current_row - 1, current_col),
            self.calculate_index(current_row, current_col + 1),
            self.calculate_index(current_row + 1, current_col),
            self.calculate_index(current_row, current_col - 1),
        ];
        let ghost cand = neighbor_candidates(self.width as int, self.height as int, current_row as int, current_col as int);
        proof {
            let (w, h, r, c) = (self.width as int, self.height as int, current_row as int, current_col as int);
            lemma_index_in_grid(w, h, r - 1, c);
            lemma_index_in_grid(w, h, r, c + 1);
            lemma_index_in_grid(w, h, r + 1, c);
            lemma_index_in_grid(w, h, r, c - 1);
        }
        for k in 0..4
            invariant
                self.wf(),
                self.current < self.cells@.len(),
                cand == neighbor_candidates(self.width as int, self.height as int, current_row as int, current_col as int),
                current_row == self.cells@[self.current as int].row,
                current_col == self.cells@[self.current as int].column,
                neighbor_indices@.len() == 4,
                forall|j: int| 0 <= j < 4 ==> #[trigger] neighbor_indices@[j] as int == cand[j],
                forall|j: int| 0 <= j < 4 ==> cand[j] == -1 || 0 <= #[trigger] cand[j] < self.cells@.len(),
                neighbors@ == unvisited_among(self.cells@, cand, k as nat),
        {
            let i = neighbor_indices[k];
            assert(i as int == cand[k as int]);
            if i != -1 && !self.cells[i as usize].visited {
                neighbors.push(i as usize);
            }
        }
        neighbors
    }

    /// The cell the generator moves to next: none when every neighbour of
    /// the current cell has been visited, the only one when there is one,
    /// and one of them picked by a die roll otherwise.
    pub fn find_next_cell(&self, rng: &mut RandomNumberGenerator) -> (r: Option<usize>)
        requires
            self.wf(),
            self.current < self.cells@.len(),
        ensures
            r is None <==> self.available().len() == 0,
            self.available().len() == 1 ==> r == Some(self.available()[0]),
            r matches Some(n) ==> self.available().contains(n),
    {
        let neighbors = self.get_available_neighbors();
        let len = neighbors.len();
        proof { reveal_with_fuel(unvisited_among, 5); }
        if len == 0 {
            None
        } else if len == 1 {
            Some(neighbors[0])
        } else {
            let roll = roll_dice(rng, 1, len as i32);
            let pick = neighbors[(roll - 1) as usize];
            assert(self.available()[(roll - 1) as int] == pick);
            Some(pick)
        }
    }

    /// Carves the maze: a depth-first walk from cell 0 that knocks down the
    /// wall to a random unvisited neighbour and moves there, stepping back
    /// along its way when there is none, until it is back at the start with
    /// nowhere to go. Every fiftieth step draws the maze on the builder's
    /// map and records a snapshot. Every cell ends up visited.
    #[verifier::rlimit(40)]
    pub fn generate_maze(&mut self, generator: &mut MazeBuilder, rng: &mut RandomNumberGenerator)
        requires
            old(self).wf(),
            old(self).cells@.len() > 0,
            old(self).current == 0,
            old(self).backtrace@.len() == 0,
            forall|i: int| 0 <= i < old(self).cells@.len() ==> !(#[trigger] old(self).cells@[i]).visited,
            walls_agree(old(self).cells@, old(self).width as int, old(self).height as int),
            old(generator).map.wf(),
            2 * old(self).width + 2 <= old(generator).map.width,
            2 * old(self).height + 2 <= old(generator).map.height,
        ensures
            final(self).wf(),
            final(self).width == old(self).width,
            final(self).height == old(self).height,
            final(self).backtrace@.len() == 0,
            earlier_state(old(self).cells@, final(self).cells@),
            walls_agree(final(self).cells@, final(self).width as int, final(self).height as int),
            forall|i: int| 0 <= i < final(self).cells@.len() ==> (#[trigger] final(self).cells@[i]).visited,
            final(generator).map.wf(),
            only_tiles_changed(&old(generator).map, &final(generator).map),
            final(generator).starting_position == old(generator).starting_position,
            final(generator).noise_areas == old(generator).noise_areas,
            final(generator).map.tiles@ == old(generator).map.tiles@
                || shows_earlier(final(generator).map.tiles@, final(self).cells@, old(generator).map.width as int),
    {
        let ghost w = self.width as int;
        let ghost h = self.height as int;
        let ghost n = self.cells@.len() as int;
        let ghost m0 = generator.map;
        let ghost start = self.cells@;
        let ghost mut snap: Option<Seq<Cell>> = None;
        let ghost mut unv: Set<int> = vstd::set_lib::set_int_range(0, n).remove(0);
        proof {
            vstd::set_lib::lemma_int_range(0, n);
            assert(self.width > 0 && self.height > 0);
        }
        let mut i: usize = 0;
        loop
            invariant_except_break
                self.current < n,
                forall|j: int| unv.contains(j) <==> (0 <= j < n && !self.cells@[j].visited && j != self.current),
                self.cells@[0].visited || self.current == 0,
                forall|v: int| 0 <= v < n && #[trigger] self.cells@[v].visited && v != self.current && !on_path(self.backtrace@, v)
                    ==> neighbours_visited(self.cells@, w, h, v),
            invariant
                self.wf(),
                self.width == w,
                self.height == h,
                0 < w,
                0 < h,
                n == self.cells@.len(),
                n == w * h,
                earlier_state(start, self.cells@),
                walls_agree(self.cells@, w, h),
                forall|k: int| 0 <= k < self.backtrace@.len() ==> {
                    &&& (#[trigger] self.backtrace@[k]) < n
                    &&& self.cells@[self.backtrace@[k] as int].visited
                },
                unv.finite(),
                i + 2 * unv.len() + self.backtrace@.len() <= 2 * n,
                generator.map.wf(),
                only_tiles_changed(&m0, &generator.map),
                generator.starting_position == old(generator).starting_position,
                generator.noise_areas == old(generator).noise_areas,
                2 * w + 2 <= m0.width,
                2 * h + 2 <= m0.height,
                match snap {
                    None => generator.map.tiles@ == m0.tiles@,
                    Some(sn) => earlier_state(sn, self.cells@)
                        && generator.map.tiles@ == maze_tiles(sn, m0.width as int, m0.tiles@.len() as int),
                },
            ensures
                self.backtrace@.len() == 0,
                self.current < n,
                self.cells@[0].visited,
                forall|v: int| 0 <= v < n && #[trigger] self.cells@[v].visited ==> neighbours_visited(self.cells@, w, h, v),
            decreases 2 * unv.len() + self.backtrace@.len(),
        {
            let cur = self.current;
            let ghost old_path = self.backtrace@;
            let mut here = self.cells[cur];
            here.visited = true;
            let ghost unmarked = self.cells@;
            self.cells.set(cur, here);
            let ghost marked = self.cells@;
            proof {
                assert forall|k: int| 0 <= k < self.cells@.len() implies cell_placed(self.cells@, w, h, k) by {
                    assert(cell_placed(unmarked, w, h, k));
                }
                lemma_agree_same_walls(unmarked, self.cells@, w, h);
                let c = self.cells@[cur as int];
                assert(cell_placed(self.cells@, w, h, cur as int));
                lemma_index_in_grid(w, h, c.row - 1, c.column as int);
                lemma_index_in_grid(w, h, c.row as int, c.column + 1);
                lemma_index_in_grid(w, h, c.row + 1, c.column as int);
                lemma_index_in_grid(w, h, c.row as int, c.column - 1);
            }
            let next = self.find_next_cell(rng);
            proof { reveal_with_fuel(unvisited_among, 5); }
            match next {
                Some(next) => {
                    let ghost c = self.cells@[cur as int];
                    let ghost cand = neighbor_candidates(w, h, c.row as int, c.column as int);
                    proof {
                        lemma_unvisited_among(self.cells@, cand, 4);
                        let k = choose|k: int| 0 <= k < self.available().len() && self.available()[k] == next;
                        assert(self.available()[k] == next);
                        assert(unvisited_candidate(self.cells@, cand, 4, next as int));
                        let d = choose|d: int| 0 <= d < 4 && #[trigger] cand[d] == next as int && next as int != -1 && !self.cells@[next as int].visited;
                        assert(neighbor_candidates(w, h, c.row as int, c.column as int)[d] == next as int);
                        assert(next != cur);
                        assert(unv.contains(next as int));
                    }
                    self.backtrace.push(cur);
                    self.knock_down(cur, next);
                    self.current = next;
                    proof {
                        unv = unv.remove(next as int);
                        assert forall|v: int| 0 <= v < n && #[trigger] self.cells@[v].visited && v != self.current && !on_path(self.backtrace@, v)
                            implies neighbours_visited(self.cells@, w, h, v) by {
                            assert(self.backtrace@[self.backtrace@.len() - 1] as int == cur as int);
                            assert(v != cur);
                            assert(!on_path(old_path, v)) by {
                                if on_path(old_path, v) {
                                    let k = choose|k: int| 0 <= k < old_path.len() && old_path[k] as int == v;
                                    assert(self.backtrace@[k] as int == v);
                                }
                            }
                            assert(unmarked[v].visited);
                            lemma_more_visits(unmarked, self.cells@, w, h, v);
                        }
                    }
                }
                None => {
                    proof {
                        let c = self.cells@[cur as int];
                        let cand = neighbor_candidates(w, h, c.row as int, c.column as int);
                        lemma_unvisited_among(self.cells@, cand, 4);
                        assert(visited_or_off(self.cells@, cand[0]));
                        assert(visited_or_off(self.cells@, cand[1]));
                        assert(visited_or_off(self.cells@, cand[2]));
                        assert(visited_or_off(self.cells@, cand[3]));
                        assert(neighbours_visited(self.cells@, w, h, cur as int));
                        assert forall|v: int| 0 <= v < n && #[trigger] self.cells@[v].visited && v != cur && !on_path(old_path, v)
                            implies neighbours_visited(self.cells@, w, h, v) by {
                            assert(unmarked[v].visited);
                            lemma_more_visits(unmarked, self.cells@, w, h, v);
                        }
                    }
                    match self.backtrace.pop() {
                        Some(back) => {
                            self.current = back;
                            proof {
                                assert(old_path == self.backtrace@.push(back));
                                assert forall|v: int| 0 <= v < n && #[trigger] self.cells@[v].visited && v != self.current && !on_path(self.backtrace@, v)
                                    implies neighbours_visited(self.cells@, w, h, v) by {
                                    if v != cur {
                                        assert(!on_path(old_path, v)) by {
                                            if on_path(old_path, v) {
                                                let k = choose|k: int| 0 <= k < old_path.len() && old_path[k] as int == v;
                                                if k < self.backtrace@.len() {
                                                    assert(self.backtrace@[k] as int == v);
                                                }
                                            }
                                        }
                                    }
                                }
                                assert(self.cells@[back as int].visited) by {
                                    assert(old_path[old_path.len() - 1] == back);
                                }
                            }
                        }
                        None => {
                            proof {
                                assert forall|v: int| 0 <= v < n && #[trigger] self.cells@[v].visited
                                    implies neighbours_visited(self.cells@, w, h, v) by {
                                    if v != cur {
                                        assert(!on_path(old_path, v));
                                    }
                                }
                            }
                            break;
                        }
                    }
                }
            }
            if i % 50 == 0 {
                self.copy_to_map(&mut generator.map);
                generator.take_snapshot();
                proof { snap = Some(self.cells@); }
            }
            i = i + 1;
        }
        proof {
            lemma_all_visited(self.cells@, w, h);
            if let Some(sn) = snap {
                assert(maze_tiles(sn, m0.width as int, m0.tiles@.len() as int) == generator.map.tiles@);
                assert(shows_earlier(generator.map.tiles@, self.cells@, m0.width as int));
            }
        }
    }

    /// Knocks down the wall between cells `a` and `b`, neighbours on the grid.
    fn knock_down(&mut self, a: usize, b: usize)
        requires
            old(self).wf(),
            a < old(self).cells@.len(),
            b < old(self).cells@.len(),
            exists|d: int| 0 <= d < 4 && #[trigger] neighbor_candidates(old(self).width as int, old(self).height as int,
                old(self).cells@[a as int].row as int, old(self).cells@[a as int].column as int)[d] == b as int,
        ensures
            final(self).wf(),
            final(self).width == old(self).width,
            final(self).height == old(self).height,
            final(self).current == old(self).current,
            final(self).backtrace == old(self).backtrace,
            earlier_state(old(self).cells@, final(self).cells@),
            forall|j: int| 0 <= j < final(self).cells@.len() ==>
                (#[trigger] final(self).cells@[j]).visited == old(self).cells@[j].visited,
            walls_agree(old(self).cells@, old(self).width as int, old(self).height as int)
                ==> walls_agree(final(self).cells@, final(self).width as int, final(self).height as int),
            a != b,
            final(self).cells@.len() == old(self).cells@.len(),
            forall|j: int| 0 <= j < final(self).cells@.len() && j != a && j != b ==>
                #[trigger] final(self).cells@[j] == old(self).cells@[j],
            opened_toward(old(self).cells@[a as int], old(self).cells@[b as int], final(self).cells@[a as int]),
            opened_toward(old(self).cells@[b as int], old(self).cells@[a as int], final(self).cells@[b as int]),
    {
        let ghost (w, h) = (self.width as int, self.height as int);
        proof {
            assert(cell_placed(self.cells@, w, h, a as int));
            assert(cell_placed(self.cells@, w, h, b as int));
        }
        let lo = if a < b { a } else { b };
        let hi = if a < b { b } else { a };
        let mut c1 = self.cells[lo];
        let mut c2 = self.cells[hi];
        c1.remove_walls(&mut c2);
        let ghost before = self.cells@;
        self.cells.set(lo, c1);
        self.cells.set(hi, c2);
        proof {
            assert forall|k: int| 0 <= k < self.cells@.len() implies cell_placed(self.cells@, w, h, k) by {
                assert(cell_placed(before, w, h, k));
            }
            let (ra, ca) = (before[a as int].row as int, before[a as int].column as int);
            let (rb, cb) = (before[b as int].row as int, before[b as int].column as int);
            let d = choose|d: int| 0 <= d < 4 && #[trigger] neighbor_candidates(w, h, ra, ca)[d] == b as int;
            assert(neighbor_candidates(w, h, ra, ca)[d] == b as int);
            if a == b {
                if d == 0 {
                    lemma_idx_injective(w, ca, ra - 1, ca, ra);
                } else if d == 1 {
                    lemma_idx_injective(w, ca + 1, ra, ca, ra);
                } else if d == 2 {
                    lemma_idx_injective(w, ca, ra + 1, ca, ra);
                } else {
                    lemma_idx_injective(w, ca - 1, ra, ca, ra);
                }
            }
            if walls_agree(before, w, h) {
                if d == 0 {
                    lemma_idx_injective(w, ca, ra - 1, cb, rb);
                    assert((ra - 1) * w + w == ra * w) by (nonlinear_arith);
                    lemma_knock_keeps_agree(before, self.cells@, w, h, b as int, a as int, false);
                } else if d == 1 {
                    lemma_idx_injective(w, ca + 1, ra, cb, rb);
                    lemma_knock_keeps_agree(before, self.cells@, w, h, a as int, b as int, true);
                } else if d == 2 {
                    lemma_idx_injective(w, ca, ra + 1, cb, rb);
                    assert((ra + 1) * w == ra * w + w) by (nonlinear_arith);
                    lemma_knock_keeps_agree(before, self.cells@, w, h, a as int, b as int, false);
                } else {
                    lemma_idx_injective(w, ca - 1, ra, cb, rb);
                    lemma_knock_keeps_agree(before, self.cells@, w, h, b as int, a as int, true);
                }
            }
        }
    }

    /// Draws the maze on `map`: walls everywhere, then floor at the centre
    /// of each cell and through each wall that has been knocked down.
    pub fn copy_to_map(&self, map: &mut TileMap)
        requires
            self.wf(),
            old(map).wf(),
            2 * self.width + 2 <= old(map).width,
            2 * self.height + 2 <= old(map).height,
        ensures
            final(map).wf(),
            only_tiles_changed(old(map), final(map)),
            final(map).tiles@ == maze_tiles(self.cells@, old(map).width as int, old(map).tiles@.len() as int),
    {
        let ghost mw = map.width as int;
        let ghost m0 = *map;
        let n = map.tiles.len();
        for i in 0..n
            invariant
                map.wf(),
                only_tiles_changed(&m0, map),
                n == map.tiles@.len(),
                forall|j: int| 0 <= j < i ==> #[trigger] map.tiles@[j] == TileType::Wall,
        {
            map.set_tile(i, TileType::Wall);
        }
        let cn = self.cells.len();
        for c in 0..cn
            invariant
                self.wf(),
                cn == self.cells@.len(),
                map.wf(),
                only_tiles_changed(&m0, map),
                mw == map.width,
                2 * self.width + 2 <= map.width,
                2 * self.height + 2 <= map.height,
                n == map.tiles@.len(),
                forall|j: int| 0 <= j < n ==> #[trigger] map.tiles@[j]
                    == (if exists|i: int| 0 <= i < c && #[trigger] opens(mw, self.cells@[i], j) { TileType::Floor } else { TileType::Wall }),
        {
            let cell = self.cells[c];
            proof { assert(cell_placed(self.cells@, self.width as int, self.height as int, c as int)); }
            let ghost before = map.tiles@;
            open_cell(map, cell);
            proof {
                assert forall|j: int| 0 <= j < n implies #[trigger] map.tiles@[j]
                    == (if exists|i: int| 0 <= i < c + 1 && #[trigger] opens(mw, self.cells@[i], j) { TileType::Floor } else { TileType::Wall }) by {
                    if opens(mw, cell, j) {
                        assert(opens(mw, self.cells@[c as int], j));
                    } else {
                        if exists|i: int| 0 <= i < c + 1 && #[trigger] opens(mw, self.cells@[i], j) {
                            let i = choose|i: int| 0 <= i < c + 1 && #[trigger] opens(mw, self.cells@[i], j);
                            assert(i < c);
                        }
                    }
                }
            }
        }
        proof {
            assert(map.tiles@ =~= maze_tiles(self.cells@, mw, n as int));
        }
    }
}

} // verus!

verus! {

/// A builder that carves a maze into the map.
pub struct MazeBuilder {
    pub map: TileMap,
    pub starting_position: Position,
    pub history: Vec<TileMap>,
    /// Groups of floor cells by the noise value of their cell, in the
    /// order the values were first met.
    pub noise_areas: Vec<(i32, Vec<usize>)>,
}

impl MazeBuilder {
    /// A builder over a fresh `width` by `height` map of walls.
    pub fn new(depth: i32, width: i32, height: i32) -> (r: MazeBuilder)
        requires
            0 <= width <= 0x4000,
            0 <= height <= 0x4000,
            width * height <= max_cells(),
        ensures
            r.map.wf(),
            r.map.depth == depth,
            r.map.width == width,
            r.map.height == height,
            r.starting_position == (Position { x: 0, y: 0 }),
            r.history@.len() == 0,
            r.noise_areas@.len() == 0,
    {
        MazeBuilder {
            map: TileMap::new(depth, width, height, String::new()),
            starting_position: Position { x: 0, y: 0 },
            history: Vec::new(),
            noise_areas: Vec::new(),
        }
    }

    /// Carves a maze into the map, on a grid of `width / 2 - 2` by
    /// `height / 2 - 2` cells, and sets the start at `(2, 2)`, the centre of
    /// the first cell. The map shows the maze as it was at the last drawing
    /// (every fiftieth step of the walk), or is left alone when the walk was
    /// over before its first drawing. Finding what can be reached from the
    /// start, placing the stairs and grouping the cells into spawn regions
    /// follow from the distances and noise that the caller computes.
    pub fn build(&mut self, rng: &mut RandomNumberGenerator)
        requires
            old(self).map.wf(),
            6 <= old(self).map.width <= 0x4000,
            6 <= old(self).map.height <= 0x4000,
        ensures
            final(self).map.wf(),
            only_tiles_changed(&old(self).map, &final(self).map),
            final(self).starting_position == (Position { x: 2, y: 2 }),
            final(self).noise_areas == old(self).noise_areas,
            final(self).map.tiles@ == old(self).map.tiles@ || exists|g: Seq<Cell>| {
                &&& finished_maze(g, old(self).map.width / 2 - 2, old(self).map.height / 2 - 2)
                &&& #[trigger] shows_earlier(final(self).map.tiles@, g, old(self).map.width as int)
            },
    {
        proof {
            let (mw, mh) = (self.map.width as int, self.map.height as int);
            assert((mw / 2 - 2) * (mh / 2 - 2) <= 0x1000_0000) by (nonlinear_arith)
                requires 6 <= mw <= 0x4000, 6 <= mh <= 0x4000;
        }
        let mut maze = Grid::new((self.map.width / 2) - 2, (self.map.height / 2) - 2);
        proof {
            assert(maze.cells@.len() > 0) by {
                assert(maze.width * maze.height > 0) by (nonlinear_arith)
                    requires maze.width > 0, maze.height > 0;
            }
        }
        maze.generate_maze(self, rng);
        self.starting_position = Position { x: 2, y: 2 };
        proof {
            if self.map.tiles@ != old(self).map.tiles@ {
                assert(finished_maze(maze.cells@, maze.width as int, maze.height as int));
                assert(shows_earlier(self.map.tiles@, maze.cells@, self.map.width as int));
            }
        }
    }

    /// Records a copy of the map, fully revealed, in the history.
    pub fn take_snapshot(&mut self)
        ensures
            final(self).map == old(self).map,
            final(self).starting_position == old(self).starting_position,
            final(self).noise_areas == old(self).noise_areas,
            final(self).history@.len() == old(self).history@.len() + 1,
            final(self).history@.subrange(0, old(self).history@.len() as int) == old(self).history@,
    {
        let mut snapshot = self.map.duplicate();
        let n = snapshot.revealed_tiles.len();
        for i in 0..n
            invariant
                n == snapshot.revealed_tiles.len(),
        {
            snapshot.revealed_tiles.set(i, true);
        }
        self.history.push(snapshot);
    }
}

} // verus!
