use vstd::prelude::*;
use crate::map::{TileMap, only_tiles_changed, tiles_set_where, lemma_cell_index, lemma_index_cell};
use crate::rect::{Rect, half_toward_zero};
use crate::tile::TileType;
use crate::components::Position;

verus! {

/// `lo` and `hi` in increasing order.
pub open spec fn spec_min(a: int, b: int) -> int {
    if a <= b { a } else { b }
}

pub open spec fn spec_max(a: int, b: int) -> int {
    if a >= b { a } else { b }
}

/// Index `i` is the cell `(x, y)` of a horizontal run at row `y` with `x`
/// between `x1` and `x2`, and lies strictly after the first cell and inside
/// the map's cell count. (A run that passes the right edge goes on into the
/// next row, as indices do.)
pub open spec fn in_horizontal_tunnel(map: &TileMap, x1: int, x2: int, y: int, i: int) -> bool {
    &&& 0 < i < map.width * map.height
    &&& spec_min(x1, x2) <= i - y * map.width <= spec_max(x1, x2)
}

/// Turns into floor the cells from `x1` to `x2` on row `y`.
pub fn apply_horizontal_tunnel(map: &mut TileMap, x1: i32, x2: i32, y: i32)
    requires
        old(map).wf(),
        0 <= x1,
        0 <= x2,
        0 <= y,
        y * old(map).width + spec_max(x1 as int, x2 as int) <= usize::MAX,
    ensures
        final(map).wf(),
        only_tiles_changed(old(map), final(map)),
        tiles_set_where(old(map).tiles@, final(map).tiles@,
            |i: int| in_horizontal_tunnel(old(map), x1 as int, x2 as int, y as int, i), TileType::Floor),
{
    let lo = if x1 <= x2 { x1 } else { x2 };
    let hi = if x1 <= x2 { x2 } else { x1 };
    let n = map.width as usize * map.height as usize;
    let ghost m0 = *old(map);
    let mut x: i64 = lo as i64;
    while x <= hi as i64
        invariant
            map.wf(),
            only_tiles_changed(&m0, map),
            m0.wf(),
            n == m0.width * m0.height,
            lo == spec_min(x1 as int, x2 as int),
            hi == spec_max(x1 as int, x2 as int),
            0 <= lo <= x <= hi + 1,
            0 <= y,
            y * m0.width + hi <= usize::MAX,
            tiles_set_where(m0.tiles@, map.tiles@,
                |i: int| in_horizontal_tunnel(&m0, x1 as int, x2 as int, y as int, i) && i - y * m0.width < x, TileType::Floor),
        decreases hi + 1 - x,
    {
        let idx = map.raw_idx(x as i32, y);
        let ghost before = map.tiles@;
        if idx > 0 && idx < n {
            map.set_tile(idx, TileType::Floor);
        }
        x = x + 1;
        proof {
            assert forall|i: int| 0 <= i < map.tiles@.len() implies #[trigger] map.tiles@[i] == (if (in_horizontal_tunnel(&m0, x1 as int, x2 as int, y as int, i) && i - y * m0.width < x) { TileType::Floor } else { m0.tiles@[i] }) by {
                if i == idx {
                } else {
                    assert(map.tiles@[i] == before[i]);
                }
            }
        }
    }
    proof {
        assert forall|i: int| 0 <= i < map.tiles@.len() implies #[trigger] map.tiles@[i] == (if in_horizontal_tunnel(&m0, x1 as int, x2 as int, y as int, i) { TileType::Floor } else { m0.tiles@[i] }) by {
            assert(in_horizontal_tunnel(&m0, x1 as int, x2 as int, y as int, i) ==> i - y * m0.width < x);
        }
    }
}

/// Index `i` is a cell `(x, y)` with `y` between `y1` and `y2`, lying after
/// the first cell and inside the map's cell count.
pub open spec fn in_vertical_tunnel(map: &TileMap, y1: int, y2: int, x: int, i: int) -> bool {
    &&& 0 < i < map.width * map.height
    &&& (i - x) % (map.width as int) == 0
    &&& spec_min(y1, y2) <= (i - x) / (map.width as int) <= spec_max(y1, y2)
}

/// Turns into floor the cells from `y1` to `y2` in column `x`.
pub fn apply_vertical_tunnel(map: &mut TileMap, y1: i32, y2: i32, x: i32)
    requires
        old(map).wf(),
        0 <= y1,
        0 <= y2,
        0 <= x,
        spec_max(y1 as int, y2 as int) * old(map).width + x <= usize::MAX,
    ensures
        final(map).wf(),
        only_tiles_changed(old(map), final(map)),
        tiles_set_where(old(map).tiles@, final(map).tiles@,
            |i: int| in_vertical_tunnel(old(map), y1 as int, y2 as int, x as int, i), TileType::Floor),
{
    let lo = if y1 <= y2 { y1 } else { y2 };
    let hi = if y1 <= y2 { y2 } else { y1 };
    let n = map.width as usize * map.height as usize;
    let ghost m0 = *old(map);
    let ghost w = m0.width as int;
    let mut y: i64 = lo as i64;
    while y <= hi as i64
        invariant
            map.wf(),
            only_tiles_changed(&m0, map),
            m0.wf(),
            w == m0.width,
            n == m0.width * m0.height,
            lo == spec_min(y1 as int, y2 as int),
            hi == spec_max(y1 as int, y2 as int),
            0 <= lo <= y <= hi + 1,
            0 <= x,
            hi * w + x <= usize::MAX,
            tiles_set_where(m0.tiles@, map.tiles@,
                |i: int| in_vertical_tunnel(&m0, y1 as int, y2 as int, x as int, i) && (i - x) / w < y, TileType::Floor),
        decreases hi + 1 - y,
    {
        proof { vstd::arithmetic::mul::lemma_mul_inequality(y as int, hi as int, w); }
        let idx = map.raw_idx(x, y as i32);
        let ghost before = map.tiles@;
        if idx > 0 && idx < n {
            proof {
                assert(w > 0) by {
                    if w == 0 { assert(w * m0.height == 0) by (nonlinear_arith) requires w == 0; }
                }
                vstd::arithmetic::div_mod::lemma_fundamental_div_mod_converse(idx - x, w, y as int, 0);
            }
            map.set_tile(idx, TileType::Floor);
        }
        proof {
            assert forall|i: int| 0 <= i < map.tiles@.len() implies #[trigger] map.tiles@[i] == (if (in_vertical_tunnel(&m0, y1 as int, y2 as int, x as int, i) && (i - x) / w < y + 1) { TileType::Floor } else { m0.tiles@[i] }) by {
                if i == idx && idx > 0 && idx < n {
                } else {
                    assert(map.tiles@[i] == before[i]);
                    if in_vertical_tunnel(&m0, y1 as int, y2 as int, x as int, i) && (i - x) / w == y {
                        if w == 0 { assert(w * m0.height == 0) by (nonlinear_arith) requires w == 0; }
                        vstd::arithmetic::div_mod::lemma_fundamental_div_mod(i - x, w);
                        vstd::arithmetic::mul::lemma_mul_is_commutative(w, y as int);
                        assert(i == y * w + x);
                    }
                }
            }
        }
        y = y + 1;
    }
    proof {
        assert forall|i: int| 0 <= i < map.tiles@.len() implies #[trigger] map.tiles@[i] == (if in_vertical_tunnel(&m0, y1 as int, y2 as int, x as int, i) { TileType::Floor } else { m0.tiles@[i] }) by {
            assert(in_vertical_tunnel(&m0, y1 as int, y2 as int, x as int, i) ==> (i - x) / w < y);
        }
    }
}

/// `v` lies on the way from `a` (left out) to `b` (included).
pub open spec fn passed(a: int, b: int, v: int) -> bool {
    (a < v <= b) || (b <= v < a)
}

/// Cell `(x, y)` is one of those a corridor from `(x1, y1)` to `(x2, y2)`
/// digs: first along row `y1` to column `x2`, then along column `x2` to row `y2`.
pub open spec fn on_corridor(x1: int, y1: int, x2: int, y2: int, x: int, y: int) -> bool {
    (y == y1 && passed(x1, x2, x)) || (x == x2 && passed(y1, y2, y))
}

/// Index `i` is a cell of the corridor.
pub open spec fn in_corridor(map: &TileMap, x1: int, y1: int, x2: int, y2: int, i: int) -> bool {
    &&& 0 <= i < map.width * map.height
    &&& on_corridor(x1, y1, x2, y2, i % (map.width as int), i / (map.width as int))
}

/// Digs a corridor from `(x1, y1)` to `(x2, y2)`, first horizontally, then
/// vertically; the starting cell itself is left as it was.
pub fn draw_corridor(map: &mut TileMap, x1: i32, y1: i32, x2: i32, y2: i32)
    requires
        old(map).wf(),
        old(map).in_bounds(x1 as int, y1 as int),
        old(map).in_bounds(x2 as int, y2 as int),
    ensures
        final(map).wf(),
        only_tiles_changed(old(map), final(map)),
        tiles_set_where(old(map).tiles@, final(map).tiles@,
            |i: int| in_corridor(old(map), x1 as int, y1 as int, x2 as int, y2 as int, i), TileType::Floor),
{
    let ghost m0 = *old(map);
    let ghost w = m0.width as int;
    let mut x = x1;
    let mut y = y1;
    while x != x2 || y != y2
        invariant
            map.wf(),
            m0.wf(),
            w == m0.width,
            only_tiles_changed(&m0, map),
            m0.in_bounds(x1 as int, y1 as int),
            m0.in_bounds(x2 as int, y2 as int),
            (y == y1 && (passed(x1 as int, x2 as int, x as int) || x == x1)) || (x == x2 && (passed(y1 as int, y2 as int, y as int) || y == y1)),
            tiles_set_where(m0.tiles@, map.tiles@,
                |i: int| in_corridor(&m0, x1 as int, y1 as int, x2 as int, y2 as int, i) && corridor_done(x1 as int, y1 as int, x2 as int, y2 as int, x as int, y as int, i % w, i / w), TileType::Floor),
        decreases (if x <= x2 { x2 - x } else { x - x2 }) + (if y <= y2 { y2 - y } else { y - y2 }),
    {
        if x < x2 {
            x += 1;
        } else if x > x2 {
            x -= 1;
        } else if y < y2 {
            y += 1;
        } else if y > y2 {
            y -= 1;
        }
        proof { lemma_cell_index(w, m0.height as int, x as int, y as int); }
        let idx = map.xy_idx(x, y);
        let ghost before = map.tiles@;
        map.set_tile(idx, TileType::Floor);
        proof {
            vstd::arithmetic::div_mod::lemma_fundamental_div_mod_converse(idx as int, w, y as int, x as int);
            assert forall|i: int| 0 <= i < map.tiles@.len() implies #[trigger] map.tiles@[i] == (if (in_corridor(&m0, x1 as int, y1 as int, x2 as int, y2 as int, i) && corridor_done(x1 as int, y1 as int, x2 as int, y2 as int, x as int, y as int, i % w, i / w)) { TileType::Floor } else { m0.tiles@[i] }) by {
                lemma_index_cell(w, m0.height as int, i);
                if i != idx {
                    assert(map.tiles@[i] == before[i]);
                    if i % w == x && i / w == y {
                        vstd::arithmetic::mul::lemma_mul_is_commutative(w, y as int);
                        assert(i == y * w + x);
                    }
                }
            }
        }
    }
    proof {
        assert forall|i: int| 0 <= i < map.tiles@.len() implies #[trigger] map.tiles@[i] == (if in_corridor(&m0, x1 as int, y1 as int, x2 as int, y2 as int, i) { TileType::Floor } else { m0.tiles@[i] }) by {
            lemma_index_cell(w, m0.height as int, i);
        }
    }
}

/// While digging, with the digger now on `(x, y)`: corridor cell `(cx, cy)`
/// has already been dug.
pub open spec fn corridor_done(x1: int, y1: int, x2: int, y2: int, x: int, y: int, cx: int, cy: int) -> bool {
    if y == y1 && x != x2 {
        cy == y1 && (passed(x1, x, cx) )
    } else {
        (cy == y1 && passed(x1, x2, cx)) || (cx == x2 && (passed(y1, y, cy)))
    }
}

/// Index `i` is a cell `(bx, by)` of the map with `xl <= bx < xh` and
/// `yl <= by < yh`, inside the clip window `cxl <= bx < cxh`, `cyl <= by < cyh`.
pub open spec fn in_fill(map: &TileMap, xl: int, xh: int, yl: int, yh: int, cxl: int, cxh: int, cyl: int, cyh: int, i: int) -> bool {
    let w = map.width as int;
    let bx = i % w;
    let by = i / w;
    &&& 0 <= i < w * map.height
    &&& xl <= bx < xh
    &&& yl <= by < yh
    &&& cxl <= bx < cxh
    &&& cyl <= by < cyh
}

/// Turns into floor the cells of a rectangle that lie in a clip window
/// inside the map.
fn fill_clipped(map: &mut TileMap, xl: i32, xh: i32, yl: i32, yh: i32, cxl: i32, cxh: i32, cyl: i32, cyh: i32)
    requires
        old(map).wf(),
        0 <= cxl,
        cxh <= old(map).width,
        0 <= cyl,
        cyh <= old(map).height,
    ensures
        final(map).wf(),
        only_tiles_changed(old(map), final(map)),
        tiles_set_where(old(map).tiles@, final(map).tiles@,
            |i: int| in_fill(old(map), xl as int, xh as int, yl as int, yh as int, cxl as int, cxh as int, cyl as int, cyh as int, i), TileType::Floor),
{
    let ghost m0 = *old(map);
    let ghost w = m0.width as int;
    let mut by = yl;
    while by < yh
        invariant
            map.wf(),
            m0.wf(),
            w == m0.width,
            only_tiles_changed(&m0, map),
                            0 <= cxl,
            cxh <= m0.width,
            0 <= cyl,
            cyh <= m0.height,
            yl <= by <= yh || (by == yl && yl > yh),
            tiles_set_where(m0.tiles@, map.tiles@,
                |i: int| in_fill(&m0, xl as int, xh as int, yl as int, yh as int, cxl as int, cxh as int, cyl as int, cyh as int, i) && i / w < by, TileType::Floor),
        decreases yh - by,
    {
        let mut bx = xl;
        while bx < xh
            invariant
                map.wf(),
                m0.wf(),
                w == m0.width,
                only_tiles_changed(&m0, map),
                                                0 <= cxl,
                cxh <= m0.width,
                0 <= cyl,
                cyh <= m0.height,
                yl <= by < yh,
                xl <= bx <= xh || (bx == xl && xl > xh),
                tiles_set_where(m0.tiles@, map.tiles@,
                    |i: int| in_fill(&m0, xl as int, xh as int, yl as int, yh as int, cxl as int, cxh as int, cyl as int, cyh as int, i)
                        && (i / w < by || (i / w == by && i % w < bx)), TileType::Floor),
            decreases xh - bx,
        {
            let ghost before = map.tiles@;
            if cxl <= bx && bx < cxh && cyl <= by && by < cyh {
                proof { lemma_cell_index(w, m0.height as int, bx as int, by as int); }
                let idx = map.xy_idx(bx, by);
                map.set_tile(idx, TileType::Floor);
                proof {
                    vstd::arithmetic::div_mod::lemma_fundamental_div_mod_converse(idx as int, w, by as int, bx as int);
                }
            }
            proof {
                assert forall|i: int| 0 <= i < map.tiles@.len() implies #[trigger] map.tiles@[i] == (if (in_fill(&m0, xl as int, xh as int, yl as int, yh as int, cxl as int, cxh as int, cyl as int, cyh as int, i)
                        && (i / w < by || (i / w == by && i % w < bx + 1))) { TileType::Floor } else { m0.tiles@[i] }) by {
                    lemma_index_cell(w, m0.height as int, i);
                    if cxl <= bx && bx < cxh && cyl <= by && by < cyh && i == by * w + bx {
                    } else {
                        assert(map.tiles@[i] == before[i]);
                        if i % w == bx && i / w == by {
                            assert(i == by * w + bx);
                        }
                    }
                }
            }
            bx = bx + 1;
        }
        by = by + 1;
    }
    proof {
        assert forall|i: int| 0 <= i < map.tiles@.len() implies #[trigger] map.tiles@[i] == (if in_fill(&m0, xl as int, xh as int, yl as int, yh as int, cxl as int, cxh as int, cyl as int, cyh as int, i) { TileType::Floor } else { m0.tiles@[i] }) by {
            lemma_index_cell(w, m0.height as int, i);
        }
    }
}

/// The cells a brush of the given size paints when centred on `(cx, cy)`:
/// just that cell for a size of 1; otherwise the square of that side whose
/// top-left corner is half a size up and left of the centre, where it lies
/// at least two cells inside the map's edges.
pub open spec fn brush_covers(map: &TileMap, brush: int, cx: int, cy: int, i: int) -> bool {
    if brush == 1 {
        i == map.idx(cx, cy)
    } else {
        let half = half_toward_zero(brush);
        in_fill(map, cx - half, cx - half + brush, cy - half, cy - half + brush, 2, map.width - 1, 2, map.height - 1, i)
    }
}

/// A brush stroke centred on `(x, y)` that the painting functions accept.
/// For a brush of size 1 that is the cell `(x, y)`, which must lie on the
/// map; for any other size, the square's corners must fit in an `i32`.
pub open spec fn brush_ok(map: &TileMap, brush: int, x: int, y: int) -> bool {
    let half = half_toward_zero(brush);
    &&& i32::MIN <= brush <= i32::MAX
    &&& brush == 1 ==> map.in_bounds(x, y)
    &&& brush != 1 ==> {
        &&& i32::MIN <= x - half <= i32::MAX
        &&& i32::MIN <= x - half + brush <= i32::MAX
        &&& i32::MIN <= y - half <= i32::MAX
        &&& i32::MIN <= y - half + brush <= i32::MAX
    }
}

/// Paints floor with a brush of the given size centred on `(x, y)`.
pub fn apply_paint(map: &mut TileMap, brush_size: i32, x: i32, y: i32)
    requires
        old(map).wf(),
        brush_ok(old(map), brush_size as int, x as int, y as int),
    ensures
        final(map).wf(),
        only_tiles_changed(old(map), final(map)),
        tiles_set_where(old(map).tiles@, final(map).tiles@,
            |i: int| brush_covers(old(map), brush_size as int, x as int, y as int, i), TileType::Floor),
{
    let ghost m0 = *old(map);
    if brush_size == 1 {
        proof { lemma_cell_index(m0.width as int, m0.height as int, x as int, y as int); }
        let idx = map.xy_idx(x, y);
        map.set_tile(idx, TileType::Floor);
    } else {
        let half_brush_size = brush_size / 2;
        let bx = x - half_brush_size;
        let by = y - half_brush_size;
        let cxh = if map.width >= 1 { map.width - 1 } else { 0 };
        let cyh = if map.height >= 1 { map.height - 1 } else { 0 };
        fill_clipped(map, bx, bx + brush_size, by, by + brush_size, 2, cxh, 2, cyh);
        proof {
            assert forall|i: int| 0 <= i < map.tiles@.len() implies #[trigger] map.tiles@[i] == (if brush_covers(&m0, brush_size as int, x as int, y as int, i) { TileType::Floor } else { m0.tiles@[i] }) by {
                if m0.width == 0 || m0.height == 0 {
                    assert(m0.width * m0.height == 0) by (nonlinear_arith) requires m0.width == 0 || m0.height == 0;
                }
            }
        }
    }
}

/// Ways of mirroring a brush stroke around the centre of the map.
#[derive(Debug, Copy, Clone, PartialEq, Eq, Structural)]
pub enum Symmetry {
    NoSymmetry,
    Horizontal,
    Vertical,
    SemiBoth,
    Both,
}

/// The centres of the strokes a symmetric paint makes for a stroke at
/// `(x, y)`, in the order they are painted.
pub open spec fn paint_centers(map: &TileMap, mode: Symmetry, x: int, y: int) -> Seq<(int, int)> {
    let center_x = map.width / 2;
    let center_y = map.height / 2;
    let dist_x = if center_x - x >= 0 { center_x - x } else { x - center_x };
    let dist_y = if center_y - y >= 0 { center_y - y } else { y - center_y };
    match mode {
        Symmetry::NoSymmetry => seq![(x, y)],
        Symmetry::Horizontal => if dist_x == 0 {
            seq![(x, y)]
        } else {
            seq![(center_x + dist_x, y), (center_x - dist_x, y)]
        },
        Symmetry::Vertical => if dist_y == 0 {
            seq![(x, y)]
        } else {
            seq![(x, center_y + dist_y), (x, center_y - dist_y)]
        },
        Symmetry::SemiBoth => if dist_x == 0 && dist_y == 0 {
            seq![(x, y)]
        } else {
            seq![(center_x + dist_x, y), (center_x - dist_x, y), (x, center_y + dist_y), (x, center_y - dist_y)]
        },
        Symmetry::Both => if dist_x == 0 && dist_y == 0 {
            seq![(x, y)]
        } else {
            seq![
                (center_x + dist_x, center_y + dist_y),
                (center_x - dist_x, center_y - dist_y),
                (center_x - dist_x, center_y + dist_y),
                (center_x + dist_x, center_y - dist_y),
            ]
        },
    }
}

/// Executable form of [`paint_centers`].
pub fn symmetric_centers(map: &TileMap, mode: Symmetry, x: i32, y: i32) -> (r: Vec<(i32, i32)>)
    requires
        map.wf(),
        -0x10_0000 <= x <= 0x10_0000,
        -0x10_0000 <= y <= 0x10_0000,
        map.width + 0x10_0000 <= i32::MAX,
        map.height + 0x10_0000 <= i32::MAX,
    ensures
        r@.len() == paint_centers(map, mode, x as int, y as int).len(),
        forall|k: int| 0 <= k < r@.len() ==> (r@[k].0 as int, r@[k].1 as int) == #[trigger] paint_centers(map, mode, x as int, y as int)[k],
{
    let center_x = map.width / 2;
    let center_y = map.height / 2;
    let dist_x = if center_x - x >= 0 { center_x - x } else { x - center_x };
    let dist_y = if center_y - y >= 0 { center_y - y } else { y - center_y };
    let mut r: Vec<(i32, i32)> = Vec::new();
    match mode {
        Symmetry::NoSymmetry => {
            r.push((x, y));
        },
        Symmetry::Horizontal => {
            if dist_x == 0 {
                r.push((x, y));
            } else {
                r.push((center_x + dist_x, y));
                r.push((center_x - dist_x, y));
            }
        },
        Symmetry::Vertical => {
            if dist_y == 0 {
                r.push((x, y));
            } else {
                r.push((x, center_y + dist_y));
                r.push((x, center_y - dist_y));
            }
        },
        Symmetry::SemiBoth => {
            if dist_x == 0 && dist_y == 0 {
                r.push((x, y));
            } else {
                r.push((center_x + dist_x, y));
                r.push((center_x - dist_x, y));
                r.push((x, center_y + dist_y));
                r.push((x, center_y - dist_y));
            }
        },
        Symmetry::Both => {
            if dist_x == 0 && dist_y == 0 {
                r.push((x, y));
            } else {
                r.push((center_x + dist_x, center_y + dist_y));
                r.push((center_x - dist_x, center_y - dist_y));
                r.push((center_x - dist_x, center_y + dist_y));
                r.push((center_x + dist_x, center_y - dist_y));
            }
        },
    }
    r
}

/// A cell painted by one of the mirrored strokes.
pub open spec fn paint_covers(map: &TileMap, mode: Symmetry, brush: int, x: int, y: int, i: int) -> bool {
    exists|k: int| 0 <= k < paint_centers(map, mode, x, y).len()
        && #[trigger] brush_covers(map, brush, paint_centers(map, mode, x, y)[k].0, paint_centers(map, mode, x, y)[k].1, i)
}

/// Under horizontal or full symmetry a stroke at `(x, y)` and one at its
/// mirror image across the map's middle column paint the same cells; under
/// vertical or full symmetry the same holds across the middle row.
pub proof fn lemma_mirror_strokes_paint_alike(map: &TileMap, mode: Symmetry, brush: int, x: int, y: int, i: int)
    ensures
        (mode is Horizontal || mode is Both) ==> paint_covers(map, mode, brush, x, y, i)
            == paint_covers(map, mode, brush, 2 * (map.width / 2) - x, y, i),
        (mode is Vertical || mode is Both) ==> paint_covers(map, mode, brush, x, y, i)
            == paint_covers(map, mode, brush, x, 2 * (map.height / 2) - y, i),
{
    let mx = 2 * (map.width / 2) - x;
    let my = 2 * (map.height / 2) - y;
    if mode is Horizontal || mode is Both {
        assert(paint_centers(map, mode, x, y) =~= paint_centers(map, mode, mx, y));
    }
    if mode is Vertical || mode is Both {
        assert(paint_centers(map, mode, x, y) =~= paint_centers(map, mode, x, my));
    }
}

/// Every mirrored stroke is one the painter accepts, and the mirror images,
/// worked out in `i32`, fit there.
pub open spec fn paint_ok(map: &TileMap, mode: Symmetry, brush: int, x: int, y: int) -> bool {
    &&& -0x10_0000 <= x <= 0x10_0000
    &&& -0x10_0000 <= y <= 0x10_0000
    &&& map.width + 0x10_0000 <= i32::MAX
    &&& map.height + 0x10_0000 <= i32::MAX
    &&& forall|k: int| 0 <= k < paint_centers(map, mode, x, y).len() ==>
        brush_ok(map, brush, #[trigger] paint_centers(map, mode, x, y)[k].0, paint_centers(map, mode, x, y)[k].1)
}

/// Paints floor with the brush at `(x, y)` and at its mirror images under
/// the given symmetry.
pub fn paint(map: &mut TileMap, mode: Symmetry, brush_size: i32, x: i32, y: i32)
    requires
        old(map).wf(),
        paint_ok(old(map), mode, brush_size as int, x as int, y as int),
    ensures
        final(map).wf(),
        only_tiles_changed(old(map), final(map)),
        tiles_set_where(old(map).tiles@, final(map).tiles@,
            |i: int| paint_covers(old(map), mode, brush_size as int, x as int, y as int, i), TileType::Floor),
{
    let ghost m0 = *old(map);
    let centers = symmetric_centers(map, mode, x, y);
    let ghost cs = paint_centers(&m0, mode, x as int, y as int);
    for k in 0..centers.len()
        invariant
            map.wf(),
            m0.wf(),
            only_tiles_changed(&m0, map),
            cs == paint_centers(&m0, mode, x as int, y as int),
            centers@.len() == cs.len(),
            forall|j: int| 0 <= j < centers@.len() ==> (centers@[j].0 as int, centers@[j].1 as int) == #[trigger] cs[j],
            forall|j: int| 0 <= j < cs.len() ==> brush_ok(&m0, brush_size as int, #[trigger] cs[j].0, cs[j].1),
            tiles_set_where(m0.tiles@, map.tiles@,
                |i: int| exists|j: int| 0 <= j < k && #[trigger] brush_covers(&m0, brush_size as int, cs[j].0, cs[j].1, i), TileType::Floor),
    {
        let (cx, cy) = centers[k];
        let ghost before = map.tiles@;
        let ghost mb = *map;
        assert(cs[k as int] == (cx as int, cy as int));
        apply_paint(map, brush_size, cx, cy);
        proof {
            assert forall|i: int| 0 <= i < map.tiles@.len() implies #[trigger] map.tiles@[i] == (if (exists|j: int| 0 <= j < k + 1 && #[trigger] brush_covers(&m0, brush_size as int, cs[j].0, cs[j].1, i)) { TileType::Floor } else { m0.tiles@[i] }) by {
                assert(brush_covers(&mb, brush_size as int, cx as int, cy as int, i) == brush_covers(&m0, brush_size as int, cs[k as int].0, cs[k as int].1, i));
                if brush_covers(&m0, brush_size as int, cs[k as int].0, cs[k as int].1, i) {
                } else {
                    if exists|j: int| 0 <= j < k + 1 && #[trigger] brush_covers(&m0, brush_size as int, cs[j].0, cs[j].1, i) {
                        let j = choose|j: int| 0 <= j < k + 1 && #[trigger] brush_covers(&m0, brush_size as int, cs[j].0, cs[j].1, i);
                        assert(j < k);
                    }
                }
            }
        }
    }
}

/// Index `i` is a cell strictly inside the room's left and top edges and up
/// to its right and bottom edges.
pub open spec fn in_room(map: &TileMap, room: Rect, i: int) -> bool {
    in_fill(map, room.x1 + 1, room.x2 + 1, room.y1 + 1, room.y2 + 1, 0, map.width as int, 0, map.height as int, i)
}

/// A room whose floor lies on the map.
pub open spec fn room_fits(map: &TileMap, room: Rect) -> bool {
    &&& -1 <= room.x1 < 0x100_0000
    &&& -1 <= room.y1 < 0x100_0000
    &&& room.x2 < map.width
    &&& room.y2 < map.height
    &&& room.x2 >= -1
    &&& room.y2 >= -1
}

/// Carves the room's floor: the cells from `x1 + 1` to `x2` and from `y1 + 1` to `y2`.
pub fn apply_room_to_map(map: &mut TileMap, room: &Rect)
    requires
        old(map).wf(),
        room_fits(old(map), *room),
    ensures
        final(map).wf(),
        only_tiles_changed(old(map), final(map)),
        tiles_set_where(old(map).tiles@, final(map).tiles@, |i: int| in_room(old(map), *room, i), TileType::Floor),
{
    let w = map.width;
    let h = map.height;
    fill_clipped(map, room.x1 + 1, room.x2 + 1, room.y1 + 1, room.y2 + 1, 0, w, 0, h);
}

} // verus!

verus! {

/// Cell `i` is in the group of value `v`.
pub open spec fn grouped(areas: Seq<(i32, Vec<usize>)>, v: i32, i: int) -> bool {
    exists|g: int, k: int|
        0 <= g < areas.len() && 0 <= k < areas[g].1@.len() && areas[g].0 == v && #[trigger] areas[g].1@[k] as int == i
}

/// Cell `i` of the map is a floor cell off the map's border.
pub open spec fn inner_floor(map: &TileMap, i: int) -> bool {
    &&& 0 <= i < map.tiles@.len()
    &&& 1 <= i % (map.width as int) < map.width - 1
    &&& 1 <= i / (map.width as int) < map.height - 1
    &&& map.tiles@[i] is Floor
}

/// `areas` groups the inner floor cells of `map` by their value in
/// `values`: one group per value met, in the order the values are first
/// met going through the cells in index order, each group's cells in index
/// order, and every inner floor cell in the group of its value.
pub open spec fn spawn_regions_of(map: &TileMap, values: Seq<i32>, areas: Seq<(i32, Vec<usize>)>) -> bool {
    &&& forall|g: int, h: int| 0 <= g < h < areas.len() ==> #[trigger] areas[g].0 != #[trigger] areas[h].0
    &&& forall|g: int| 0 <= g < areas.len() ==> (#[trigger] areas[g]).1@.len() > 0
    &&& forall|g: int, k1: int, k2: int| 0 <= g < areas.len() && 0 <= k1 < k2 < areas[g].1@.len()
        ==> #[trigger] areas[g].1@[k1] < #[trigger] areas[g].1@[k2]
    &&& forall|g: int, h: int| 0 <= g < h < areas.len() ==> #[trigger] areas[g].1@[0] < #[trigger] areas[h].1@[0]
    &&& forall|g: int, k: int| 0 <= g < areas.len() && 0 <= k < areas[g].1@.len() ==> {
        let i = #[trigger] areas[g].1@[k] as int;
        &&& inner_floor(map, i)
        &&& values[i] == areas[g].0
    }
    &&& forall|i: int| #[trigger] inner_floor(map, i) ==> grouped(areas, values[i], i)
}

/// Groups the inner floor cells of `map` by the value of each cell in
/// `values` (the cell's region of a noise map): see `spawn_regions_of`.
pub fn generate_voronoi_spawn_regions(map: &TileMap, values: &Vec<i32>) -> (r: Vec<(i32, Vec<usize>)>)
    requires
        map.wf(),
        values@.len() == map.tiles@.len(),
    ensures
        spawn_regions_of(map, values@, r@),
{
    let w = map.width;
    let h = map.height;
    let ghost n = map.tiles@.len() as int;
    let mut areas: Vec<(i32, Vec<usize>)> = Vec::new();
    let mut y: i32 = 1;
    while y < h - 1
        invariant
            map.wf(),
            w == map.width,
            h == map.height,
            n == map.tiles@.len(),
            values@.len() == n,
            1 <= y,
            y <= h - 1 || y == 1,
            forall|g: int, hh: int| 0 <= g < hh < areas@.len() ==> #[trigger] areas@[g].0 != #[trigger] areas@[hh].0,
            forall|g: int| 0 <= g < areas@.len() ==> (#[trigger] areas@[g]).1@.len() > 0,
            forall|g: int, k1: int, k2: int| 0 <= g < areas@.len() && 0 <= k1 < k2 < areas@[g].1@.len()
                ==> #[trigger] areas@[g].1@[k1] < #[trigger] areas@[g].1@[k2],
            forall|g: int, hh: int| 0 <= g < hh < areas@.len() ==> #[trigger] areas@[g].1@[0] < #[trigger] areas@[hh].1@[0],
            forall|g: int, k: int| 0 <= g < areas@.len() && 0 <= k < areas@[g].1@.len() ==> {
                let i = #[trigger] areas@[g].1@[k] as int;
                &&& inner_floor(map, i)
                &&& values@[i] == areas@[g].0
                &&& i < y * w
            },
            forall|i: int| #[trigger] inner_floor(map, i) && i / (w as int) < y ==> grouped(areas@, values@[i], i),
        decreases h - 1 - y,
    {
        let mut x: i32 = 1;
        while x < w - 1
            invariant
                map.wf(),
                w == map.width,
                h == map.height,
                n == map.tiles@.len(),
                values@.len() == n,
                1 <= y < h - 1,
                1 <= x,
                x <= w - 1 || x == 1,
                forall|g: int, hh: int| 0 <= g < hh < areas@.len() ==> #[trigger] areas@[g].0 != #[trigger] areas@[hh].0,
                forall|g: int| 0 <= g < areas@.len() ==> (#[trigger] areas@[g]).1@.len() > 0,
                forall|g: int, k1: int, k2: int| 0 <= g < areas@.len() && 0 <= k1 < k2 < areas@[g].1@.len()
                    ==> #[trigger] areas@[g].1@[k1] < #[trigger] areas@[g].1@[k2],
                forall|g: int, hh: int| 0 <= g < hh < areas@.len() ==> #[trigger] areas@[g].1@[0] < #[trigger] areas@[hh].1@[0],
                forall|g: int, k: int| 0 <= g < areas@.len() && 0 <= k < areas@[g].1@.len() ==> {
                    let i = #[trigger] areas@[g].1@[k] as int;
                    &&& inner_floor(map, i)
                    &&& values@[i] == areas@[g].0
                    &&& i < y * w + x
                },
                forall|i: int| #[trigger] inner_floor(map, i) && (i / (w as int) < y || (i / (w as int) == y && i % (w as int) < x))
                    ==> grouped(areas@, values@[i], i),
            decreases w - 1 - x,
        {
            proof { lemma_cell_index(w as int, h as int, x as int, y as int); }
            let idx = map.xy_idx(x, y);
            proof {
                vstd::arithmetic::div_mod::lemma_fundamental_div_mod_converse(idx as int, w as int, y as int, x as int);
            }
            let ghost a0 = areas@;
            if map.tiles[idx] == TileType::Floor {
                let v = values[idx];
                let mut found: usize = areas.len();
                for g in 0..areas.len()
                    invariant
                        found == areas@.len() || (found < g && areas@[found as int].0 == v),
                        found == areas@.len() ==> forall|q: int| 0 <= q < g ==> (#[trigger] areas@[q]).0 != v,
                {
                    if found == areas.len() && areas[g].0 == v {
                        found = g;
                    }
                }
                if found < areas.len() {
                    let mut entry = areas.remove(found);
                    entry.1.push(idx);
                    areas.insert(found, entry);
                    proof {
                        assert forall|g: int| 0 <= g < areas@.len() implies #[trigger] areas@[g].0 == a0[g].0
                            && (g != found ==> areas@[g] == a0[g])
                            && (g == found ==> areas@[g].1@ == a0[g].1@.push(idx)) by {}
                        assert(grouped(areas@, v, idx as int)) by {
                            assert(areas@[found as int].1@[a0[found as int].1@.len() as int] == idx);
                        }
                        assert forall|i: int| #[trigger] inner_floor(map, i) && grouped(a0, values@[i], i) implies grouped(areas@, values@[i], i) by {
                            let (g, k) = choose|g: int, k: int|
                                0 <= g < a0.len() && 0 <= k < a0[g].1@.len() && a0[g].0 == values@[i] && #[trigger] a0[g].1@[k] as int == i;
                            assert(areas@[g].1@[k] as int == i);
                        }
                        assert forall|i: int| #[trigger] inner_floor(map, i) && (i / (w as int) < y || (i / (w as int) == y && i % (w as int) < x + 1))
                            implies grouped(areas@, values@[i], i) by {
                            if i / (w as int) == y && i % (w as int) == x {
                                vstd::arithmetic::div_mod::lemma_fundamental_div_mod(i, w as int);
                                assert((w as int) * y == y * w) by (nonlinear_arith);
                                assert(i == idx as int);
                            } else {
                                assert(grouped(a0, values@[i], i));
                            }
                        }
                        assert forall|g: int, k1: int, k2: int| 0 <= g < areas@.len() && 0 <= k1 < k2 < areas@[g].1@.len()
                            implies #[trigger] areas@[g].1@[k1] < #[trigger] areas@[g].1@[k2] by {
                            if g == found && k2 == a0[g].1@.len() {
                                assert(a0[g].1@[k1] < y * w + x);
                            }
                        }
                        assert forall|g: int, hh: int| 0 <= g < hh < areas@.len() implies #[trigger] areas@[g].1@[0] < #[trigger] areas@[hh].1@[0] by {
                            assert(a0[g].1@[0] < a0[hh].1@[0]);
                        }
                    }
                } else {
                    let mut cells: Vec<usize> = Vec::new();
                    cells.push(idx);
                    areas.push((v, cells));
                    proof {
                        assert forall|i: int| #[trigger] inner_floor(map, i) && grouped(a0, values@[i], i) implies grouped(areas@, values@[i], i) by {
                            let (g, k) = choose|g: int, k: int|
                                0 <= g < a0.len() && 0 <= k < a0[g].1@.len() && a0[g].0 == values@[i] && #[trigger] a0[g].1@[k] as int == i;
                            assert(areas@[g] == a0[g]);
                        }
                        assert(grouped(areas@, v, idx as int)) by {
                            assert(areas@[a0.len() as int].1@[0] == idx);
                        }
                        assert forall|i: int| #[trigger] inner_floor(map, i) && (i / (w as int) < y || (i / (w as int) == y && i % (w as int) < x + 1))
                            implies grouped(areas@, values@[i], i) by {
                            if i / (w as int) == y && i % (w as int) == x {
                                vstd::arithmetic::div_mod::lemma_fundamental_div_mod(i, w as int);
                                assert((w as int) * y == y * w) by (nonlinear_arith);
                                assert(i == idx as int);
                            } else {
                                assert(grouped(a0, values@[i], i));
                            }
                        }
                        assert forall|g: int, hh: int| 0 <= g < hh < areas@.len() implies #[trigger] areas@[g].0 != #[trigger] areas@[hh].0 by {
                            if hh == a0.len() {
                                assert(areas@[g] == a0[g]);
                            } else {
                                assert(areas@[g] == a0[g] && areas@[hh] == a0[hh]);
                            }
                        }
                        assert forall|g: int, hh: int| 0 <= g < hh < areas@.len() implies #[trigger] areas@[g].1@[0] < #[trigger] areas@[hh].1@[0] by {
                            assert(areas@[g] == a0[g]);
                            if hh < a0.len() {
                                assert(areas@[hh] == a0[hh]);
                            } else {
                                assert(a0[g].1@[0] < y * w + x);
                            }
                        }
                        assert forall|g: int, k: int| 0 <= g < areas@.len() && 0 <= k < areas@[g].1@.len() implies {
                            let i = #[trigger] areas@[g].1@[k] as int;
                            &&& inner_floor(map, i)
                            &&& values@[i] == areas@[g].0
                            &&& i < y * w + x + 1
                        } by {
                            if g < a0.len() {
                                assert(areas@[g] == a0[g]);
                            }
                        }
                        assert forall|g: int, k1: int, k2: int| 0 <= g < areas@.len() && 0 <= k1 < k2 < areas@[g].1@.len()
                            implies #[trigger] areas@[g].1@[k1] < #[trigger] areas@[g].1@[k2] by {
                            if g < a0.len() {
                                assert(areas@[g] == a0[g]);
                            }
                        }
                        assert forall|g: int| 0 <= g < areas@.len() implies (#[trigger] areas@[g]).1@.len() > 0 by {
                            if g < a0.len() {
                                assert(areas@[g] == a0[g]);
                            }
                        }
                    }
                }
            } else {
                proof {
                    assert forall|i: int| #[trigger] inner_floor(map, i) && (i / (w as int) < y || (i / (w as int) == y && i % (w as int) < x + 1))
                        implies grouped(areas@, values@[i], i) by {
                        if i / (w as int) == y && i % (w as int) == x {
                            vstd::arithmetic::div_mod::lemma_fundamental_div_mod(i, w as int);
                            vstd::arithmetic::mul::lemma_mul_is_commutative(w as int, y as int);
                            assert(i == idx as int);
                            assert(!(map.tiles@[idx as int] is Floor));
                        }
                    }
                }
            }
            x = x + 1;
        }
        proof {
            assert((y + 1) * w == y * w + w) by (nonlinear_arith);
            assert forall|i: int| #[trigger] inner_floor(map, i) && i / (w as int) < y + 1 implies grouped(areas@, values@[i], i) by {
                if i / (w as int) == y {
                    assert(x >= w - 1);
                }
            }
        }
        y = y + 1;
    }
    proof {
        assert forall|i: int| #[trigger] inner_floor(map, i) implies grouped(areas@, values@[i], i) by {}
    }
    areas
}

} // verus!

verus! {

/// The floor cell the start moves to: the nearest floor cell on the middle
/// row at or left of the middle column.
pub open spec fn start_column(map: &TileMap, x: int) -> bool {
    &&& 0 <= x <= map.width / 2
    &&& map.tile_at(x, map.height / 2) is Floor
    &&& forall|z: int| x < z <= map.width / 2 ==> !(#[trigger] map.tile_at(z, map.height / 2) is Floor)
}

/// The start at the centre of the map, moved westwards to the first floor
/// cell on the middle row.
pub fn get_central_starting_position(map: &TileMap) -> (r: Position)
    requires
        map.wf(),
        map.width > 0,
        map.height > 0,
        exists|x: int| 0 <= x <= map.width / 2 && #[trigger] map.tile_at(x, map.height / 2) is Floor,
    ensures
        r.y == map.height / 2,
        start_column(map, r.x as int),
{
    let w = map.width;
    let h = map.height;
    let mut x = w / 2;
    let y = h / 2;
    loop
        invariant
            map.wf(),
            0 < w == map.width,
            0 < h == map.height,
            y == h / 2,
            0 <= x <= w / 2,
            forall|z: int| x < z <= w / 2 ==> !(#[trigger] map.tile_at(z, y as int) is Floor),
            exists|xx: int| 0 <= xx <= w / 2 && #[trigger] map.tile_at(xx, y as int) is Floor,
        decreases x,
    {
        proof { lemma_cell_index(w as int, h as int, x as int, y as int); }
        let idx = map.xy_idx(x, y);
        if map.tiles[idx] == TileType::Floor {
            return Position { x, y };
        }
        if x == 0 {
            proof {
                let xx = choose|xx: int| 0 <= xx <= w / 2 && #[trigger] map.tile_at(xx, y as int) is Floor;
                assert(false);
            }
            return Position { x, y };
        }
        x = x - 1;
    }
}


/// In spawn regions, every inner floor cell lies in exactly one group:
/// the group of its value.
pub proof fn lemma_region_of_cell(map: &TileMap, values: Seq<i32>, areas: Seq<(i32, Vec<usize>)>, i: int, g: int, k: int)
    requires
        spawn_regions_of(map, values, areas),
        0 <= g < areas.len(),
        0 <= k < areas[g].1@.len(),
        areas[g].1@[k] as int == i,
    ensures
        inner_floor(map, i),
        areas[g].0 == values[i],
        forall|h: int| 0 <= h < areas.len() && h != g ==> !(#[trigger] areas[h].1@).contains(i as usize),
{
    assert(areas[g].1@[k] == i as usize);
    assert forall|h: int| 0 <= h < areas.len() && h != g implies !(#[trigger] areas[h].1@).contains(i as usize) by {
        if areas[h].1@.contains(i as usize) {
            let m = choose|m: int| 0 <= m < areas[h].1@.len() && areas[h].1@[m] == i as usize;
            assert(values[areas[h].1@[m] as int] == areas[h].0);
            if g < h {
                assert(areas[g].0 != areas[h].0);
            } else {
                assert(areas[h].0 != areas[g].0);
            }
        }
    }
}

} // verus!
