use vstd::prelude::*;
use crate::map::{TileMap, lemma_cell_index};

verus! {

/// Whether the camera marks the cells beyond the map's edge.
pub const SHOW_BOUNDARIES: bool = true;
/// Where the map view starts on the screen.
pub const MAP_OFFSET_X: i32 = 1;
pub const MAP_OFFSET_Y: i32 = 1;

/// What the camera draws on one screen cell.
#[derive(Clone, Copy, Debug, PartialEq, Eq, Structural)]
pub enum CameraCell {
    /// The map's tile at this index, which has been revealed.
    Tile { idx: usize },
    /// A mark beyond the edge of the map.
    Boundary,
}

/// What goes on the screen for map cell `(tx, ty)` when the cells inside
/// `limit_w` by `limit_h` count as the map: the tile where it has been
/// revealed, nothing where it has not, a boundary mark off the map.
pub open spec fn view_cell(map: &TileMap, tx: int, ty: int, limit_w: int, limit_h: int) -> Option<CameraCell> {
    if 0 <= tx < limit_w && 0 <= ty < limit_h {
        if map.revealed_tiles@[map.idx(tx, ty)] { Some(CameraCell::Tile { idx: map.idx(tx, ty) as usize }) } else { None }
    } else if SHOW_BOUNDARIES {
        Some(CameraCell::Boundary)
    } else {
        None
    }
}

/// The screen cells of a view of the map cells from `(min_x, min_y)` up to
/// `(max_x, max_y)`, row by row, put on the screen from `(off_x, off_y)`,
/// each with what goes there; cells with nothing to draw are left out.
pub open spec fn view_of(map: &TileMap, min_x: int, max_x: int, min_y: int, max_y: int, limit_w: int, limit_h: int,
    off_x: int, off_y: int) -> Seq<(i32, i32, CameraCell)> {
    let w = max_x - min_x;
    let h = max_y - min_y;
    Seq::new((if w > 0 && h > 0 { w * h } else { 0 }) as nat,
        |k: int| (off_x + k % w, off_y + k / w, view_cell(map, min_x + k % w, min_y + k / w, limit_w, limit_h)))
        .filter(|e: (int, int, Option<CameraCell>)| e.2 is Some)
        .map_values(|e: (int, int, Option<CameraCell>)| (e.0 as i32, e.1 as i32, e.2->0))
}

/// What a view of the map puts on the screen: see `view_of`.
pub fn view_cells(map: &TileMap, min_x: i32, max_x: i32, min_y: i32, max_y: i32, limit_w: i32, limit_h: i32,
    off_x: i32, off_y: i32) -> (r: Vec<(i32, i32, CameraCell)>)
    requires
        map.wf(),
        limit_w <= map.width,
        limit_h <= map.height,
        -0x100_0000 <= min_x <= max_x <= 0x100_0000,
        -0x100_0000 <= min_y <= max_y <= 0x100_0000,
        -0x100_0000 <= off_x <= 0x100_0000,
        -0x100_0000 <= off_y <= 0x100_0000,
    ensures
        r@ == view_of(map, min_x as int, max_x as int, min_y as int, max_y as int, limit_w as int, limit_h as int, off_x as int, off_y as int),
{
    let ghost w = max_x - min_x;
    let ghost h = max_y - min_y;
    let ghost all = Seq::new((if w > 0 && h > 0 { w * h } else { 0 }) as nat,
        |k: int| (off_x + k % w, off_y + k / w, view_cell(map, min_x + k % w, min_y + k / w, limit_w as int, limit_h as int)));
    let ghost pred = |e: (int, int, Option<CameraCell>)| e.2 is Some;
    let ghost conv = |e: (int, int, Option<CameraCell>)| (e.0 as i32, e.1 as i32, e.2->0);
    let mut out: Vec<(i32, i32, CameraCell)> = Vec::new();
    let ghost mut done: int = 0;
    proof {
        assert(all.take(0) =~= Seq::<(int, int, Option<CameraCell>)>::empty());
        assert(all.take(0).filter(pred) =~= Seq::<(int, int, Option<CameraCell>)>::empty());
        assert(0 * w == 0) by (nonlinear_arith);
    }
    let mut y = off_y;
    let mut ty = min_y;
    while ty < max_y
        invariant
            map.wf(),
            limit_w <= map.width,
            limit_h <= map.height,
            -0x100_0000 <= min_x <= max_x <= 0x100_0000,
            -0x100_0000 <= min_y <= max_y <= 0x100_0000,
            -0x100_0000 <= off_x <= 0x100_0000,
            -0x100_0000 <= off_y <= 0x100_0000,
            w == max_x - min_x,
            h == max_y - min_y,
            all == Seq::new((if w > 0 && h > 0 { w * h } else { 0 }) as nat,
                |k: int| (off_x + k % w, off_y + k / w, view_cell(map, min_x + k % w, min_y + k / w, limit_w as int, limit_h as int))),
            pred == (|e: (int, int, Option<CameraCell>)| e.2 is Some),
            conv == (|e: (int, int, Option<CameraCell>)| (e.0 as i32, e.1 as i32, e.2->0)),
            min_y <= ty <= max_y,
            y == off_y + (ty - min_y),
            w > 0 ==> done == (ty - min_y) * w,
            w <= 0 ==> done == 0,
            0 <= done <= all.len(),
            out@ == all.take(done).filter(pred).map_values(conv),
        decreases max_y - ty,
    {
        proof {
            if w > 0 {
                assert((ty - min_y) * w + w <= w * h) by (nonlinear_arith)
                    requires ty - min_y < h, 0 < w;
            }
        }
        let mut x = off_x;
        let mut tx = min_x;
        while tx < max_x
            invariant
                map.wf(),
                limit_w <= map.width,
                limit_h <= map.height,
                -0x100_0000 <= min_x <= max_x <= 0x100_0000,
                -0x100_0000 <= min_y <= max_y <= 0x100_0000,
                -0x100_0000 <= off_x <= 0x100_0000,
                -0x100_0000 <= off_y <= 0x100_0000,
                w == max_x - min_x,
                h == max_y - min_y,
                all == Seq::new((if w > 0 && h > 0 { w * h } else { 0 }) as nat,
                    |k: int| (off_x + k % w, off_y + k / w, view_cell(map, min_x + k % w, min_y + k / w, limit_w as int, limit_h as int))),
                pred == (|e: (int, int, Option<CameraCell>)| e.2 is Some),
                conv == (|e: (int, int, Option<CameraCell>)| (e.0 as i32, e.1 as i32, e.2->0)),
                min_y <= ty < max_y,
                min_x <= tx <= max_x,
                y == off_y + (ty - min_y),
                x == off_x + (tx - min_x),
                w > 0 ==> (ty - min_y) * w + w <= w * h,
                w > 0 ==> done == (ty - min_y) * w + (tx - min_x),
                w <= 0 ==> done == 0,
                0 <= done <= all.len(),
                out@ == all.take(done).filter(pred).map_values(conv),
            decreases max_x - tx,
        {
            proof {
                vstd::arithmetic::div_mod::lemma_fundamental_div_mod_converse(done, w, ty - min_y, tx - min_x);
                assert(all.take(done + 1) =~= all.take(done).push(all[done]));
                all.take(done).lemma_filter_push(all[done], pred);
            }
            let ghost before = out@;
            if tx >= 0 && tx < limit_w && ty >= 0 && ty < limit_h {
                proof { lemma_cell_index(map.width as int, map.height as int, tx as int, ty as int); }
                let idx = map.xy_idx(tx, ty);
                if map.revealed_tiles[idx] {
                    out.push((x, y, CameraCell::Tile { idx }));
                }
            } else if SHOW_BOUNDARIES {
                out.push((x, y, CameraCell::Boundary));
            }
            proof {
                let f = all.take(done).filter(pred);
                if pred(all[done]) {
                    assert(f.push(all[done]).map_values(conv) =~= f.map_values(conv).push(conv(all[done])));
                }
                done = done + 1;
            }
            x = x + 1;
            tx = tx + 1;
        }
        proof {
            if w > 0 {
                assert((ty + 1 - min_y) * w == (ty - min_y) * w + w) by (nonlinear_arith);
            }
        }
        y = y + 1;
        ty = ty + 1;
    }
    proof {
        if w > 0 && h > 0 {
            assert(done == w * h) by (nonlinear_arith)
                requires done == (ty - min_y) * w, ty == max_y, h == max_y - min_y;
        }
        assert(all.take(done) =~= all);
    }
    out
}

/// What `render_camera` draws of the map: the 48 by 44 cells round the
/// player, from `get_screen_bounds`, put on the screen from
/// `(MAP_OFFSET_X, MAP_OFFSET_Y)`.
pub fn camera_view(map: &TileMap, bounds: (i32, i32, i32, i32)) -> (r: Vec<(i32, i32, CameraCell)>)
    requires
        map.wf(),
        -0x100_0000 <= bounds.0 <= bounds.1 <= 0x100_0000,
        -0x100_0000 <= bounds.2 <= bounds.3 <= 0x100_0000,
    ensures
        r@ == view_of(map, bounds.0 as int, bounds.1 as int, bounds.2 as int, bounds.3 as int,
            map.width as int, map.height as int, MAP_OFFSET_X as int, MAP_OFFSET_Y as int),
{
    let (min_x, max_x, min_y, max_y) = bounds;
    view_cells(map, min_x, max_x, min_y, max_y, map.width, map.height, MAP_OFFSET_X, MAP_OFFSET_Y)
}

/// What `render_debug_map` draws: a screen of `x_chars` by `y_chars` cells
/// centred on the middle of the map, put on the screen from the corner;
/// the last row and column of the map count as beyond its edge.
pub fn debug_map_view(map: &TileMap, x_chars: i32, y_chars: i32) -> (r: Vec<(i32, i32, CameraCell)>)
    requires
        map.wf(),
        1 <= map.width <= 0x100_0000,
        1 <= map.height <= 0x100_0000,
        0 <= x_chars <= 0x10_0000,
        0 <= y_chars <= 0x10_0000,
    ensures
        ({
            let min_x = map.width / 2 - x_chars / 2;
            let min_y = map.height / 2 - y_chars / 2;
            r@ == view_of(map, min_x, min_x + x_chars, min_y, min_y + y_chars,
                map.width - 1, map.height - 1, 0, 0)
        }),
{
    let center_x = x_chars / 2;
    let center_y = y_chars / 2;
    let min_x = map.width / 2 - center_x;
    let max_x = min_x + x_chars;
    let min_y = map.height / 2 - center_y;
    let max_y = min_y + y_chars;
    view_cells(map, min_x, max_x, min_y, max_y, map.width - 1, map.height - 1, 0, 0)
}

/// Where `render_camera` draws an entity standing at `(x, y)`: nowhere
/// unless its cell is visible; then at its place relative to the view's
/// corner `(min_x, min_y)`, moved by the map's offset, when that place lies
/// within the map's width and height.
pub fn entity_screen_position(map: &TileMap, min_x: i32, min_y: i32, x: i32, y: i32) -> (r: Option<(i32, i32)>)
    requires
        map.wf(),
        map.in_bounds(x as int, y as int),
        -0x100_0000 <= min_x <= 0x100_0000,
        -0x100_0000 <= min_y <= 0x100_0000,
        x - min_x <= i32::MAX,
        y - min_y <= i32::MAX,
        map.width + MAP_OFFSET_X <= i32::MAX,
        map.height + MAP_OFFSET_Y <= i32::MAX,
    ensures
        ({
            let sx = x - min_x;
            let sy = y - min_y;
            if map.visible_tiles@[map.idx(x as int, y as int)] && 0 <= sx < map.width && 0 <= sy < map.height {
                r == Some(((sx + MAP_OFFSET_X) as i32, (sy + MAP_OFFSET_Y) as i32))
            } else {
                r is None
            }
        }),
{
    proof { lemma_cell_index(map.width as int, map.height as int, x as int, y as int); }
    let idx = map.xy_idx(x, y);
    if map.visible_tiles[idx] {
        let sx = x - min_x;
        let sy = y - min_y;
        if sx >= 0 && sx < map.width && sy >= 0 && sy < map.height {
            return Some((sx + MAP_OFFSET_X, sy + MAP_OFFSET_Y));
        }
    }
    None
}

} // verus!
