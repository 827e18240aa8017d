use vstd::prelude::*;
use crate::builders::BuilderMap;
use crate::builders::wfc_constraints::{MapChunk, rendered_tile, render_pattern_to_map};
use crate::map::{TileMap, lemma_index_cell};
use crate::tile::TileType;

verus! {

/// Rebuilds a map out of square chunks cut from the map before it.
pub struct WaveformCollapseBuilder {}

/// The side of the square chunks that patterns are cut into.
pub const CHUNK_SIZE: i32 = 7;

/// The tiles `t` of a `w` wide map with `chunk` drawn at `(x, y)`.
pub open spec fn drawn_onto(t: Seq<TileType>, w: int, chunk: MapChunk, cs: int, x: int, y: int) -> Seq<TileType> {
    Seq::new(t.len(), |i: int|
        if x <= i % w < x + cs && y <= i / w < y + cs {
            rendered_tile(&chunk, cs, i % w - x, i / w - y)
        } else {
            t[i]
        })
}

/// Where the gallery goes after drawing a chunk at `(x, y)`: one chunk and a
/// gap to the east; to the start of the next row when that chunk would not
/// fit; to the top of a new page when that row would not fit either (the
/// flag says so).
pub open spec fn gallery_next(cs: int, w: int, h: int, x: int, y: int) -> (int, int, bool) {
    let x1 = x + cs + 1;
    if x1 + cs > w {
        let y1 = y + cs + 1;
        if y1 + cs > h { (1, 1, true) } else { (1, y1, false) }
    } else {
        (x1, y, false)
    }
}

/// The gallery after its first `k` chunks: where the next chunk goes, the
/// tiles of the page being drawn, and how many pages were filled. Each page
/// starts as `blank`.
pub open spec fn gallery(cs: int, w: int, h: int, blank: Seq<TileType>, chunks: Seq<MapChunk>, k: nat)
    -> (int, int, Seq<TileType>, nat)
    decreases k,
{
    if k == 0 {
        (1, 1, blank, 0)
    } else {
        let (x, y, t, pages) = gallery(cs, w, h, blank, chunks, (k - 1) as nat);
        let (x1, y1, new_page) = gallery_next(cs, w, h, x, y);
        if new_page {
            (x1, y1, blank, pages + 1)
        } else {
            (x1, y1, drawn_onto(t, w, chunks[k - 1], cs, x, y), pages)
        }
    }
}

/// Every chunk of the gallery is drawn wholly on the page: its top-left
/// corner is at least one cell in from the north and west edges, and it
/// ends inside the east and south ones.
pub proof fn lemma_gallery_fits(cs: int, w: int, h: int, blank: Seq<TileType>, chunks: Seq<MapChunk>, k: nat)
    requires
        0 <= cs,
        cs + 1 <= w,
        cs + 1 <= h,
    ensures
        ({
            let g = gallery(cs, w, h, blank, chunks, k);
            &&& 1 <= g.0
            &&& g.0 + cs <= w
            &&& 1 <= g.1
            &&& g.1 + cs <= h
        }),
    decreases k,
{
    if k > 0 {
        lemma_gallery_fits(cs, w, h, blank, chunks, (k - 1) as nat);
    }
}

/// A map of walls only.
pub open spec fn all_walls(n: int) -> Seq<TileType> {
    Seq::new(n as nat, |i: int| TileType::Wall)
}

impl WaveformCollapseBuilder {
    pub fn new() -> (r: Box<WaveformCollapseBuilder>) {
        Box::new(WaveformCollapseBuilder {})
    }

    /// Turns every down stairs of the map into floor and records a snapshot.
    pub fn strip_stairs(&mut self, build_data: &mut BuilderMap)
        requires
            old(build_data).wf(),
        ensures
            final(build_data).wf(),
            final(build_data).map.width == old(build_data).map.width,
            final(build_data).map.height == old(build_data).map.height,
            final(build_data).starting_position == old(build_data).starting_position,
            final(build_data).spawn_list == old(build_data).spawn_list,
            final(build_data).map.tiles@.len() == old(build_data).map.tiles@.len(),
            forall|i: int| 0 <= i < final(build_data).map.tiles@.len() ==> #[trigger] final(build_data).map.tiles@[i]
                == (if old(build_data).map.tiles@[i] is DownStairs { TileType::Floor } else { old(build_data).map.tiles@[i] }),
    {
        let n = build_data.map.tiles.len();
        for i in 0..n
            invariant
                build_data.wf(),
                n == build_data.map.tiles@.len(),
                build_data.map.width == old(build_data).map.width,
                build_data.map.height == old(build_data).map.height,
                build_data.starting_position == old(build_data).starting_position,
                build_data.spawn_list == old(build_data).spawn_list,
                build_data.map.tiles@.len() == old(build_data).map.tiles@.len(),
                forall|j: int| 0 <= j < n ==> #[trigger] build_data.map.tiles@[j] == (if j < i && old(build_data).map.tiles@[j] is DownStairs {
                    TileType::Floor
                } else {
                    old(build_data).map.tiles@[j]
                }),
        {
            if build_data.map.tiles[i] == TileType::DownStairs {
                build_data.map.set_tile(i, TileType::Floor);
            }
        }
        build_data.take_snapshot();
    }

    /// Lays the chunks out side by side on blank pages, one chunk and a gap
    /// apart, row after row, recording a snapshot of each full page and of
    /// the last one. The map is left showing the last page.
    pub fn render_tile_gallery(&mut self, build_data: &mut BuilderMap, constraints: &Vec<MapChunk>, chunk_size: i32)
        requires
            old(build_data).wf(),
            0 <= chunk_size,
            chunk_size + 1 <= old(build_data).map.width,
            chunk_size + 1 <= old(build_data).map.height,
            forall|k: int| 0 <= k < constraints@.len() ==> (#[trigger] constraints@[k]).pattern@.len() >= chunk_size * chunk_size,
            forall|k: int, d: int| 0 <= k < constraints@.len() && 0 <= d < 4 ==> (#[trigger] constraints@[k].exits@[d])@.len() <= chunk_size,
        ensures
            final(build_data).wf(),
            final(build_data).map.width == old(build_data).map.width,
            final(build_data).map.height == old(build_data).map.height,
            final(build_data).map.depth == old(build_data).map.depth,
            final(build_data).starting_position == old(build_data).starting_position,
            final(build_data).spawn_list == old(build_data).spawn_list,
            ({
                let g = gallery(chunk_size as int, old(build_data).map.width as int, old(build_data).map.height as int,
                    all_walls(old(build_data).map.tiles@.len() as int), constraints@, constraints@.len());
                &&& final(build_data).map.tiles@ == g.2
                &&& final(build_data).history@.len() == old(build_data).history@.len() + g.3 + 1
                &&& final(build_data).history@.last().tiles@ == g.2
            }),
    {
        let cs = chunk_size;
        let w = build_data.map.width;
        let h = build_data.map.height;
        let depth = build_data.map.depth;
        let ghost n = build_data.map.tiles@.len() as int;
        let ghost blank = all_walls(n);
        let ghost h0 = build_data.history@.len();
        build_data.map = TileMap::new(depth, w, h, String::new());
        assert(build_data.map.tiles@ =~= blank);
        let mut counter: usize = 0;
        let mut x: i32 = 1;
        let mut y: i32 = 1;
        let ghost mut pages: nat = 0;
        while counter < constraints.len()
            invariant
                build_data.wf(),
                0 <= cs <= 0x4000,
                cs + 1 <= w,
                cs + 1 <= h,
                build_data.map.width == w,
                build_data.map.height == h,
                build_data.map.depth == depth,
                build_data.starting_position == old(build_data).starting_position,
                build_data.spawn_list == old(build_data).spawn_list,
                w == old(build_data).map.width,
                h == old(build_data).map.height,
                depth == old(build_data).map.depth,
                n == w * h,
                blank == all_walls(n),
                counter <= constraints@.len(),
                1 <= x,
                x + cs <= w,
                1 <= y,
                y + cs <= h,
                forall|k: int| 0 <= k < constraints@.len() ==> (#[trigger] constraints@[k]).pattern@.len() >= cs * cs,
                forall|k: int, d: int| 0 <= k < constraints@.len() && 0 <= d < 4 ==> (#[trigger] constraints@[k].exits@[d])@.len() <= cs,
                gallery(cs as int, w as int, h as int, blank, constraints@, counter as nat)
                    == (x as int, y as int, build_data.map.tiles@, pages),
                build_data.history@.len() == h0 + pages,
            decreases constraints@.len() - counter,
        {
            let ghost t0 = build_data.map.tiles@;
            let ghost m0 = build_data.map;
            let chunk = &constraints[counter];
            assert(forall|d: int| 0 <= d < 4 ==> (#[trigger] chunk.exits@[d])@.len() <= cs) by {
                assert forall|d: int| 0 <= d < 4 implies (#[trigger] chunk.exits@[d])@.len() <= cs by {
                    assert(constraints@[counter as int].exits@[d]@.len() <= cs);
                }
            }
            proof {
                assert(cs * cs <= 0x4000 * 0x4000) by (nonlinear_arith) requires 0 <= cs <= 0x4000;
            }
            render_pattern_to_map(&mut build_data.map, chunk, cs, x, y);
            proof {
                assert forall|i: int| 0 <= i < n implies #[trigger] build_data.map.tiles@[i]
                    == drawn_onto(t0, w as int, *chunk, cs as int, x as int, y as int)[i] by {
                    lemma_index_cell(w as int, h as int, i);
                    assert(build_data.map.tile_at(i % (w as int), i / (w as int)) == build_data.map.tiles@[i]);
                    assert(m0.tile_at(i % (w as int), i / (w as int)) == t0[i]);
                }
                assert(build_data.map.tiles@ =~= drawn_onto(t0, w as int, *chunk, cs as int, x as int, y as int));
            }
            x = x + cs + 1;
            if x + cs > w {
                x = 1;
                y = y + cs + 1;
                if y + cs > h {
                    build_data.take_snapshot();
                    build_data.map = TileMap::new(depth, w, h, String::new());
                    assert(build_data.map.tiles@ =~= blank);
                    x = 1;
                    y = 1;
                    proof { pages = pages + 1; }
                }
            }
            counter = counter + 1;
        }
        build_data.take_snapshot();
    }
}

} // verus!
