use vstd::prelude::*;
use crate::components::Position;
use crate::map::{TileMap, max_cells, only_tiles_changed, lemma_cell_index, lemma_index_cell};
use crate::tile::TileType;

verus! {

/// The lines of `s` that follow a line begun with `cur`: lines end at each
/// `'\n'`, whose line loses one `'\r'` just before it; the last line needs
/// no ending, and an empty one after the last `'\n'` is no line.
pub open spec fn lines_from(s: Seq<char>, cur: Seq<char>) -> Seq<Seq<char>>
    decreases s.len(),
{
    if s.len() == 0 {
        if cur.len() == 0 { seq![] } else { seq![cur] }
    } else if s[0] == '\n' {
        seq![strip_cr(cur)] + lines_from(s.drop_first(), seq![])
    } else {
        lines_from(s.drop_first(), cur.push(s[0]))
    }
}

/// A line without the `'\r'` that ends it, if one does.
pub open spec fn strip_cr(line: Seq<char>) -> Seq<char> {
    if line.len() > 0 && line.last() == '\r' { line.drop_last() } else { line }
}

/// `line` with spaces added after it up to `width` characters.
pub open spec fn pad(line: Seq<char>, width: nat) -> Seq<char> {
    if line.len() >= width { line } else { line + Seq::new((width - line.len()) as nat, |_i: int| ' ') }
}

/// The lines one after the other, each padded to `width`.
pub open spec fn padded_rows(lines: Seq<Seq<char>>, width: nat) -> Seq<char>
    decreases lines.len(),
{
    if lines.len() == 0 { seq![] } else { pad(lines[0], width) + padded_rows(lines.drop_first(), width) }
}

/// The characters of a text map: its lines, each padded with spaces to
/// `width`, one after the other.
pub open spec fn ascii_cells(template: Seq<char>, width: nat) -> Seq<char> {
    padded_rows(lines_from(template, seq![]), width)
}

/// Reads a text map into one character per cell: each line padded with
/// spaces to `width`, the lines one after the other.
pub fn read_ascii_to_vec(template: &str, width: usize) -> (r: Vec<char>)
    requires
        template@.len() + width * template@.len() + width <= usize::MAX,
    ensures
        r@ == ascii_cells(template@, width as nat),
{
    let n = template.unicode_len();
    let mut out: Vec<char> = Vec::new();
    let mut line_start: usize = 0;
    let ghost s = template@;
    let mut i: usize = 0;
    proof {
        assert(s.subrange(0, n as int) =~= s);
        assert(out@.subrange(0, 0) =~= Seq::<char>::empty());
    }
    while i < n
        invariant
            n == s.len(),
            s == template@,
            0 <= i <= n,
            line_start <= out@.len(),
            out@.len() <= i + width * i,
            s.len() + width * s.len() + width <= usize::MAX,
            out@.subrange(0, line_start as int) + padded_rows(lines_from(s.subrange(i as int, n as int), out@.subrange(line_start as int, out@.len() as int)), width as nat)
                == ascii_cells(s, width as nat),
        decreases n - i,
    {
        let c = template.get_char(i);
        let ghost cur = out@.subrange(line_start as int, out@.len() as int);
        let ghost base = out@.subrange(0, line_start as int);
        let ghost rest = s.subrange(i as int + 1, n as int);
        proof {
            assert(s.subrange(i as int, n as int).drop_first() =~= rest);
            assert(s.subrange(i as int, n as int)[0] == c);
        }
        if c == '\n' {
            if out.len() > line_start && out[out.len() - 1] == '\r' {
                out.pop();
            }
            proof {
                assert(out@.subrange(line_start as int, out@.len() as int) =~= strip_cr(cur));
            }
            while out.len() - line_start < width
                invariant
                    line_start <= out@.len(),
                    out@.subrange(0, line_start as int) == base,
                    out@.len() - line_start <= width || out@.subrange(line_start as int, out@.len() as int) == strip_cr(cur),
                    strip_cr(cur).len() <= out@.len() - line_start,
                    out@.subrange(line_start as int, line_start + strip_cr(cur).len()) == strip_cr(cur),
                    forall|k: int| line_start + strip_cr(cur).len() <= k < out@.len() ==> #[trigger] out@[k] == ' ',
                    out@.len() <= i + width * i + width,
                    line_start <= i + width * i,
                    out@.len() - line_start > strip_cr(cur).len() ==> out@.len() - line_start <= width,
                decreases width - (out@.len() - line_start),
            {
                out.push(' ');
            }
            proof {
                let line = out@.subrange(line_start as int, out@.len() as int);
                assert(line =~= pad(strip_cr(cur), width as nat));
                assert(out@ =~= base + pad(strip_cr(cur), width as nat));
                assert(lines_from(s.subrange(i as int, n as int), cur)
                    == seq![strip_cr(cur)] + lines_from(rest, seq![]));
                let ls = seq![strip_cr(cur)] + lines_from(rest, seq![]);
                assert(ls.drop_first() =~= lines_from(rest, seq![]));
                assert(padded_rows(ls, width as nat) == pad(strip_cr(cur), width as nat) + padded_rows(lines_from(rest, seq![]), width as nat));
                assert(out@.subrange(0, out@.len() as int) =~= out@);
                assert(out@.subrange(out@.len() as int, out@.len() as int) =~= seq![]);
                assert((i + 1) + width * (i + 1) == i + width * i + 1 + width) by (nonlinear_arith);
            }
            line_start = out.len();
        } else {
            out.push(c);
            proof {
                assert(out@.subrange(line_start as int, out@.len() as int) =~= cur.push(c));
                assert(out@.subrange(0, line_start as int) =~= base);
                assert((i + 1) + width * (i + 1) >= i + width * i + 1) by (nonlinear_arith);
            }
        }
        i = i + 1;
    }
    let ghost cur = out@.subrange(line_start as int, out@.len() as int);
    let ghost base = out@.subrange(0, line_start as int);
    proof {
        assert(s.subrange(n as int, n as int) =~= seq![]);
    }
    if out.len() > line_start {
        while out.len() - line_start < width
            invariant
                line_start < out@.len(),
                out@.subrange(0, line_start as int) == base,
                cur.len() <= out@.len() - line_start,
                out@.subrange(line_start as int, line_start + cur.len()) == cur,
                forall|k: int| line_start + cur.len() <= k < out@.len() ==> #[trigger] out@[k] == ' ',
                out@.len() - line_start > cur.len() ==> out@.len() - line_start <= width,
                out@.len() <= n + width * n + width,
                line_start <= n + width * n,
            decreases width - (out@.len() - line_start),
        {
            out.push(' ');
        }
        proof {
            assert(out@.subrange(line_start as int, out@.len() as int) =~= pad(cur, width as nat));
            assert(out@ =~= base + pad(cur, width as nat));
            let ls = seq![cur];
            assert(ls.drop_first() =~= Seq::<Seq<char>>::empty());
            reveal_with_fuel(padded_rows, 2);
            assert(padded_rows(ls, width as nat) =~= pad(cur, width as nat));
        }
    } else {
        proof {
            assert(cur =~= seq![]);
            assert(out@ =~= base);
        }
    }
    out
}

} // verus!

verus! {

/// A whole level drawn as text, `width` by `height` cells.
#[derive(Clone, Copy, Debug)]
pub struct PrefabLevel {
    pub template: &'static str,
    pub width: usize,
    pub height: usize,
}

/// Where a section goes across the map.
#[derive(Clone, Copy, Debug, PartialEq, Eq, Structural)]
pub enum HorizontalPlacement {
    Left,
    Center,
    Right,
}

/// Where a section goes down the map.
#[derive(Clone, Copy, Debug, PartialEq, Eq, Structural)]
pub enum VerticalPlacement {
    Top,
    Center,
    Bottom,
}

/// A piece of a level drawn as text, `width` by `height` cells, stamped
/// onto a map that another builder made.
#[derive(Clone, Copy, Debug)]
pub struct PrefabSection {
    pub template: &'static str,
    pub width: usize,
    pub height: usize,
    pub placement: (HorizontalPlacement, VerticalPlacement),
}

/// What a prefab builder lays down.
#[derive(Clone, Copy, Debug)]
pub enum PrefabMode {
    /// A level drawn in a REX Paint file.
    RexLevel { template: &'static str },
    /// A level drawn as text.
    Constant { level: PrefabLevel },
    /// A section stamped onto a map that another builder made.
    Sectional { section: PrefabSection },
}

/// One layer of a REX Paint image: `width` by `height` glyphs, row by row.
#[derive(Clone, Debug)]
pub struct RexLayer {
    pub width: usize,
    pub height: usize,
    pub glyphs: Vec<u32>,
}

/// The tile a glyph of a prefab stands for, if it stands for one.
pub open spec fn glyph_tile(ch: char) -> Option<TileType> {
    if ch == ' ' || ch == '@' || ch == 'g' || ch == 'o' || ch == '^' || ch == '%' || ch == '!' {
        Some(TileType::Floor)
    } else if ch == '#' {
        Some(TileType::Wall)
    } else if ch == '>' {
        Some(TileType::DownStairs)
    } else {
        None
    }
}

/// The name of what a glyph of a prefab spawns, if it spawns anything.
pub open spec fn glyph_spawn(ch: char) -> Option<Seq<char>> {
    if ch == 'g' {
        Some("Goblin"@)
    } else if ch == 'o' {
        Some("Orc"@)
    } else if ch == '^' {
        Some("Bear Trap"@)
    } else if ch == '%' {
        Some("Rations"@)
    } else if ch == '!' {
        Some("Health Potion"@)
    } else {
        None
    }
}

/// What a prefab builder has laid down: the tiles, the start, and what is
/// to be spawned where.
pub struct Stamped {
    pub tiles: Seq<TileType>,
    pub start: Position,
    pub spawns: Seq<(usize, Seq<char>)>,
}

/// Lays glyph `ch` at `(x, y)` of a `width` by `height` map, when that is
/// on the map: its tile, the start for `'@'`, and its spawn.
pub open spec fn stamp(s: Stamped, width: int, height: int, x: int, y: int, ch: char) -> Stamped {
    if 0 <= x < width && 0 <= y < height {
        let idx = y * width + x;
        Stamped {
            tiles: match glyph_tile(ch) {
                Some(t) => s.tiles.update(idx, t),
                None => s.tiles,
            },
            start: if ch == '@' { Position { x: x as i32, y: y as i32 } } else { s.start },
            spawns: match glyph_spawn(ch) {
                Some(name) => s.spawns.push((idx as usize, name)),
                None => s.spawns,
            },
        }
    } else {
        s
    }
}

/// Lays the glyphs of `list`, each with where it goes, one after the other.
pub open spec fn stamp_all(s: Stamped, list: Seq<(int, int, char)>, width: int, height: int) -> Stamped
    decreases list.len(),
{
    if list.len() == 0 {
        s
    } else {
        let (x, y, ch) = list.last();
        stamp(stamp_all(s, list.drop_last(), width, height), width, height, x, y, ch)
    }
}

/// The glyphs of a `tw` by `th` template, row by row, each with where it
/// goes when the template's corner is put at `(cx, cy)`.
pub open spec fn template_cells(cells: Seq<char>, tw: int, th: int, cx: int, cy: int) -> Seq<(int, int, char)> {
    Seq::new((tw * th) as nat, |k: int| (cx + k % tw, cy + k / tw, cells[k]))
}

/// The glyphs of a REX Paint layer, each code point cut to a byte.
pub open spec fn rex_chars(layer: RexLayer) -> Seq<char> {
    Seq::new(layer.glyphs@.len(), |k: int| (layer.glyphs@[k] as u8) as char)
}

/// Lays the first `m` layers of a REX Paint image, one after the other.
pub open spec fn stamp_layers(s: Stamped, layers: Seq<RexLayer>, m: int, width: int, height: int) -> Stamped
    decreases m,
{
    if m <= 0 {
        s
    } else {
        let l = layers[m - 1];
        stamp_all(stamp_layers(s, layers, m - 1, width, height),
            template_cells(rex_chars(l), l.width as int, l.height as int, 0, 0), width, height)
    }
}

/// The column where a section goes.
pub open spec fn chunk_x(section: PrefabSection, map_width: int) -> int {
    match section.placement.0 {
        HorizontalPlacement::Left => 0,
        HorizontalPlacement::Center => (map_width - section.width) / 2,
        HorizontalPlacement::Right => map_width - 1 - section.width,
    }
}

/// The row where a section goes.
pub open spec fn chunk_y(section: PrefabSection, map_height: int) -> int {
    match section.placement.1 {
        VerticalPlacement::Top => 0,
        VerticalPlacement::Center => (map_height - section.height) / 2,
        VerticalPlacement::Bottom => map_height - 1 - section.height,
    }
}

/// A builder that lays down a level, or a section of one, drawn by hand.
pub struct PrefabBuilder {
    pub map: TileMap,
    pub starting_position: Position,
    pub history: Vec<TileMap>,
    pub mode: PrefabMode,
    pub spawn_list: Vec<(usize, String)>,
}

impl PrefabBuilder {
    /// What the builder has laid down so far.
    pub open spec fn stamped(&self) -> Stamped {
        Stamped {
            tiles: self.map.tiles@,
            start: self.starting_position,
            spawns: self.spawn_list@.map_values(|e: (usize, String)| (e.0, e.1@)),
        }
    }

    /// A builder in the given mode over a fresh `width` by `height` map of walls.
    pub fn new(depth: i32, width: i32, height: i32, mode: PrefabMode) -> (r: PrefabBuilder)
        requires
            0 <= width <= 0x4000,
            0 <= height <= 0x4000,
            width * height <= max_cells(),
        ensures
            r.map.wf(),
            r.map.depth == depth,
            r.map.width == width,
            r.map.height == height,
            r.starting_position == (Position { x: 0, y: 0 }),
            r.history@.len() == 0,
            r.mode == mode,
            r.spawn_list@.len() == 0,
    {
        PrefabBuilder {
            map: TileMap::new(depth, width, height, String::new()),
            starting_position: Position { x: 0, y: 0 },
            history: Vec::new(),
            mode,
            spawn_list: Vec::new(),
        }
    }

    /// Records a copy of the map, fully revealed, in the history.
    pub fn take_snapshot(&mut self)
        ensures
            final(self).map == old(self).map,
            final(self).starting_position == old(self).starting_position,
            final(self).mode == old(self).mode,
            final(self).spawn_list == old(self).spawn_list,
            final(self).history@.len() == old(self).history@.len() + 1,
            final(self).history@.subrange(0, old(self).history@.len() as int) == old(self).history@,
            final(self).history@.last().tiles@ == old(self).map.tiles@,
    {
        let mut snapshot = self.map.duplicate();
        let n = snapshot.revealed_tiles.len();
        for i in 0..n
            invariant
                n == snapshot.revealed_tiles.len(),
                snapshot.tiles@ == self.map.tiles@,
        {
            snapshot.revealed_tiles.set(i, true);
        }
        self.history.push(snapshot);
    }

    /// Lays glyph `ch` on map cell `idx`: its tile (floor under the start
    /// and under what spawns), the start for `'@'`, and what it spawns.
    /// Glyphs that stand for nothing leave everything as it was.
    pub fn char_to_map(&mut self, ch: char, idx: usize)
        requires
            old(self).map.wf(),
            idx < old(self).map.tiles@.len(),
        ensures
            final(self).map.wf(),
            only_tiles_changed(&old(self).map, &final(self).map),
            final(self).mode == old(self).mode,
            final(self).history == old(self).history,
            final(self).stamped() == stamp(old(self).stamped(), old(self).map.width as int, old(self).map.height as int,
                idx as int % old(self).map.width as int, idx as int / old(self).map.width as int, ch),
    {
        let ghost (w, h) = (self.map.width as int, self.map.height as int);
        proof {
            lemma_index_cell(w, h, idx as int);
        }
        let ghost s0 = self.stamped();
        let ghost sl0 = self.spawn_list@;
        if ch == ' ' || ch == '@' || ch == 'g' || ch == 'o' || ch == '^' || ch == '%' || ch == '!' {
            self.map.set_tile(idx, TileType::Floor);
        } else if ch == '#' {
            self.map.set_tile(idx, TileType::Wall);
        } else if ch == '>' {
            self.map.set_tile(idx, TileType::DownStairs);
        }
        if ch == '@' {
            let x = idx as i32 % self.map.width;
            let y = idx as i32 / self.map.width;
            self.starting_position = Position { x, y };
        } else if ch == 'g' {
            self.spawn_list.push((idx, String::from_str("Goblin")));
        } else if ch == 'o' {
            self.spawn_list.push((idx, String::from_str("Orc")));
        } else if ch == '^' {
            self.spawn_list.push((idx, String::from_str("Bear Trap")));
        } else if ch == '%' {
            self.spawn_list.push((idx, String::from_str("Rations")));
        } else if ch == '!' {
            self.spawn_list.push((idx, String::from_str("Health Potion")));
        }
        proof {
            let x = idx as int % w;
            let y = idx as int / w;
            assert(y * w + x == idx);
            assert(self.stamped().spawns =~= stamp(s0, w, h, x, y, ch).spawns);
            assert(self.stamped().tiles =~= stamp(s0, w, h, x, y, ch).tiles);
        }
    }

    /// Lays the glyphs of a `tw` by `th` template, row by row, with its
    /// corner at `(cx, cy)`; those that fall off the map are skipped.
    fn stamp_template(&mut self, cells: &Vec<char>, tw: usize, th: usize, cx: i32, cy: i32)
        requires
            old(self).map.wf(),
            0 <= cx,
            0 <= cy,
            cx + tw <= i32::MAX,
            cy + th <= i32::MAX,
            tw * th <= cells@.len(),
        ensures
            final(self).map.wf(),
            only_tiles_changed(&old(self).map, &final(self).map),
            final(self).mode == old(self).mode,
            final(self).history == old(self).history,
            final(self).stamped() == stamp_all(old(self).stamped(), template_cells(cells@, tw as int, th as int, cx as int, cy as int),
                old(self).map.width as int, old(self).map.height as int),
    {
        let ghost (w, h) = (self.map.width as int, self.map.height as int);
        let ghost m0 = self.map;
        let ghost s0 = self.stamped();
        let ghost list = template_cells(cells@, tw as int, th as int, cx as int, cy as int);
        let cn = cells.len();
        let mut i: usize = 0;
        proof {
            assert(list.take(0) =~= Seq::<(int, int, char)>::empty());
            assert(0 * tw == 0) by (nonlinear_arith);
        }
        for ty in 0..th
            invariant
                self.map.wf(),
                only_tiles_changed(&m0, &self.map),
                self.mode == old(self).mode,
                self.history == old(self).history,
                w == self.map.width,
                h == self.map.height,
                0 <= cx,
                0 <= cy,
                cx + tw <= i32::MAX,
                cy + th <= i32::MAX,
                tw * th <= cells@.len(),
                list == template_cells(cells@, tw as int, th as int, cx as int, cy as int),
                cn == cells@.len(),
                i == ty * tw,
                self.stamped() == stamp_all(s0, list.take(i as int), w, h),
        {
            proof {
                assert(ty * tw + tw <= tw * th) by (nonlinear_arith)
                    requires ty < th;
            }
            for tx in 0..tw
                invariant
                    self.map.wf(),
                    only_tiles_changed(&m0, &self.map),
                    self.mode == old(self).mode,
                    self.history == old(self).history,
                    w == self.map.width,
                    h == self.map.height,
                    0 <= cx,
                    0 <= cy,
                    cx + tw <= i32::MAX,
                    cy + th <= i32::MAX,
                    ty < th,
                    ty * tw + tw <= tw * th,
                    tw * th <= cells@.len(),
                    list == template_cells(cells@, tw as int, th as int, cx as int, cy as int),
                    i == ty * tw + tx,
                    self.stamped() == stamp_all(s0, list.take(i as int), w, h),
                    cn == cells@.len(),
            {
                let x = cx + tx as i32;
                let y = cy + ty as i32;
                proof {
                    vstd::arithmetic::div_mod::lemma_fundamental_div_mod_converse(i as int, tw as int, ty as int, tx as int);
                    assert(list.take(i + 1).drop_last() =~= list.take(i as int));
                    assert(list.take(i + 1).last() == list[i as int]);
                    assert(list[i as int] == (x as int, y as int, cells@[i as int]));
                }
                if x < self.map.width && y < self.map.height {
                    proof { lemma_cell_index(w, h, x as int, y as int); }
                    let idx = self.map.xy_idx(x, y);
                    proof {
                        vstd::arithmetic::div_mod::lemma_fundamental_div_mod_converse(idx as int, w, y as int, x as int);
                    }
                    self.char_to_map(cells[i], idx);
                }
                i = i + 1;
            }
            proof {
                assert((ty + 1) * tw == ty * tw + tw) by (nonlinear_arith);
            }
        }
        proof {
            assert(th * tw == tw * th) by (nonlinear_arith);
            assert(list.take(i as int) =~= list);
        }
    }

    /// Lays down a level drawn as text, from its top left corner.
    pub fn load_ascii_map(&mut self, level: &PrefabLevel)
        requires
            old(self).map.wf(),
            level.width <= i32::MAX,
            level.height <= i32::MAX,
            level.template@.len() + level.width * level.template@.len() + level.width <= usize::MAX,
            level.width * level.height <= ascii_cells(level.template@, level.width as nat).len(),
        ensures
            final(self).map.wf(),
            only_tiles_changed(&old(self).map, &final(self).map),
            final(self).mode == old(self).mode,
            final(self).history == old(self).history,
            final(self).stamped() == stamp_all(old(self).stamped(),
                template_cells(ascii_cells(level.template@, level.width as nat), level.width as int, level.height as int, 0, 0),
                old(self).map.width as int, old(self).map.height as int),
    {
        let string_vec = read_ascii_to_vec(level.template, level.width);
        self.stamp_template(&string_vec, level.width, level.height, 0, 0);
    }

    /// Lays down the layers of a REX Paint image one after the other, each
    /// glyph's code point cut to a byte.
    pub fn load_rex_map(&mut self, layers: &Vec<RexLayer>)
        requires
            old(self).map.wf(),
            forall|l: int| 0 <= l < layers@.len() ==> {
                &&& (#[trigger] layers@[l]).width * layers@[l].height <= layers@[l].glyphs@.len()
                &&& layers@[l].width <= i32::MAX
                &&& layers@[l].height <= i32::MAX
            },
        ensures
            final(self).map.wf(),
            only_tiles_changed(&old(self).map, &final(self).map),
            final(self).mode == old(self).mode,
            final(self).history == old(self).history,
            final(self).stamped() == stamp_layers(old(self).stamped(), layers@, layers@.len() as int,
                old(self).map.width as int, old(self).map.height as int),
    {
        let ghost (w, h) = (self.map.width as int, self.map.height as int);
        let ghost m0 = self.map;
        let ghost s0 = self.stamped();
        for l in 0..layers.len()
            invariant
                self.map.wf(),
                only_tiles_changed(&m0, &self.map),
                self.mode == old(self).mode,
                self.history == old(self).history,
                w == self.map.width,
                h == self.map.height,
                forall|l: int| 0 <= l < layers@.len() ==> {
                    &&& (#[trigger] layers@[l]).width * layers@[l].height <= layers@[l].glyphs@.len()
                    &&& layers@[l].width <= i32::MAX
                    &&& layers@[l].height <= i32::MAX
                },
                self.stamped() == stamp_layers(s0, layers@, l as int, w, h),
        {
            let layer = &layers[l];
            let mut chars: Vec<char> = Vec::new();
            for k in 0..layer.glyphs.len()
                invariant
                    chars@ == rex_chars(*layer).take(k as int),
            {
                chars.push((layer.glyphs[k] as u8) as char);
                proof {
                    assert(chars@ =~= rex_chars(*layer).take(k + 1));
                }
            }
            proof {
                assert(chars@ =~= rex_chars(*layer));
            }
            self.stamp_template(&chars, layer.width, layer.height, 0, 0);
        }
    }

    /// Stamps a section onto the map that another builder made, taking over
    /// that map and its start: the section's corner goes where its placement
    /// says, and the glyphs that fall off the map are skipped.
    pub fn apply_sectional(&mut self, section: &PrefabSection, previous_map: TileMap, previous_start: Position)
        requires
            previous_map.wf(),
            0 <= chunk_x(*section, previous_map.width as int),
            0 <= chunk_y(*section, previous_map.height as int),
            chunk_x(*section, previous_map.width as int) + section.width <= i32::MAX,
            chunk_y(*section, previous_map.height as int) + section.height <= i32::MAX,
            section.template@.len() + section.width * section.template@.len() + section.width <= usize::MAX,
            section.width * section.height <= ascii_cells(section.template@, section.width as nat).len(),
        ensures
            final(self).map.wf(),
            only_tiles_changed(&previous_map, &final(self).map),
            final(self).mode == old(self).mode,
            final(self).history@.len() == old(self).history@.len() + 1,
            final(self).stamped() == stamp_all(
                Stamped {
                    tiles: previous_map.tiles@,
                    start: previous_start,
                    spawns: old(self).spawn_list@.map_values(|e: (usize, String)| (e.0, e.1@)),
                },
                template_cells(ascii_cells(section.template@, section.width as nat), section.width as int, section.height as int,
                    chunk_x(*section, previous_map.width as int), chunk_y(*section, previous_map.height as int)),
                previous_map.width as int, previous_map.height as int),
    {
        self.starting_position = previous_start;
        self.map = previous_map;
        self.take_snapshot();
        let string_vec = read_ascii_to_vec(section.template, section.width);
        let cx = match section.placement.0 {
            HorizontalPlacement::Left => 0,
            HorizontalPlacement::Center => (self.map.width - section.width as i32) / 2,
            HorizontalPlacement::Right => self.map.width - 1 - section.width as i32,
        };
        let cy = match section.placement.1 {
            VerticalPlacement::Top => 0,
            VerticalPlacement::Center => (self.map.height - section.height as i32) / 2,
            VerticalPlacement::Bottom => self.map.height - 1 - section.height as i32,
        };
        self.stamp_template(&string_vec, section.width, section.height, cx, cy);
    }

    /// Lays down what the mode says (the layers of the REX Paint image that
    /// a `RexLevel` names, a text level, or a section on the map and start
    /// of the builder before this one) and records a snapshot of the result
    /// (a section first records one of the map it takes over). Gives back
    /// whether the start is still at column 0, where the caller sets a
    /// central start, culls what cannot be reached and places the stairs.
    pub fn build(&mut self, layers: &Vec<RexLayer>, previous: Option<(TileMap, Position)>) -> (r: bool)
        requires
            old(self).map.wf(),
            match old(self).mode {
                PrefabMode::RexLevel { .. } => forall|l: int| 0 <= l < layers@.len() ==> {
                    &&& (#[trigger] layers@[l]).width * layers@[l].height <= layers@[l].glyphs@.len()
                    &&& layers@[l].width <= i32::MAX
                    &&& layers@[l].height <= i32::MAX
                },
                PrefabMode::Constant { level } => {
                    &&& level.width <= i32::MAX
                    &&& level.height <= i32::MAX
                    &&& level.template@.len() + level.width * level.template@.len() + level.width <= usize::MAX
                    &&& level.width * level.height <= ascii_cells(level.template@, level.width as nat).len()
                },
                PrefabMode::Sectional { section } => match previous {
                    Some((pm, _)) => {
                        &&& pm.wf()
                        &&& 0 <= chunk_x(section, pm.width as int)
                        &&& 0 <= chunk_y(section, pm.height as int)
                        &&& chunk_x(section, pm.width as int) + section.width <= i32::MAX
                        &&& chunk_y(section, pm.height as int) + section.height <= i32::MAX
                        &&& section.template@.len() + section.width * section.template@.len() + section.width <= usize::MAX
                        &&& section.width * section.height <= ascii_cells(section.template@, section.width as nat).len()
                    },
                    None => false,
                },
            },
        ensures
            final(self).map.wf(),
            final(self).mode == old(self).mode,
            r == (final(self).starting_position.x == 0),
            final(self).history@.len() == old(self).history@.len() + (if old(self).mode is Sectional { 2int } else { 1int }),
            final(self).history@.last().tiles@ == final(self).map.tiles@,
            match old(self).mode {
                PrefabMode::RexLevel { .. } => {
                    &&& only_tiles_changed(&old(self).map, &final(self).map)
                    &&& final(self).stamped() == stamp_layers(old(self).stamped(), layers@, layers@.len() as int,
                        old(self).map.width as int, old(self).map.height as int)
                },
                PrefabMode::Constant { level } => {
                    &&& only_tiles_changed(&old(self).map, &final(self).map)
                    &&& final(self).stamped() == stamp_all(old(self).stamped(),
                        template_cells(ascii_cells(level.template@, level.width as nat), level.width as int, level.height as int, 0, 0),
                        old(self).map.width as int, old(self).map.height as int)
                },
                PrefabMode::Sectional { section } => match previous {
                    Some((pm, ps)) => {
                        &&& only_tiles_changed(&pm, &final(self).map)
                        &&& final(self).stamped() == stamp_all(
                            Stamped {
                                tiles: pm.tiles@,
                                start: ps,
                                spawns: old(self).spawn_list@.map_values(|e: (usize, String)| (e.0, e.1@)),
                            },
                            template_cells(ascii_cells(section.template@, section.width as nat), section.width as int, section.height as int,
                                chunk_x(section, pm.width as int), chunk_y(section, pm.height as int)),
                            pm.width as int, pm.height as int)
                    },
                    None => false,
                },
            },
    {
        match self.mode {
            PrefabMode::RexLevel { .. } => self.load_rex_map(layers),
            PrefabMode::Constant { level } => self.load_ascii_map(&level),
            PrefabMode::Sectional { section } => {
                match previous {
                    Some((pm, ps)) => self.apply_sectional(&section, pm, ps),
                    None => {}
                }
            }
        }
        self.take_snapshot();
        self.starting_position.x == 0
    }
}


/// The lines padded one after the other make up `width` characters for
/// each line that fits the width.
pub proof fn lemma_padded_rows_len(lines: Seq<Seq<char>>, width: nat)
    requires
        forall|k: int| 0 <= k < lines.len() ==> (#[trigger] lines[k]).len() <= width,
    ensures
        padded_rows(lines, width).len() == lines.len() * width,
    decreases lines.len(),
{
    if lines.len() > 0 {
        lemma_padded_rows_len(lines.drop_first(), width);
        assert(lines.len() * width == width + (lines.len() - 1) * width) by (nonlinear_arith);
    }
}

/// A text map whose lines all fit the width gives a cell for each place of
/// a grid as wide as the width and as tall as the number of lines.
pub proof fn lemma_ascii_cells_len(template: Seq<char>, width: nat)
    requires
        forall|k: int| 0 <= k < lines_from(template, seq![]).len() ==> (#[trigger] lines_from(template, seq![])[k]).len() <= width,
    ensures
        ascii_cells(template, width).len() == lines_from(template, seq![]).len() * width,
{
    lemma_padded_rows_len(lines_from(template, seq![]), width);
}

} // verus!
