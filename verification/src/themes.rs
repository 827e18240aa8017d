use vstd::prelude::*;
use crate::map::{TileMap, lemma_cell_index};
use crate::tile::TileType;

verus! {

/// The cell `(x, y)` is on the map, is wall and has been seen.
pub open spec fn spec_revealed_wall(map: &TileMap, x: int, y: int) -> bool {
    map.in_bounds(x, y) && map.tile_at(x, y) is Wall && map.revealed_tiles@[map.idx(x, y)]
}

/// Whether `(x, y)` is a wall cell that has been seen.
pub fn is_revealed_and_wall(map: &TileMap, x: i32, y: i32) -> (r: bool)
    requires
        map.wf(),
    ensures
        r == spec_revealed_wall(map, x as int, y as int),
{
    if x < 0 || x >= map.width || y < 0 || y >= map.height {
        return false;
    }
    proof { lemma_cell_index(map.width as int, map.height as int, x as int, y as int); }
    let idx = map.xy_idx(x, y);
    map.tiles[idx] == TileType::Wall && map.revealed_tiles[idx]
}

/// Which seen walls surround `(x, y)`: 1 north, 2 south, 4 west, 8 east.
pub open spec fn wall_mask(map: &TileMap, x: int, y: int) -> int {
    (if spec_revealed_wall(map, x, y - 1) { 1int } else { 0 })
        + (if spec_revealed_wall(map, x, y + 1) { 2int } else { 0 })
        + (if spec_revealed_wall(map, x - 1, y) { 4int } else { 0 })
        + (if spec_revealed_wall(map, x + 1, y) { 8int } else { 0 })
}

/// The code page 437 line-drawing glyph joining a wall to the seen walls
/// around it given by the mask.
pub open spec fn mask_glyph(mask: int) -> u16 {
    if mask == 0 { 9 }
    else if mask == 1 || mask == 2 || mask == 3 { 186 }
    else if mask == 4 || mask == 8 || mask == 12 { 205 }
    else if mask == 5 { 188 }
    else if mask == 6 { 187 }
    else if mask == 7 { 185 }
    else if mask == 9 { 200 }
    else if mask == 10 { 201 }
    else if mask == 11 { 204 }
    else if mask == 13 { 202 }
    else if mask == 14 { 203 }
    else if mask == 15 { 206 }
    else { 35 }
}

/// The glyph for the wall at `(x, y)`: a pillar when no seen wall is next to
/// it, else the line-drawing piece that joins it to its seen neighbours
/// (`#` off the map).
pub fn wall_glyph(map: &TileMap, x: i32, y: i32) -> (r: u16)
    requires
        map.wf(),
    ensures
        r == (if map.in_bounds(x as int, y as int) { mask_glyph(wall_mask(map, x as int, y as int)) } else { 35 }),
{
    if x < 0 || x >= map.width || y < 0 || y >= map.height {
        return 35;
    }
    let mut mask: u8 = 0;
    if is_revealed_and_wall(map, x, y - 1) { mask = mask + 1; }
    if is_revealed_and_wall(map, x, y + 1) { mask = mask + 2; }
    if is_revealed_and_wall(map, x - 1, y) { mask = mask + 4; }
    if is_revealed_and_wall(map, x + 1, y) { mask = mask + 8; }
    match mask {
        0 => 9,
        1 => 186,
        2 => 186,
        3 => 186,
        4 => 205,
        5 => 188,
        6 => 187,
        7 => 185,
        8 => 205,
        9 => 200,
        10 => 201,
        11 => 204,
        12 => 205,
        13 => 202,
        14 => 203,
        15 => 206,
        _ => 35,
    }
}

/// The character drawn for a tile kind other than wall.
pub open spec fn spec_tile_char(t: TileType) -> char {
    match t {
        TileType::Floor => '.',
        TileType::WoodFloor => '░',
        TileType::Wall => '#',
        TileType::DownStairs => '>',
        TileType::UpStairs => '<',
        TileType::Bridge => '▒',
        TileType::Road => '≡',
        TileType::Grass => '"',
        TileType::ShallowWater => '~',
        TileType::DeepWater => '~',
        TileType::Gravel => ';',
    }
}

/// Tiles can be told apart on screen: two kinds of tile are drawn with the
/// same character only when both are water (shallow or deep, which differ
/// by colour); stairs point the way they lead, `>` down and `<` up; floor
/// is a dot and walls (off the map's grid) a hash.
pub proof fn lemma_tile_chars_tell_tiles_apart(a: TileType, b: TileType)
    ensures
        spec_tile_char(a) == spec_tile_char(b) ==> a == b
            || ((a is ShallowWater || a is DeepWater) && (b is ShallowWater || b is DeepWater)),
        spec_tile_char(TileType::DownStairs) == '>',
        spec_tile_char(TileType::UpStairs) == '<',
        spec_tile_char(TileType::Floor) == '.',
        spec_tile_char(TileType::Wall) == '#',
{
}

/// The character a tile kind is drawn with (walls get their joining glyph
/// from [`wall_glyph`] instead).
pub fn tile_char(t: TileType) -> (r: char)
    ensures
        r == spec_tile_char(t),
{
    match t {
        TileType::Floor => '.',
        TileType::WoodFloor => '░',
        TileType::Wall => '#',
        TileType::DownStairs => '>',
        TileType::UpStairs => '<',
        TileType::Bridge => '▒',
        TileType::Road => '≡',
        TileType::Grass => '"',
        TileType::ShallowWater => '~',
        TileType::DeepWater => '~',
        TileType::Gravel => ';',
    }
}

} // verus!

verus! {

/// The code page 437 glyph that `rltk::to_cp437` gives for a character.
pub uninterp spec fn cp437(c: char) -> u16;

/// `rltk::to_cp437(c)`: the source looks the character up in a table of
/// code page 437; every printable ASCII character, `' '` to `'~'`, has its
/// own code there. The table as a whole is named [`cp437`].
#[verifier::external_body]
pub(crate) fn to_cp437(c: char) -> (r: u16)
    ensures
        r == cp437(c),
        ' ' <= c <= '~' ==> r == c as u16,
{
    rltk::to_cp437(c)
}

/// The colour a tile is drawn in, before it is greyed out.
#[derive(Clone, Copy, Debug, PartialEq, Eq, Structural)]
pub enum TileColor {
    /// Floor.
    Teal,
    /// Wooden floor and bridges.
    Chocolate,
    /// Walls.
    BrightGreen,
    /// Stairs.
    BrightCyan,
    /// Roads and gravel.
    Gray,
    /// Grass.
    Green,
    /// Shallow water.
    Cyan,
    /// Deep water.
    Blue,
}

/// How a map cell is drawn: its glyph, its colour, whether a bloodstain
/// reddens its background, and whether it is greyed out as out of sight.
#[derive(Clone, Copy, Debug, PartialEq, Eq, Structural)]
pub struct TileLook {
    pub glyph: u16,
    pub fg: TileColor,
    pub blood: bool,
    pub greyscale: bool,
}

/// The colour of a tile of the given kind.
pub open spec fn spec_tile_color(t: TileType) -> TileColor {
    match t {
        TileType::Floor => TileColor::Teal,
        TileType::WoodFloor | TileType::Bridge => TileColor::Chocolate,
        TileType::Wall => TileColor::BrightGreen,
        TileType::DownStairs | TileType::UpStairs => TileColor::BrightCyan,
        TileType::Road | TileType::Gravel => TileColor::Gray,
        TileType::Grass => TileColor::Green,
        TileType::ShallowWater => TileColor::Cyan,
        TileType::DeepWater => TileColor::Blue,
    }
}

/// How cell `idx` of the map is drawn: a wall by the walls around it, any
/// other tile by its character; the background red with blood where the
/// cell is in sight and stained; the colours greyed where it is not in sight.
pub fn tile_glyph(idx: usize, map: &TileMap) -> (r: TileLook)
    requires
        map.wf(),
        idx < map.tiles@.len(),
    ensures
        r.glyph == (if map.tiles@[idx as int] is Wall {
            mask_glyph(wall_mask(map, idx as int % map.width as int, idx as int / map.width as int))
        } else {
            cp437(spec_tile_char(map.tiles@[idx as int]))
        }),
        r.fg == spec_tile_color(map.tiles@[idx as int]),
        r.blood == (map.visible_tiles@[idx as int] && map.bloodstains@.contains(idx)),
        r.greyscale == !map.visible_tiles@[idx as int],
{
    let t = map.tiles[idx];
    proof {
        if map.width <= 0 {
            assert(map.width * map.height == 0) by (nonlinear_arith)
                requires map.width == 0;
        }
        crate::map::lemma_index_cell(map.width as int, map.height as int, idx as int);
    }
    let glyph = if t == TileType::Wall {
        let x = idx as i32 % map.width;
        let y = idx as i32 / map.width;
        wall_glyph(map, x, y)
    } else {
        to_cp437(tile_char(t))
    };
    let fg = match t {
        TileType::Floor => TileColor::Teal,
        TileType::WoodFloor | TileType::Bridge => TileColor::Chocolate,
        TileType::Wall => TileColor::BrightGreen,
        TileType::DownStairs | TileType::UpStairs => TileColor::BrightCyan,
        TileType::Road | TileType::Gravel => TileColor::Gray,
        TileType::Grass => TileColor::Green,
        TileType::ShallowWater => TileColor::Cyan,
        TileType::DeepWater => TileColor::Blue,
    };
    let visible = map.visible_tiles[idx];
    let blood = visible && map.bloodstains.contains(&idx);
    TileLook { glyph, fg, blood, greyscale: !visible }
}

} // verus!
