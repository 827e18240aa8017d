use vstd::prelude::*;
use crate::map::TileMap;
use crate::point::Point;

verus! {

/// A rational slope `num / den`, kept with a positive denominator.
#[derive(Clone, Copy, Debug, PartialEq, Eq, Structural)]
pub struct Slope {
    pub num: i32,
    pub den: i32,
}

/// A slope between -1 and 1 whose denominator is at most `lim`.
pub open spec fn slope_ok(s: Slope, lim: int) -> bool {
    &&& 0 < s.den <= lim
    &&& -s.den <= s.num <= s.den
}

pub open spec fn abs(v: int) -> int {
    if v < 0 { -v } else { v }
}

/// `num_rational::Ratio::new`: the crate's source reduces the fraction by the
/// greatest common divisor and makes the denominator positive, so the result
/// is the same rational, with a positive denominator no larger than `den` and
/// a numerator no larger than `num` in magnitude.
#[verifier::external_body]
fn ratio_new(num: i32, den: i32) -> (r: Slope)
    requires
        den != 0,
        num != i32::MIN,
        den != i32::MIN,
    ensures
        0 < r.den <= abs(den as int),
        abs(r.num as int) <= abs(num as int),
        r.num * den == num * r.den,
{
    let q = num_rational::Ratio::new(num, den);
    Slope { num: *q.numer(), den: *q.denom() }
}

/// `num_rational::Ratio` multiplication of the integer `k` by `s`: the source
/// divides out common factors before multiplying and reduces the product, so
/// the result is the rational `k * s`, with a positive denominator no larger
/// than that of `s` and a numerator no larger than `k * s.num` in magnitude.
#[verifier::external_body]
fn ratio_scale(k: i32, s: Slope) -> (r: Slope)
    requires
        0 <= k,
        0 < s.den,
        abs(k * s.num) <= i32::MAX,
        s.num != i32::MIN,
    ensures
        0 < r.den <= s.den,
        abs(r.num as int) <= abs(k * s.num),
        r.num * s.den == k * s.num * r.den,
{
    let q = num_rational::Ratio::from_integer(k) * num_rational::Ratio::new_raw(s.num, s.den);
    Slope { num: *q.numer(), den: *q.denom() }
}

/// The `<=` of `num_rational::Ratio`, which the source computes exactly
/// (comparing floored quotients, then remainders), so it is the order of the
/// rationals.
#[verifier::external_body]
fn ratio_le(a: Slope, b: Slope) -> (r: bool)
    requires
        0 < a.den,
        0 < b.den,
    ensures
        r == (a.num * b.den <= b.num * a.den),
{
    num_rational::Ratio::new_raw(a.num, a.den) <= num_rational::Ratio::new_raw(b.num, b.den)
}

/// The value of `num / den` rounded to the nearest integer, halves rounded up.
pub open spec fn round_half_up(num: int, den: int) -> int {
    (2 * num + den) / (2 * den)
}

/// The value of `num / den` rounded to the nearest integer, halves rounded down.
pub open spec fn round_half_down(num: int, den: int) -> int {
    -((den - 2 * num) / (2 * den))
}

/// `a / b` rounded down, for a positive `b`.
fn floor_div(a: i32, b: i32) -> (r: i32)
    requires
        0 < b <= 0x10_0000,
        -0x7000_0000 <= a <= 0x7000_0000,
    ensures
        r == a / b,
{
    if a >= 0 {
        a / b
    } else {
        let q = (-a + b - 1) / b;
        proof {
            let t = -a + b - 1;
            vstd::arithmetic::div_mod::lemma_fundamental_div_mod(t, b as int);
            vstd::arithmetic::div_mod::lemma_fundamental_div_mod(a as int, b as int);
            let qq = t / (b as int);
            let rr = t % (b as int);
            assert(a == -(b * qq) + (b - 1 - rr));
            assert((-qq) * b == -(b * qq)) by (nonlinear_arith);
            assert(a / b == -qq) by {
                vstd::arithmetic::div_mod::lemma_fundamental_div_mod_converse(a as int, b as int, -qq, b - 1 - rr);
            }
        }
        -q
    }
}

/// The bounds that rounding keeps: a value between `-d` and `d` rounds into that range.
proof fn lemma_round_bounds(num: int, den: int, d: int)
    requires
        0 < den,
        0 <= d,
        -d * den <= num <= d * den,
    ensures
        -d <= round_half_up(num, den) <= d,
        -d <= round_half_down(num, den) <= d,
{
    let b = 2 * den;
    vstd::arithmetic::div_mod::lemma_fundamental_div_mod(2 * num + den, b);
    vstd::arithmetic::div_mod::lemma_fundamental_div_mod(den - 2 * num, b);
    let q1 = (2 * num + den) / b;
    let q2 = (den - 2 * num) / b;
    let r1 = (2 * num + den) % b;
    let r2 = (den - 2 * num) % b;
    assert(-d <= q1 <= d) by (nonlinear_arith)
        requires
            2 * num + den == b * q1 + r1,
            0 <= r1 < b,
            b == 2 * den,
            0 < den,
            -d * den <= num <= d * den,
    ;
    assert(-d <= q2 <= d) by (nonlinear_arith)
        requires
            den - 2 * num == b * q2 + r2,
            0 <= r2 < b,
            b == 2 * den,
            0 < den,
            -d * den <= num <= d * den,
    ;
}

/// Rounding the product of `d` and `n`, halves up.
pub fn round_ties_up(d: usize, n: Slope) -> (r: i32)
    requires
        d <= 20000,
        slope_ok(n, 40000),
    ensures
        exists|m: Slope| m.num * n.den == d * n.num * m.den && 0 < m.den && r == round_half_up(m.num as int, m.den as int),
        -(d as int) <= r <= d,
{
    proof {
        assert(abs(d * n.num) <= 800_000_000) by (nonlinear_arith)
            requires d <= 20000, -n.den <= n.num <= n.den, n.den <= 40000;
    }
    let m = ratio_scale(d as i32, n);
    proof {
        assert(-d * m.den <= m.num <= d * m.den) by (nonlinear_arith)
            requires
                m.num * n.den == d * n.num * m.den,
                0 < m.den,
                0 < n.den,
                -n.den <= n.num <= n.den,
                d >= 0,
        ;
        lemma_round_bounds(m.num as int, m.den as int, d as int);
    }
    floor_div(2 * m.num + m.den, 2 * m.den)
}

/// Rounding the product of `d` and `n`, halves down.
pub fn round_ties_down(d: usize, n: Slope) -> (r: i32)
    requires
        d <= 20000,
        slope_ok(n, 40000),
    ensures
        exists|m: Slope| m.num * n.den == d * n.num * m.den && 0 < m.den && r == round_half_down(m.num as int, m.den as int),
        -(d as int) <= r <= d,
{
    proof {
        assert(abs(d * n.num) <= 800_000_000) by (nonlinear_arith)
            requires d <= 20000, -n.den <= n.num <= n.den, n.den <= 40000;
    }
    let m = ratio_scale(d as i32, n);
    proof {
        assert(-d * m.den <= m.num <= d * m.den) by (nonlinear_arith)
            requires
                m.num * n.den == d * n.num * m.den,
                0 < m.den,
                0 < n.den,
                -n.den <= n.num <= n.den,
                d >= 0,
        ;
        lemma_round_bounds(m.num as int, m.den as int, d as int);
    }
    -floor_div(m.den - 2 * m.num, 2 * m.den)
}

/// The four directions the field of view is scanned in.
#[derive(Clone, Copy, Debug, PartialEq, Eq, Structural)]
pub enum Cardinal {
    North,
    East,
    South,
    West,
}

/// One quarter of the view around an origin; tiles in it are addressed by
/// their row (distance from the origin) and column (offset across).
#[derive(Clone, Copy, Debug, PartialEq, Eq, Structural)]
pub struct Quadrant {
    pub cardinal: Cardinal,
    pub ox: i32,
    pub oy: i32,
}

/// Coordinates far enough from the limits of `i32` for a view of up to 10000
/// cells around them.
pub open spec fn origin_ok(x: int, y: int) -> bool {
    -0x7000_0000 <= x <= 0x7000_0000 && -0x7000_0000 <= y <= 0x7000_0000
}

/// The map position of the tile at `(row, col)` of the quadrant.
pub open spec fn spec_transform(q: Quadrant, row: int, col: int) -> (int, int) {
    match q.cardinal {
        Cardinal::North => (q.ox + col, q.oy - row),
        Cardinal::South => (q.ox + col, q.oy + row),
        Cardinal::East => (q.ox + row, q.oy + col),
        Cardinal::West => (q.ox - row, q.oy + col),
    }
}

impl Quadrant {
    pub fn new(cardinal: Cardinal, origin: Point) -> (r: Quadrant)
        ensures
            r.cardinal == cardinal,
            r.ox == origin.x,
            r.oy == origin.y,
    {
        Quadrant { cardinal, ox: origin.x, oy: origin.y }
    }

    /// The map position of the tile at `(row, col)` of this quadrant.
    pub fn transform(&self, tile: (i32, i32)) -> (r: (i32, i32))
        requires
            origin_ok(self.ox as int, self.oy as int),
            -20000 <= tile.0 <= 20000,
            -20000 <= tile.1 <= 20000,
        ensures
            (r.0 as int, r.1 as int) == spec_transform(*self, tile.0 as int, tile.1 as int),
    {
        let (row, col) = tile;
        match self.cardinal {
            Cardinal::North => (self.ox + col, self.oy - row),
            Cardinal::South => (self.ox + col, self.oy + row),
            Cardinal::East => (self.ox + row, self.oy + col),
            Cardinal::West => (self.ox - row, self.oy + col),
        }
    }
}

/// A row of a quadrant at some distance from the origin, between two slopes.
#[derive(Clone, Copy, Debug, PartialEq, Eq, Structural)]
pub struct Row {
    pub depth: usize,
    pub start_slope: Slope,
    pub end_slope: Slope,
}

/// A row the scan may work on for a view of the given range.
pub open spec fn row_ok(row: Row, range: int) -> bool {
    &&& 1 <= row.depth <= range + 1
    &&& slope_ok(row.start_slope, 20000)
    &&& slope_ok(row.end_slope, 20000)
}

impl Row {
    pub fn new(depth: usize, start_slope: Slope, end_slope: Slope) -> (r: Row)
        ensures
            r.depth == depth,
            r.start_slope == start_slope,
            r.end_slope == end_slope,
    {
        Row { depth, start_slope, end_slope }
    }

    /// The row's depth and the first and last columns it covers.
    pub fn tiles(&self) -> (r: (usize, i32, i32))
        requires
            self.depth <= 20000,
            slope_ok(self.start_slope, 40000),
            slope_ok(self.end_slope, 40000),
        ensures
            r.0 == self.depth,
            -(self.depth as int) <= r.1 <= self.depth,
            -(self.depth as int) <= r.2 <= self.depth,
            exists|m: Slope| m.num * self.start_slope.den == self.depth * self.start_slope.num * m.den && 0 < m.den
                && r.1 == round_half_up(m.num as int, m.den as int),
            exists|m: Slope| m.num * self.end_slope.den == self.depth * self.end_slope.num * m.den && 0 < m.den
                && r.2 == round_half_down(m.num as int, m.den as int),
    {
        let min_col = round_ties_up(self.depth, self.start_slope);
        let max_col = round_ties_down(self.depth, self.end_slope);
        (self.depth, min_col, max_col)
    }

    /// The next row outwards, between the same slopes.
    pub fn next(&self) -> (r: Row)
        requires
            self.depth < usize::MAX,
        ensures
            r.depth == self.depth + 1,
            r.start_slope == self.start_slope,
            r.end_slope == self.end_slope,
    {
        Row::new(self.depth + 1, self.start_slope, self.end_slope)
    }
}

/// The slope from the origin to the left edge of tile `(row, col)`: `(2 col - 1) / (2 row)`.
pub fn slope(tile: (i32, i32)) -> (r: Slope)
    requires
        1 <= tile.0 <= 10000,
        -10000 <= tile.1 <= 10000,
    ensures
        0 < r.den <= 2 * tile.0,
        abs(r.num as int) <= abs(2 * tile.1 - 1),
        r.num * (2 * tile.0) == (2 * tile.1 - 1) * r.den,
{
    let (row_depth, col) = tile;
    ratio_new(2 * col - 1, 2 * row_depth)
}

/// Whether the centre of tile `(row, col)` lies between the row's slopes.
pub fn is_symmetric(row: &Row, tile: (i32, i32)) -> (r: bool)
    requires
        row.depth <= 20000,
        slope_ok(row.start_slope, 40000),
        slope_ok(row.end_slope, 40000),
    ensures
        r == (tile.1 * row.start_slope.den >= row.depth * row.start_slope.num
            && tile.1 * row.end_slope.den <= row.depth * row.end_slope.num),
{
    let (_row_depth, col) = tile;
    proof {
        assert(abs(row.depth * row.start_slope.num) <= 800_000_000) by (nonlinear_arith)
            requires row.depth <= 20000, -row.start_slope.den <= row.start_slope.num <= row.start_slope.den,
                row.start_slope.den <= 40000;
        assert(abs(row.depth * row.end_slope.num) <= 800_000_000) by (nonlinear_arith)
            requires row.depth <= 20000, -row.end_slope.den <= row.end_slope.num <= row.end_slope.den,
                row.end_slope.den <= 40000;
    }
    let lo = ratio_scale(row.depth as i32, row.start_slope);
    let hi = ratio_scale(row.depth as i32, row.end_slope);
    let c = Slope { num: col, den: 1 };
    let r = ratio_le(lo, c) && ratio_le(c, hi);
    proof {
        let d = row.depth as int;
        let s = row.start_slope;
        let e = row.end_slope;
        assert((lo.num * 1 <= col * lo.den) == (col * s.den >= d * s.num)) by (nonlinear_arith)
            requires lo.num * s.den == d * s.num * lo.den, 0 < lo.den, 0 < s.den;
        assert((col * hi.den <= hi.num * 1) == (col * e.den <= d * e.num)) by (nonlinear_arith)
            requires hi.num * e.den == d * e.num * hi.den, 0 < hi.den, 0 < e.den;
    }
    r
}

/// Whether the square at `(x, y)` lies within `range` steps of the origin along both axes.
pub open spec fn in_view_box(p: Point, ox: int, oy: int, range: int) -> bool {
    ox - range <= p.x <= ox + range && oy - range <= p.y <= oy + range
}

/// The tile at `(x, y)` is off the map or blocks sight.
pub open spec fn spec_wall_at(map: &TileMap, x: int, y: int) -> bool {
    !map.in_bounds(x, y) || map.spec_is_opaque(map.idx(x, y))
}

/// Tile `tile` (if any) of the quadrant is off the map or blocks sight.
pub open spec fn blocks_sight(map: &TileMap, q: Quadrant, tile: Option<(i32, i32)>) -> bool {
    tile matches Some(t) && {
        let (x, y) = spec_transform(q, t.0 as int, t.1 as int);
        spec_wall_at(map, x, y)
    }
}

/// Tile `tile` (if any) of the quadrant is on the map and lets sight through.
pub open spec fn lets_sight(map: &TileMap, q: Quadrant, tile: Option<(i32, i32)>) -> bool {
    tile matches Some(t) && {
        let (x, y) = spec_transform(q, t.0 as int, t.1 as int);
        !spec_wall_at(map, x, y)
    }
}

/// Whether `tile` (if any) of the quadrant is off the map or blocks sight.
pub fn is_wall(tile: Option<(i32, i32)>, quadrant: &Quadrant, map: &TileMap) -> (r: bool)
    requires
        map.wf(),
        origin_ok(quadrant.ox as int, quadrant.oy as int),
        tile matches Some(t) ==> -20000 <= t.0 <= 20000 && -20000 <= t.1 <= 20000,
    ensures
        r == blocks_sight(map, *quadrant, tile),
{
    match tile {
        None => false,
        Some(tile) => {
            let (x, y) = quadrant.transform(tile);
            if x < 0 || x >= map.width || y < 0 || y >= map.height {
                return true;
            }
            let idx = map.xy_idx(x, y);
            map.is_opaque(idx)
        },
    }
}

/// Whether `tile` (if any) of the quadrant is on the map and lets sight through.
pub fn is_floor(tile: Option<(i32, i32)>, quadrant: &Quadrant, map: &TileMap) -> (r: bool)
    requires
        map.wf(),
        origin_ok(quadrant.ox as int, quadrant.oy as int),
        tile matches Some(t) ==> -20000 <= t.0 <= 20000 && -20000 <= t.1 <= 20000,
    ensures
        r == lets_sight(map, *quadrant, tile),
{
    match tile {
        None => false,
        Some(tile) => {
            let (x, y) = quadrant.transform(tile);
            if x < 0 || x >= map.width || y < 0 || y >= map.height {
                return false;
            }
            let idx = map.xy_idx(x, y);
            !map.is_opaque(idx)
        },
    }
}

/// Two slopes written alike, or with positive denominators as the same rational.
pub open spec fn same_slope(a: Slope, b: Slope) -> bool {
    ||| a == b
    ||| {
        &&& 0 < a.den
        &&& 0 < b.den
        &&& a.num * b.den == b.num * a.den
    }
}

/// Two rows at the same depth between the same slopes, however written.
pub open spec fn same_row(a: Row, b: Row) -> bool {
    &&& a.depth == b.depth
    &&& same_slope(a.start_slope, b.start_slope)
    &&& same_slope(a.end_slope, b.end_slope)
}

/// The first and last columns of `row`: its depth times its start slope,
/// rounded with halves up, and times its end slope, rounded with halves down.
pub open spec fn row_cols(row: Row) -> (int, int) {
    (round_half_up(row.depth * row.start_slope.num, row.start_slope.den as int),
        round_half_down(row.depth * row.end_slope.num, row.end_slope.den as int))
}

/// The centre of tile `col` of `row` lies between the row's slopes.
pub open spec fn spec_symmetric(row: Row, col: int) -> bool {
    &&& col * row.start_slope.den >= row.depth * row.start_slope.num
    &&& col * row.end_slope.den <= row.depth * row.end_slope.num
}

/// The slope to the left edge of tile `(depth, col)`, written `(2 col - 1) / (2 depth)`.
pub open spec fn edge_slope(depth: int, col: int) -> Slope {
    Slope { num: (2 * col - 1) as i32, den: (2 * depth) as i32 }
}

/// The map position of tile `(depth, col)` of the quadrant, as a point.
pub open spec fn tile_point(q: Quadrant, depth: int, col: int) -> Point {
    Point { x: spec_transform(q, depth, col).0 as i32, y: spec_transform(q, depth, col).1 as i32 }
}

/// What scanning `row` of quadrant `q` adds to the visible tiles: nothing
/// beyond `range`; otherwise what scanning its columns, first to last, adds.
pub open spec fn scan_row(row: Row, q: Quadrant, range: int, map: &TileMap) -> Seq<Point>
    decreases range + 1 - row.depth, 2 * range + 4,
{
    if row.depth > range || range >= usize::MAX {
        seq![]
    } else {
        let (lo, hi) = row_cols(row);
        if lo > hi || hi - lo > 2 * range + 2 {
            seq![]
        } else {
            scan_cols(row, q, range, map, lo, hi, None)
        }
    }
}

/// What scanning the columns `col` to `hi` of `row` adds, `prev` being the
/// tile scanned before: each tile that blocks sight or whose centre lies
/// between the row's slopes is seen; a clear tile after a blocking one
/// moves the row's start slope to its edge; a blocking tile after a clear
/// one first scans the next row up to its edge; and when the last tile is
/// clear the next row is scanned.
pub open spec fn scan_cols(row: Row, q: Quadrant, range: int, map: &TileMap, col: int, hi: int, prev: Option<(i32, i32)>) -> Seq<Point>
    decreases range + 1 - row.depth, hi + 1 - col,
{
    if row.depth > range || range >= usize::MAX {
        seq![]
    } else if col > hi {
        if lets_sight(map, q, prev) {
            scan_row(Row { depth: (row.depth + 1) as usize, ..row }, q, range, map)
        } else {
            seq![]
        }
    } else {
        let d = row.depth as int;
        let tile = Some((d as i32, col as i32));
        let seen = if blocks_sight(map, q, tile) || spec_symmetric(row, col) { seq![tile_point(q, d, col)] } else { seq![] };
        let deeper = if lets_sight(map, q, prev) && blocks_sight(map, q, tile) {
            scan_row(Row { depth: (row.depth + 1) as usize, end_slope: edge_slope(d, col), ..row }, q, range, map)
        } else {
            seq![]
        };
        let row1 = if blocks_sight(map, q, prev) && lets_sight(map, q, tile) { Row { start_slope: edge_slope(d, col), ..row } } else { row };
        seen + deeper + scan_cols(row1, q, range, map, col + 1, hi, tile)
    }
}

/// Floor division gives the same quotient for two ways of writing one rational.
proof fn lemma_div_same_ratio(x: int, y: int, x2: int, y2: int)
    requires
        0 < y,
        0 < y2,
        x * y2 == x2 * y,
    ensures
        x / y == x2 / y2,
{
    vstd::arithmetic::div_mod::lemma_fundamental_div_mod(x, y);
    let q = x / y;
    let r = x % y;
    assert((x2 - q * y2) * y == r * y2) by (nonlinear_arith)
        requires x == y * q + r, x * y2 == x2 * y;
    assert(0 <= x2 - q * y2 < y2) by (nonlinear_arith)
        requires (x2 - q * y2) * y == r * y2, 0 <= r < y, 0 < y, 0 < y2;
    vstd::arithmetic::div_mod::lemma_fundamental_div_mod_converse(x2, y2, q, x2 - q * y2);
}

proof fn lemma_round_same(n: int, d: int, n2: int, d2: int)
    requires
        0 < d,
        0 < d2,
        n * d2 == n2 * d,
    ensures
        round_half_up(n, d) == round_half_up(n2, d2),
        round_half_down(n, d) == round_half_down(n2, d2),
{
    assert((2 * n + d) * (2 * d2) == (2 * n2 + d2) * (2 * d)) by (nonlinear_arith) requires n * d2 == n2 * d;
    lemma_div_same_ratio(2 * n + d, 2 * d, 2 * n2 + d2, 2 * d2);
    assert((d - 2 * n) * (2 * d2) == (d2 - 2 * n2) * (2 * d)) by (nonlinear_arith) requires n * d2 == n2 * d;
    lemma_div_same_ratio(d - 2 * n, 2 * d, d2 - 2 * n2, 2 * d2);
}

/// Rows written differently but equal as rationals cover the same columns
/// and see the same centres.
proof fn lemma_same_row_cols(a: Row, b: Row)
    requires
        same_row(a, b),
    ensures
        row_cols(a) == row_cols(b),
        forall|col: int| #[trigger] spec_symmetric(a, col) == spec_symmetric(b, col),
{
    let d = a.depth as int;
    let (s, s2, e, e2) = (a.start_slope, b.start_slope, a.end_slope, b.end_slope);
    if s != s2 {
        assert((d * s.num) * s2.den == (d * s2.num) * s.den) by (nonlinear_arith) requires s.num * s2.den == s2.num * s.den;
        lemma_round_same(d * s.num, s.den as int, d * s2.num, s2.den as int);
    }
    if e != e2 {
        assert((d * e.num) * e2.den == (d * e2.num) * e.den) by (nonlinear_arith) requires e.num * e2.den == e2.num * e.den;
        lemma_round_same(d * e.num, e.den as int, d * e2.num, e2.den as int);
    }
    assert forall|col: int| #[trigger] spec_symmetric(a, col) == spec_symmetric(b, col) by {
        if s != s2 {
            assert((col * s.den >= d * s.num) == (col * s2.den >= d * s2.num)) by (nonlinear_arith)
                requires s.num * s2.den == s2.num * s.den, 0 < s.den, 0 < s2.den;
        }
        if e != e2 {
            assert((col * e.den <= d * e.num) == (col * e2.den <= d * e2.num)) by (nonlinear_arith)
                requires e.num * e2.den == e2.num * e.den, 0 < e.den, 0 < e2.den;
        }
    }
}

proof fn lemma_scan_row_same(a: Row, b: Row, q: Quadrant, range: int, map: &TileMap)
    requires
        same_row(a, b),
    ensures
        scan_row(a, q, range, map) == scan_row(b, q, range, map),
    decreases range + 1 - a.depth, 2 * range + 4,
{
    if a.depth <= range && range < usize::MAX {
        lemma_same_row_cols(a, b);
        let (lo, hi) = row_cols(a);
        if !(lo > hi || hi - lo > 2 * range + 2) {
            lemma_scan_cols_same(a, b, q, range, map, lo, hi, None);
        }
    }
}

proof fn lemma_scan_cols_same(a: Row, b: Row, q: Quadrant, range: int, map: &TileMap, col: int, hi: int, prev: Option<(i32, i32)>)
    requires
        same_row(a, b),
    ensures
        scan_cols(a, q, range, map, col, hi, prev) == scan_cols(b, q, range, map, col, hi, prev),
    decreases range + 1 - a.depth, hi + 1 - col,
{
    if a.depth > range || range >= usize::MAX {
    } else if col > hi {
        if lets_sight(map, q, prev) {
            lemma_scan_row_same(Row { depth: (a.depth + 1) as usize, ..a }, Row { depth: (b.depth + 1) as usize, ..b }, q, range, map);
        }
    } else {
        let d = a.depth as int;
        let tile = Some((d as i32, col as i32));
        lemma_same_row_cols(a, b);
        assert(spec_symmetric(a, col) == spec_symmetric(b, col));
        if lets_sight(map, q, prev) && blocks_sight(map, q, tile) {
            lemma_scan_row_same(
                Row { depth: (a.depth + 1) as usize, end_slope: edge_slope(d, col), ..a },
                Row { depth: (b.depth + 1) as usize, end_slope: edge_slope(d, col), ..b },
                q, range, map);
        }
        let a1 = if blocks_sight(map, q, prev) && lets_sight(map, q, tile) { Row { start_slope: edge_slope(d, col), ..a } } else { a };
        let b1 = if blocks_sight(map, q, prev) && lets_sight(map, q, tile) { Row { start_slope: edge_slope(d, col), ..b } } else { b };
        lemma_scan_cols_same(a1, b1, q, range, map, col + 1, hi, tile);
    }
}

/// Adds the map position of `tile` to the visible tiles.
pub fn reveal_tile(tile: (i32, i32), quadrant: &Quadrant, visible_tiles: &mut Vec<Point>)
    requires
        origin_ok(quadrant.ox as int, quadrant.oy as int),
        -20000 <= tile.0 <= 20000,
        -20000 <= tile.1 <= 20000,
    ensures
        final(visible_tiles)@ == old(visible_tiles)@.push(
            Point {
                x: spec_transform(*quadrant, tile.0 as int, tile.1 as int).0 as i32,
                y: spec_transform(*quadrant, tile.0 as int, tile.1 as int).1 as i32,
            },
        ),
{
    let (x, y) = quadrant.transform(tile);
    visible_tiles.push(Point::new(x, y));
}

/// The scan of one row and, recursively, of the rows beyond it that light
/// reaches: symmetric shadowcasting. It adds to the visible tiles exactly
/// what [`scan_row`] says, each within `range` rows and columns of the
/// origin, and leaves the tiles already listed in place.
pub fn scan(row: &mut Row, quadrant: &Quadrant, range: usize, map: &TileMap, visible_tiles: &mut Vec<Point>)
    requires
        map.wf(),
        range <= 10000,
        origin_ok(quadrant.ox as int, quadrant.oy as int),
        row_ok(*old(row), range as int),
    ensures
        final(visible_tiles)@ == old(visible_tiles)@ + scan_row(*old(row), *quadrant, range as int, map),
        forall|i: int| old(visible_tiles)@.len() <= i < final(visible_tiles)@.len() ==>
            in_view_box(#[trigger] final(visible_tiles)@[i], quadrant.ox as int, quadrant.oy as int, range as int),
    decreases range + 1 - old(row).depth,
{
    let ghost old_vis = visible_tiles@;
    let ghost row0 = *row;
    let ghost target = old_vis + scan_row(row0, *quadrant, range as int, map);
    if row.depth > range {
        proof { assert(visible_tiles@ =~= target); }
        return;
    }
    let mut prev_tile: Option<(i32, i32)> = None;
    let (depth, min_col, max_col) = row.tiles();
    proof {
        let m1 = choose|m: Slope| m.num * row0.start_slope.den == row0.depth * row0.start_slope.num * m.den && 0 < m.den
            && min_col == round_half_up(m.num as int, m.den as int);
        let m2 = choose|m: Slope| m.num * row0.end_slope.den == row0.depth * row0.end_slope.num * m.den && 0 < m.den
            && max_col == round_half_down(m.num as int, m.den as int);
        lemma_round_same(m1.num as int, m1.den as int, row0.depth * row0.start_slope.num, row0.start_slope.den as int);
        lemma_round_same(m2.num as int, m2.den as int, row0.depth * row0.end_slope.num, row0.end_slope.den as int);
        assert(row_cols(row0) == (min_col as int, max_col as int));
        if min_col > max_col {
            assert(scan_cols(row0, *quadrant, range as int, map, min_col as int, max_col as int, None) =~= Seq::<Point>::empty());
        }
        assert(visible_tiles@ + scan_cols(row0, *quadrant, range as int, map, min_col as int, max_col as int, None) =~= target);
    }
    let mut col = min_col;
    while col <= max_col
        invariant
            map.wf(),
            range <= 10000,
            origin_ok(quadrant.ox as int, quadrant.oy as int),
            row_ok(*row, range as int),
            depth == row.depth,
            row.depth == old(row).depth,
            row.end_slope == old(row).end_slope,
            1 <= depth <= range,
            -(depth as int) <= min_col,
            max_col <= depth,
            min_col <= col <= max_col + 1 || (col == min_col && min_col > max_col),
            prev_tile == (if col == min_col { None::<(i32, i32)> } else { Some((depth as i32, (col - 1) as i32)) }),
            old_vis.len() <= visible_tiles@.len(),
            visible_tiles@.subrange(0, old_vis.len() as int) == old_vis,
            forall|i: int| old_vis.len() <= i < visible_tiles@.len() ==>
                in_view_box(#[trigger] visible_tiles@[i], quadrant.ox as int, quadrant.oy as int, range as int),
            target == old_vis + scan_row(row0, *quadrant, range as int, map),
            visible_tiles@ + scan_cols(*row, *quadrant, range as int, map, col as int, max_col as int, prev_tile) == target,
        decreases max_col + 1 - col,
    {
        let tile = (depth as i32, col);
        let ghost before = visible_tiles@;
        let ghost row_b = *row;
        let ghost d = depth as int;
        let ghost rest = scan_cols(row_b, *quadrant, range as int, map, col as int, max_col as int, prev_tile);
        let ghost stile = Some((d as i32, col as i32));
        let ghost seen = if blocks_sight(map, *quadrant, stile) || spec_symmetric(row_b, col as int) {
            seq![tile_point(*quadrant, d, col as int)]
        } else {
            seq![]
        };
        let ghost deeper = if lets_sight(map, *quadrant, prev_tile) && blocks_sight(map, *quadrant, stile) {
            scan_row(Row { depth: (row_b.depth + 1) as usize, end_slope: edge_slope(d, col as int), ..row_b }, *quadrant, range as int, map)
        } else {
            seq![]
        };
        let ghost row1 = if blocks_sight(map, *quadrant, prev_tile) && lets_sight(map, *quadrant, stile) {
            Row { start_slope: edge_slope(d, col as int), ..row_b }
        } else {
            row_b
        };
        assert(stile == Some(tile));
        assert(rest == seen + deeper + scan_cols(row1, *quadrant, range as int, map, col + 1, max_col as int, Some(tile)));
        if is_wall(Some(tile), quadrant, map) || is_symmetric(row, tile) {
            reveal_tile(tile, quadrant, visible_tiles);
            proof {
                assert(visible_tiles@.subrange(0, old_vis.len() as int) == before.subrange(0, old_vis.len() as int));
                let p = visible_tiles@[visible_tiles@.len() - 1];
                assert(in_view_box(p, quadrant.ox as int, quadrant.oy as int, range as int));
                assert forall|i: int| old_vis.len() <= i < visible_tiles@.len() implies
                    in_view_box(#[trigger] visible_tiles@[i], quadrant.ox as int, quadrant.oy as int, range as int) by {
                    if i < before.len() {
                        assert(visible_tiles@[i] == before[i]);
                    }
                }
            }
        }
        proof { assert(visible_tiles@ =~= before + seen); }
        if is_wall(prev_tile, quadrant, map) && is_floor(Some(tile), quadrant, map) {
            let s = slope(tile);
            proof {
                assert(-s.den <= s.num <= s.den) by (nonlinear_arith)
                    requires
                        s.num * (2 * depth) == (2 * col - 1) * s.den,
                        0 < s.den,
                        1 <= depth,
                        -(depth as int) + 1 <= col <= depth,
                ;
            }
            row.start_slope = s;
        }
        proof {
            assert(same_row(*row, row1));
        }
        let ghost after_seen = visible_tiles@;
        if is_floor(prev_tile, quadrant, map) && is_wall(Some(tile), quadrant, map) {
            let mut next_row = row.next();
            let s = slope(tile);
            proof {
                assert(-s.den <= s.num <= s.den) by (nonlinear_arith)
                    requires
                        s.num * (2 * depth) == (2 * col - 1) * s.den,
                        0 < s.den,
                        1 <= depth,
                        -(depth as int) + 1 <= col <= depth,
                ;
            }
            next_row.end_slope = s;
            let ghost mid = visible_tiles@;
            proof {
                lemma_scan_row_same(next_row, Row { depth: (row_b.depth + 1) as usize, end_slope: edge_slope(d, col as int), ..row_b },
                    *quadrant, range as int, map);
            }
            scan(&mut next_row, quadrant, range, map, visible_tiles);
            proof {
                assert(visible_tiles@.subrange(0, old_vis.len() as int) == mid.subrange(0, old_vis.len() as int));
                assert forall|i: int| old_vis.len() <= i < visible_tiles@.len() implies
                    in_view_box(#[trigger] visible_tiles@[i], quadrant.ox as int, quadrant.oy as int, range as int) by {
                    if i < mid.len() {
                        assert(visible_tiles@[i] == visible_tiles@.subrange(0, mid.len() as int)[i]);
                    }
                }
            }
        }
        proof {
            assert(visible_tiles@ =~= after_seen + deeper);
            lemma_scan_cols_same(*row, row1, *quadrant, range as int, map, col + 1, max_col as int, Some(tile));
            assert(visible_tiles@ + scan_cols(*row, *quadrant, range as int, map, col + 1, max_col as int, Some(tile)) =~= target);
        }
        prev_tile = Some(tile);
        col = col + 1;
    }
    let ghost before_last = visible_tiles@;
    if is_floor(prev_tile, quadrant, map) {
        let mut next_row = row.next();
        let ghost mid = visible_tiles@;
        scan(&mut next_row, quadrant, range, map, visible_tiles);
        proof {
            assert(visible_tiles@.subrange(0, old_vis.len() as int) == mid.subrange(0, old_vis.len() as int));
            assert forall|i: int| old_vis.len() <= i < visible_tiles@.len() implies
                in_view_box(#[trigger] visible_tiles@[i], quadrant.ox as int, quadrant.oy as int, range as int) by {
                if i < mid.len() {
                    assert(visible_tiles@[i] == visible_tiles@.subrange(0, mid.len() as int)[i]);
                }
            }
        }
    }
    proof {
        assert(visible_tiles@ =~= target);
    }
}

/// The first row of a quadrant: one step out, between the diagonals.
pub open spec fn first_row() -> Row {
    Row { depth: 1, start_slope: Slope { num: -1i32, den: 1i32 }, end_slope: Slope { num: 1i32, den: 1i32 } }
}

/// The quadrants in the order the view scans them: north, east, south, west.
pub open spec fn cardinal_at(k: int) -> Cardinal {
    if k == 0 {
        Cardinal::North
    } else if k == 1 {
        Cardinal::East
    } else if k == 2 {
        Cardinal::South
    } else {
        Cardinal::West
    }
}

/// The origin followed by what the scans of the first `k` quadrants see.
pub open spec fn fov_quadrants(origin: Point, range: int, map: &TileMap, k: nat) -> Seq<Point>
    decreases k,
{
    if k == 0 {
        seq![origin]
    } else {
        fov_quadrants(origin, range, map, (k - 1) as nat) + scan_row(first_row(),
            Quadrant { cardinal: cardinal_at(k - 1), ox: origin.x, oy: origin.y }, range, map)
    }
}

/// The symmetric shadowcasting view from `origin`: the origin, then what the
/// scans of the four quadrants see.
pub open spec fn spec_fov(origin: Point, range: int, map: &TileMap) -> Seq<Point> {
    fov_quadrants(origin, range, map, 4)
}

/// The first row of any quadrant always shows the tile straight ahead of
/// the viewer, whatever stands there or beside it.
proof fn lemma_first_row_sees_ahead(q: Quadrant, range: int, map: &TileMap)
    requires
        1 <= range <= 10000,
    ensures
        scan_row(first_row(), q, range, map).contains(tile_point(q, 1, 0)),
{
    let row = first_row();
    assert(row_cols(row) == (-1int, 1int));
    let t0 = Some((1i32, -1i32));
    let row1 = if blocks_sight(map, q, None) && lets_sight(map, q, t0) { Row { start_slope: edge_slope(1, -1), ..row } } else { row };
    let rest = scan_cols(row, q, range, map, -1, 1, None);
    assert(rest == scan_row(row, q, range, map));
    let a = scan_cols(row1, q, range, map, 0, 1, t0);
    assert(row1 == row);
    let seen0 = if blocks_sight(map, q, Some((1i32, 0i32))) || spec_symmetric(row1, 0) { seq![tile_point(q, 1, 0)] } else { seq![] };
    assert(spec_symmetric(row1, 0));
    assert(seen0 == seq![tile_point(q, 1, 0)]);
    assert(a[0] == tile_point(q, 1, 0));
    let s_first = if blocks_sight(map, q, t0) || spec_symmetric(row, -1) { seq![tile_point(q, 1, -1)] } else { seq![] };
    let deeper = if lets_sight(map, q, None) && blocks_sight(map, q, t0) {
        scan_row(Row { depth: 2, end_slope: edge_slope(1, -1), ..row }, q, range, map)
    } else {
        seq![]
    };
    assert(rest == s_first + deeper + a);
    assert(rest[(s_first.len() + deeper.len()) as int] == a[0]);
}

/// Rounding keeps the sign: a value at most zero rounds (halves up) to at
/// most zero, one at least zero rounds (halves down) to at least zero.
proof fn lemma_round_signs(num: int, den: int)
    requires
        0 < den,
    ensures
        num <= 0 ==> round_half_up(num, den) <= 0,
        num >= 0 ==> round_half_down(num, den) >= 0,
{
    let b = 2 * den;
    vstd::arithmetic::div_mod::lemma_fundamental_div_mod(2 * num + den, b);
    vstd::arithmetic::div_mod::lemma_fundamental_div_mod(den - 2 * num, b);
    let q1 = (2 * num + den) / b;
    let q2 = (den - 2 * num) / b;
    let r1 = (2 * num + den) % b;
    let r2 = (den - 2 * num) % b;
    if num <= 0 {
        assert(q1 <= 0) by (nonlinear_arith)
            requires 2 * num + den == b * q1 + r1, 0 <= r1 < b, b == 2 * den, 0 < den, num <= 0;
    }
    if num >= 0 {
        assert(q2 <= 0) by (nonlinear_arith)
            requires den - 2 * num == b * q2 + r2, 0 <= r2 < b, b == 2 * den, 0 < den, num >= 0;
    }
}

/// A row whose slopes run from at most zero (but not below -1) to at least
/// zero (but not above 1): its window holds the column straight ahead.
pub open spec fn holds_ahead(row: Row) -> bool {
    &&& 0 < row.start_slope.den
    &&& 0 < row.end_slope.den
    &&& -row.start_slope.den <= row.start_slope.num <= 0
    &&& 0 <= row.end_slope.num <= row.end_slope.den
}

/// The tiles straight ahead in quadrant `q`, from depth `d` up to (but not
/// including) depth `t`, are on the map and let sight through.
pub open spec fn clear_ahead(q: Quadrant, map: &TileMap, d: int, t: int) -> bool {
    forall|j: int| d <= j < t ==> #[trigger] lets_sight(map, q, Some((j as i32, 0i32)))
}

proof fn lemma_cols_hold_ahead(row: Row)
    requires
        holds_ahead(row),
        1 <= row.depth <= 20000,
    ensures
        -(row.depth as int) <= row_cols(row).0 <= 0 <= row_cols(row).1 <= row.depth,
{
    let d = row.depth as int;
    let (sn, sd) = (row.start_slope.num as int, row.start_slope.den as int);
    let (en, ed) = (row.end_slope.num as int, row.end_slope.den as int);
    assert(-d * sd <= d * sn <= 0) by (nonlinear_arith) requires -sd <= sn <= 0, 0 < d, 0 < sd;
    assert(0 <= d * en <= d * ed) by (nonlinear_arith) requires 0 <= en <= ed, 0 < d, 0 < ed;
    assert(-d * ed <= d * en) by (nonlinear_arith) requires 0 <= d * en, 0 < d, 0 < ed;
    assert(d * sn <= d * sd) by (nonlinear_arith) requires d * sn <= 0, 0 < d, 0 < sd;
    lemma_round_bounds(d * sn, sd, d);
    lemma_round_bounds(d * en, ed, d);
    lemma_round_signs(d * sn, sd);
    lemma_round_signs(d * en, ed);
}

proof fn lemma_contains_in_concat(a: Seq<Point>, b: Seq<Point>, c: Seq<Point>, x: Point)
    requires
        a.contains(x) || b.contains(x) || c.contains(x),
    ensures
        (a + b + c).contains(x),
{
    let s = a + b + c;
    if a.contains(x) {
        let i = choose|i: int| 0 <= i < a.len() && a[i] == x;
        assert(s[i] == x);
    } else if b.contains(x) {
        let i = choose|i: int| 0 <= i < b.len() && b[i] == x;
        assert(s[a.len() + i] == x);
    } else {
        let i = choose|i: int| 0 <= i < c.len() && c[i] == x;
        assert(s[a.len() + b.len() + i] == x);
    }
}

/// Scanning a row whose window holds the column straight ahead sees the
/// tile straight ahead at depth `t`, when every tile straight ahead before
/// it lets sight through.
proof fn lemma_row_sees_ahead(row: Row, q: Quadrant, range: int, map: &TileMap, t: int)
    requires
        1 <= row.depth <= t <= range <= 10000,
        holds_ahead(row),
        clear_ahead(q, map, row.depth as int, t),
    ensures
        scan_row(row, q, range, map).contains(tile_point(q, t, 0)),
    decreases t - row.depth, 2int, 0int,
{
    lemma_cols_hold_ahead(row);
    let (lo, hi) = row_cols(row);
    lemma_cols_before_ahead(row, q, range, map, t, lo, hi, None);
}

/// The columns of such a row from `col` (not past the one straight ahead)
/// to `hi`.
proof fn lemma_cols_before_ahead(row: Row, q: Quadrant, range: int, map: &TileMap, t: int, col: int, hi: int, prev: Option<(i32, i32)>)
    requires
        1 <= row.depth <= t <= range <= 10000,
        holds_ahead(row),
        clear_ahead(q, map, row.depth as int, t),
        -(row.depth as int) <= col <= 0 <= hi <= row.depth,
        prev is Some ==> -(row.depth as int) + 1 <= col,
    ensures
        scan_cols(row, q, range, map, col, hi, prev).contains(tile_point(q, t, 0)),
    decreases t - row.depth, 1int, 0 - col,
{
    let d = row.depth as int;
    let tile = Some((d as i32, col as i32));
    let seen = if blocks_sight(map, q, tile) || spec_symmetric(row, col) { seq![tile_point(q, d, col)] } else { seq![] };
    let deeper = if lets_sight(map, q, prev) && blocks_sight(map, q, tile) {
        scan_row(Row { depth: (row.depth + 1) as usize, end_slope: edge_slope(d, col), ..row }, q, range, map)
    } else {
        seq![]
    };
    let row1 = if blocks_sight(map, q, prev) && lets_sight(map, q, tile) { Row { start_slope: edge_slope(d, col), ..row } } else { row };
    let rest = scan_cols(row1, q, range, map, col + 1, hi, tile);
    assert(scan_cols(row, q, range, map, col, hi, prev) == seen + deeper + rest);
    assert(holds_ahead(row1));
    if col < 0 {
        lemma_cols_before_ahead(row1, q, range, map, t, col + 1, hi, tile);
        lemma_contains_in_concat(seen, deeper, rest, tile_point(q, t, 0));
    } else if d == t {
        assert(spec_symmetric(row, 0)) by {
            let (sn, sd) = (row.start_slope.num as int, row.start_slope.den as int);
            let (en, ed) = (row.end_slope.num as int, row.end_slope.den as int);
            assert(d * sn <= 0) by (nonlinear_arith) requires sn <= 0, 0 < d;
            assert(d * en >= 0) by (nonlinear_arith) requires en >= 0, 0 < d;
        }
        assert(seen[0] == tile_point(q, t, 0));
        lemma_contains_in_concat(seen, deeper, rest, tile_point(q, t, 0));
    } else {
        assert(lets_sight(map, q, Some((d as i32, 0i32))));
        lemma_cols_after_ahead(row1, q, range, map, t, 1, hi, tile);
        lemma_contains_in_concat(seen, deeper, rest, tile_point(q, t, 0));
    }
}

/// The columns of such a row after the one straight ahead, which lets sight
/// through, when the tile before `col` lets sight through too.
proof fn lemma_cols_after_ahead(row: Row, q: Quadrant, range: int, map: &TileMap, t: int, col: int, hi: int, prev: Option<(i32, i32)>)
    requires
        1 <= row.depth < t <= range <= 10000,
        holds_ahead(row),
        clear_ahead(q, map, row.depth + 1, t),
        1 <= col <= hi + 1,
        hi <= row.depth,
        lets_sight(map, q, prev),
    ensures
        scan_cols(row, q, range, map, col, hi, prev).contains(tile_point(q, t, 0)),
    decreases t - row.depth, 0int, hi + 1 - col,
{
    let d = row.depth as int;
    let next = Row { depth: (row.depth + 1) as usize, ..row };
    if col > hi {
        assert(scan_cols(row, q, range, map, col, hi, prev) == scan_row(next, q, range, map));
        lemma_row_sees_ahead(next, q, range, map, t);
    } else {
        let tile = Some((d as i32, col as i32));
        let seen = if blocks_sight(map, q, tile) || spec_symmetric(row, col) { seq![tile_point(q, d, col)] } else { seq![] };
        let deeper_row = Row { depth: (row.depth + 1) as usize, end_slope: edge_slope(d, col), ..row };
        let deeper = if lets_sight(map, q, prev) && blocks_sight(map, q, tile) {
            scan_row(deeper_row, q, range, map)
        } else {
            seq![]
        };
        let row1 = if blocks_sight(map, q, prev) && lets_sight(map, q, tile) { Row { start_slope: edge_slope(d, col), ..row } } else { row };
        let rest = scan_cols(row1, q, range, map, col + 1, hi, tile);
        assert(scan_cols(row, q, range, map, col, hi, prev) == seen + deeper + rest);
        assert(row1 == row);
        if blocks_sight(map, q, tile) {
            assert(holds_ahead(deeper_row));
            lemma_row_sees_ahead(deeper_row, q, range, map, t);
        } else {
            lemma_cols_after_ahead(row, q, range, map, t, col + 1, hi, tile);
        }
        lemma_contains_in_concat(seen, deeper, rest, tile_point(q, t, 0));
    }
}

/// The view from `origin` always holds the four cells next to it, north,
/// south, east and west, for any range of at least one: every quadrant is
/// scanned, and the first row of each shows the cell straight ahead.
pub proof fn lemma_fov_sees_neighbours(origin: Point, range: int, map: &TileMap)
    requires
        1 <= range <= 10000,
        origin_ok(origin.x as int, origin.y as int),
    ensures
        spec_fov(origin, range, map).contains(Point { x: origin.x, y: (origin.y - 1) as i32 }),
        spec_fov(origin, range, map).contains(Point { x: origin.x, y: (origin.y + 1) as i32 }),
        spec_fov(origin, range, map).contains(Point { x: (origin.x + 1) as i32, y: origin.y }),
        spec_fov(origin, range, map).contains(Point { x: (origin.x - 1) as i32, y: origin.y }),
{
    let qs = |k: int| Quadrant { cardinal: cardinal_at(k), ox: origin.x, oy: origin.y };
    let f1 = fov_quadrants(origin, range, map, 1);
    let f2 = fov_quadrants(origin, range, map, 2);
    let f3 = fov_quadrants(origin, range, map, 3);
    let f4 = fov_quadrants(origin, range, map, 4);
    let s0 = scan_row(first_row(), qs(0), range, map);
    let s1 = scan_row(first_row(), qs(1), range, map);
    let s2 = scan_row(first_row(), qs(2), range, map);
    let s3 = scan_row(first_row(), qs(3), range, map);
    lemma_first_row_sees_ahead(qs(0), range, map);
    lemma_first_row_sees_ahead(qs(1), range, map);
    lemma_first_row_sees_ahead(qs(2), range, map);
    lemma_first_row_sees_ahead(qs(3), range, map);
    assert(f1 == fov_quadrants(origin, range, map, 0) + s0);
    assert(f2 == f1 + s1);
    assert(f3 == f2 + s2);
    assert(f4 == f3 + s3);
    assert forall|p: Point| s0.contains(p) implies f4.contains(p) by {
        let i = choose|i: int| 0 <= i < s0.len() && s0[i] == p;
        assert(f1[1 + i] == p);
        assert(f4[1 + i] == p);
    }
    assert forall|p: Point| s1.contains(p) implies f4.contains(p) by {
        let i = choose|i: int| 0 <= i < s1.len() && s1[i] == p;
        assert(f2[f1.len() + i] == p);
        assert(f4[f1.len() + i] == p);
    }
    assert forall|p: Point| s2.contains(p) implies f4.contains(p) by {
        let i = choose|i: int| 0 <= i < s2.len() && s2[i] == p;
        assert(f3[f2.len() + i] == p);
        assert(f4[f2.len() + i] == p);
    }
    assert forall|p: Point| s3.contains(p) implies f4.contains(p) by {
        let i = choose|i: int| 0 <= i < s3.len() && s3[i] == p;
        assert(f4[f3.len() + i] == p);
    }
    assert(tile_point(qs(0), 1, 0) == Point { x: origin.x, y: (origin.y - 1) as i32 });
    assert(tile_point(qs(1), 1, 0) == Point { x: (origin.x + 1) as i32, y: origin.y });
    assert(tile_point(qs(2), 1, 0) == Point { x: origin.x, y: (origin.y + 1) as i32 });
    assert(tile_point(qs(3), 1, 0) == Point { x: (origin.x - 1) as i32, y: origin.y });
}

/// What the first row of the quadrant numbered `k` sees is in the view.
proof fn lemma_quadrant_in_fov(origin: Point, range: int, map: &TileMap, k: int, p: Point)
    requires
        0 <= k < 4,
        scan_row(first_row(), Quadrant { cardinal: cardinal_at(k), ox: origin.x, oy: origin.y }, range, map).contains(p),
    ensures
        spec_fov(origin, range, map).contains(p),
    decreases 4 - k,
{
    let sk = scan_row(first_row(), Quadrant { cardinal: cardinal_at(k), ox: origin.x, oy: origin.y }, range, map);
    let before = fov_quadrants(origin, range, map, k as nat);
    let after = fov_quadrants(origin, range, map, (k + 1) as nat);
    assert(after == before + sk);
    let i = choose|i: int| 0 <= i < sk.len() && sk[i] == p;
    assert(after[before.len() + i] == p);
    lemma_fov_keeps(origin, range, map, (k + 1) as nat, p);
}

/// What the scans of the first `k` quadrants see stays in the view.
proof fn lemma_fov_keeps(origin: Point, range: int, map: &TileMap, k: nat, p: Point)
    requires
        k <= 4,
        fov_quadrants(origin, range, map, k).contains(p),
    ensures
        spec_fov(origin, range, map).contains(p),
    decreases 4 - k,
{
    if k < 4 {
        let before = fov_quadrants(origin, range, map, k);
        let after = fov_quadrants(origin, range, map, k + 1);
        let sk = scan_row(first_row(), Quadrant { cardinal: cardinal_at(k as int), ox: origin.x, oy: origin.y }, range, map);
        assert(after == before + sk);
        let i = choose|i: int| 0 <= i < before.len() && before[i] == p;
        assert(after[i] == p);
        lemma_fov_keeps(origin, range, map, k + 1, p);
    }
}

/// The view reaches along each straight line out of the viewer until sight
/// is blocked: the cell `t` steps north, south, east or west of `origin`,
/// within `range`, is seen whenever every cell between the two is on the
/// map and lets sight through, whatever stands anywhere else.
pub proof fn lemma_fov_sees_along_clear_lines(origin: Point, range: int, map: &TileMap, t: int)
    requires
        1 <= t <= range <= 10000,
        origin_ok(origin.x as int, origin.y as int),
    ensures
        (forall|j: int| 1 <= j < t ==> !#[trigger] spec_wall_at(map, origin.x as int, origin.y - j))
            ==> spec_fov(origin, range, map).contains(Point { x: origin.x, y: (origin.y - t) as i32 }),
        (forall|j: int| 1 <= j < t ==> !#[trigger] spec_wall_at(map, origin.x as int, origin.y + j))
            ==> spec_fov(origin, range, map).contains(Point { x: origin.x, y: (origin.y + t) as i32 }),
        (forall|j: int| 1 <= j < t ==> !#[trigger] spec_wall_at(map, origin.x + j, origin.y as int))
            ==> spec_fov(origin, range, map).contains(Point { x: (origin.x + t) as i32, y: origin.y }),
        (forall|j: int| 1 <= j < t ==> !#[trigger] spec_wall_at(map, origin.x - j, origin.y as int))
            ==> spec_fov(origin, range, map).contains(Point { x: (origin.x - t) as i32, y: origin.y }),
{
    assert(holds_ahead(first_row()));
    let qn = Quadrant { cardinal: cardinal_at(0), ox: origin.x, oy: origin.y };
    let qe = Quadrant { cardinal: cardinal_at(1), ox: origin.x, oy: origin.y };
    let qs = Quadrant { cardinal: cardinal_at(2), ox: origin.x, oy: origin.y };
    let qw = Quadrant { cardinal: cardinal_at(3), ox: origin.x, oy: origin.y };
    if forall|j: int| 1 <= j < t ==> !#[trigger] spec_wall_at(map, origin.x as int, origin.y - j) {
        assert forall|j: int| 1 <= j < t implies #[trigger] lets_sight(map, qn, Some((j as i32, 0i32))) by {
            assert(!spec_wall_at(map, origin.x as int, origin.y - j));
        }
        lemma_row_sees_ahead(first_row(), qn, range, map, t);
        assert(tile_point(qn, t, 0) == Point { x: origin.x, y: (origin.y - t) as i32 });
        lemma_quadrant_in_fov(origin, range, map, 0, tile_point(qn, t, 0));
    }
    if forall|j: int| 1 <= j < t ==> !#[trigger] spec_wall_at(map, origin.x as int, origin.y + j) {
        assert forall|j: int| 1 <= j < t implies #[trigger] lets_sight(map, qs, Some((j as i32, 0i32))) by {
            assert(!spec_wall_at(map, origin.x as int, origin.y + j));
        }
        lemma_row_sees_ahead(first_row(), qs, range, map, t);
        assert(tile_point(qs, t, 0) == Point { x: origin.x, y: (origin.y + t) as i32 });
        lemma_quadrant_in_fov(origin, range, map, 2, tile_point(qs, t, 0));
    }
    if forall|j: int| 1 <= j < t ==> !#[trigger] spec_wall_at(map, origin.x + j, origin.y as int) {
        assert forall|j: int| 1 <= j < t implies #[trigger] lets_sight(map, qe, Some((j as i32, 0i32))) by {
            assert(!spec_wall_at(map, origin.x + j, origin.y as int));
        }
        lemma_row_sees_ahead(first_row(), qe, range, map, t);
        assert(tile_point(qe, t, 0) == Point { x: (origin.x + t) as i32, y: origin.y });
        lemma_quadrant_in_fov(origin, range, map, 1, tile_point(qe, t, 0));
    }
    if forall|j: int| 1 <= j < t ==> !#[trigger] spec_wall_at(map, origin.x - j, origin.y as int) {
        assert forall|j: int| 1 <= j < t implies #[trigger] lets_sight(map, qw, Some((j as i32, 0i32))) by {
            assert(!spec_wall_at(map, origin.x - j, origin.y as int));
        }
        lemma_row_sees_ahead(first_row(), qw, range, map, t);
        assert(tile_point(qw, t, 0) == Point { x: (origin.x - t) as i32, y: origin.y });
        lemma_quadrant_in_fov(origin, range, map, 3, tile_point(qw, t, 0));
    }
}

/// The symmetric shadowcasting field of view from `origin`: the origin first,
/// then what the scans of the four quadrants (north, east, south, west) reveal.
pub fn compute_fov(origin: Point, range: usize, map: &TileMap) -> (r: Vec<Point>)
    requires
        map.wf(),
        range <= 10000,
        origin_ok(origin.x as int, origin.y as int),
    ensures
        r@ == spec_fov(origin, range as int, map),
        r@.len() >= 1,
        r@[0] == origin,
        forall|i: int| 0 <= i < r@.len() ==>
            in_view_box(#[trigger] r@[i], origin.x as int, origin.y as int, range as int),
{
    let mut visible_tiles: Vec<Point> = Vec::new();
    visible_tiles.push(origin);
    proof { assert(visible_tiles@ =~= fov_quadrants(origin, range as int, map, 0)); }
    for k in 0..4usize
        invariant
            map.wf(),
            range <= 10000,
            origin_ok(origin.x as int, origin.y as int),
            visible_tiles@ == fov_quadrants(origin, range as int, map, k as nat),
            visible_tiles@.len() >= 1,
            visible_tiles@[0] == origin,
            forall|i: int| 0 <= i < visible_tiles@.len() ==>
                in_view_box(#[trigger] visible_tiles@[i], origin.x as int, origin.y as int, range as int),
    {
        let cardinal = if k == 0 {
            Cardinal::North
        } else if k == 1 {
            Cardinal::East
        } else if k == 2 {
            Cardinal::South
        } else {
            Cardinal::West
        };
        let quadrant = Quadrant::new(cardinal, origin);
        let mut first = Row::new(1, ratio_new(-1, 1), ratio_new(1, 1));
        proof {
            assert(first == first_row());
            assert(quadrant == Quadrant { cardinal: cardinal_at(k as int), ox: origin.x, oy: origin.y });
        }
        let ghost before = visible_tiles@;
        scan(&mut first, &quadrant, range, map, &mut visible_tiles);
        proof {
            assert forall|i: int| 0 <= i < visible_tiles@.len() implies
                in_view_box(#[trigger] visible_tiles@[i], origin.x as int, origin.y as int, range as int) by {
                if i < before.len() {
                    assert(visible_tiles@[i] == before[i]);
                }
            }
            assert(visible_tiles@[0] == before[0]);
        }
    }
    visible_tiles
}

/// The points of the circle that `rltk::BresenhamCircleNoDiag` walks around
/// `(cx, cy)` with the given radius, in the order it yields them.
pub uninterp spec fn circle_no_diag(cx: i32, cy: i32, radius: i32) -> Seq<(i32, i32)>;

/// `rltk::BresenhamCircleNoDiag::new(center, radius)`, collected. The result
/// depends on the centre and radius alone; its points are not described here.
#[verifier::external_body]
fn bresenham_circle_no_diag(cx: i32, cy: i32, radius: i32) -> (r: Vec<(i32, i32)>)
    requires
        0 <= radius <= 10000,
        origin_ok(cx as int, cy as int),
    ensures
        r@ == circle_no_diag(cx, cy, radius),
{
    rltk::BresenhamCircleNoDiag::new(rltk::Point::new(cx, cy), radius).map(|p| (p.x, p.y)).collect()
}

/// The row of the view square (counted from its top) that `y` falls in.
pub open spec fn view_row(y: int, oy: int, range: int) -> int {
    y - (oy - range)
}

/// A circle point that falls on row `i` of the view square.
pub open spec fn on_view_row(c: (i32, i32), i: int, oy: int, range: int) -> bool {
    view_row(c.1 as int, oy, range) == i
}

/// The horizontal extent of each row of the view circle: for row `i` of the
/// view square, the smallest and largest `x` among the origin's column and
/// the circle points on that row.
pub open spec fn circle_row_ranges_ok(r: Seq<(i32, i32)>, circle: Seq<(i32, i32)>, ox: int, oy: int, range: int) -> bool {
    &&& r.len() == 2 * range + 1
    &&& forall|i: int| 0 <= i < r.len() ==> {
        let (lo, hi) = #[trigger] r[i];
        &&& lo <= ox <= hi
        &&& forall|k: int| 0 <= k < circle.len() && on_view_row(circle[k], i, oy, range) ==>
            lo <= circle[k].0 <= hi
        &&& (lo == ox || exists|k: int| 0 <= k < circle.len() && on_view_row(circle[k], i, oy, range) && circle[k].0 == lo)
        &&& (hi == ox || exists|k: int| 0 <= k < circle.len() && on_view_row(circle[k], i, oy, range) && circle[k].0 == hi)
    }
}

/// For every row of the square of side `2 range + 1` around `origin`, the
/// leftmost and rightmost column that the circle reaches on it (the origin's
/// own column when the circle does not reach the row).
pub fn circle_row_ranges(origin: Point, range: usize, circle: &Vec<(i32, i32)>) -> (r: Vec<(i32, i32)>)
    requires
        range <= 10000,
        origin_ok(origin.x as int, origin.y as int),
    ensures
        circle_row_ranges_ok(r@, circle@, origin.x as int, origin.y as int, range as int),
{
    let n = range * 2 + 1;
    let mut ranges: Vec<(i32, i32)> = Vec::new();
    for i in 0..n
        invariant
            ranges@.len() == i,
            forall|j: int| 0 <= j < i ==> #[trigger] ranges@[j] == (origin.x, origin.x),
    {
        ranges.push((origin.x, origin.x));
    }
    let top = origin.y - range as i32;
    for k in 0..circle.len()
        invariant
            n == range * 2 + 1,
            top == origin.y - range,
            range <= 10000,
            origin_ok(origin.x as int, origin.y as int),
            circle_row_ranges_ok(ranges@, circle@.take(k as int), origin.x as int, origin.y as int, range as int),
    {
        let point = circle[k];
        let ghost prev = ranges@;
        let ghost c = circle@.take(k as int);
        let ghost c2 = circle@.take(k + 1);
        if point.1 as i64 - top as i64 >= 0 && ((point.1 as i64 - top as i64) as usize) < ranges.len() {
            let idx = (point.1 as i64 - top as i64) as usize;
            let (lo, hi) = ranges[idx];
            let lo2 = if lo > point.0 { point.0 } else { lo };
            let hi2 = if hi < point.0 { point.0 } else { hi };
            ranges.set(idx, (lo2, hi2));
        }
        proof {
            assert(c2 == c.push(point));
            assert forall|i: int| 0 <= i < ranges@.len() implies {
                let (lo, hi) = #[trigger] ranges@[i];
                &&& lo <= origin.x <= hi
                &&& forall|kk: int| 0 <= kk < c2.len() && on_view_row(c2[kk], i, origin.y as int, range as int) ==>
                    lo <= c2[kk].0 <= hi
                &&& (lo == origin.x || exists|kk: int| 0 <= kk < c2.len() && on_view_row(c2[kk], i, origin.y as int, range as int) && c2[kk].0 == lo)
                &&& (hi == origin.x || exists|kk: int| 0 <= kk < c2.len() && on_view_row(c2[kk], i, origin.y as int, range as int) && c2[kk].0 == hi)
            } by {
                let (plo, phi) = prev[i];
                assert forall|kk: int| 0 <= kk < c.len() implies #[trigger] c2[kk] == c[kk] by {}
                if plo != origin.x {
                    let w = choose|kk: int| 0 <= kk < c.len() && on_view_row(c[kk], i, origin.y as int, range as int) && c[kk].0 == plo;
                    assert(c2[w] == c[w]);
                }
                if phi != origin.x {
                    let w = choose|kk: int| 0 <= kk < c.len() && on_view_row(c[kk], i, origin.y as int, range as int) && c[kk].0 == phi;
                    assert(c2[w] == c[w]);
                }
                assert(c2[c.len() as int] == point);
            }
        }
    }
    proof { assert(circle@.take(circle@.len() as int) == circle@); }
    ranges
}

/// Whether a visible point is kept: it lies on the map and within the
/// extent of its row of the view circle.
pub open spec fn keep_in_circle(map: &TileMap, ranges: Seq<(i32, i32)>, oy: int, range: int, p: Point) -> bool {
    let row = view_row(p.y as int, oy, range);
    &&& map.in_bounds(p.x as int, p.y as int)
    &&& 0 <= row < ranges.len()
    &&& ranges[row].0 <= p.x <= ranges[row].1
}

/// The visible points that lie on the map and inside the view circle, in order.
pub fn retain_in_circle(visible: Vec<Point>, map: &TileMap, origin: Point, range: usize, ranges: &Vec<(i32, i32)>) -> (r: Vec<Point>)
    requires
        range <= 10000,
        origin_ok(origin.x as int, origin.y as int),
        forall|i: int| 0 <= i < visible@.len() ==>
            in_view_box(#[trigger] visible@[i], origin.x as int, origin.y as int, range as int),
    ensures
        r@ == visible@.filter(|p: Point| keep_in_circle(map, ranges@, origin.y as int, range as int, p)),
        visible@.len() > 0 && keep_in_circle(map, ranges@, origin.y as int, range as int, visible@[0]) ==>
            r@.len() > 0 && r@[0] == visible@[0],
{
    let ghost pred = |p: Point| keep_in_circle(map, ranges@, origin.y as int, range as int, p);
    let mut r: Vec<Point> = Vec::new();
    let top = origin.y - range as i32;
    for k in 0..visible.len()
        invariant
            top == origin.y - range,
            range <= 10000,
            origin_ok(origin.x as int, origin.y as int),
            forall|i: int| 0 <= i < visible@.len() ==>
                in_view_box(#[trigger] visible@[i], origin.x as int, origin.y as int, range as int),
            pred == (|p: Point| keep_in_circle(map, ranges@, origin.y as int, range as int, p)),
            r@ == visible@.take(k as int).filter(pred),
            k > 0 && pred(visible@[0]) ==> r@.len() > 0 && r@[0] == visible@[0],
    {
        let point = visible[k];
        proof {
            assert(in_view_box(visible@[k as int], origin.x as int, origin.y as int, range as int));
            assert(visible@.take(k + 1) == visible@.take(k as int).push(point));
            visible@.take(k as int).lemma_filter_push(point, pred);
        }
        let mut keep = true;
        if point.x < 0 || point.x >= map.width || point.y < 0 || point.y >= map.height {
            keep = false;
        } else {
            let idx = point.y - top;
            if idx < 0 || idx as usize >= ranges.len() {
                keep = false;
            } else {
                let (min, max) = ranges[idx as usize];
                keep = min <= point.x && point.x <= max;
            }
        }
        if keep {
            r.push(point);
        }
    }
    proof { assert(visible@.take(visible@.len() as int) == visible@); }
    r
}

/// `r` is what can be seen from `origin` within `range`: the symmetric
/// shadowcasting view, in its order, cut down to the map and to the rows'
/// extents of the circle that `rltk`'s Bresenham circle of that radius draws.
pub open spec fn fov_seen(map: &TileMap, origin: Point, range: int, r: Seq<Point>) -> bool {
    exists|ranges: Seq<(i32, i32)>| #![trigger circle_row_ranges_ok(ranges, circle_no_diag(origin.x, origin.y, range as i32), origin.x as int, origin.y as int, range)] {
        &&& circle_row_ranges_ok(ranges, circle_no_diag(origin.x, origin.y, range as i32), origin.x as int, origin.y as int, range)
        &&& r == spec_fov(origin, range, map).filter(|p: Point| keep_in_circle(map, ranges, origin.y as int, range, p))
    }
}

/// The tiles that can be seen from `origin` within `range`: the symmetric
/// shadowcasting view, cut down to the map and to the circle of that radius.
/// The range is at most 10000: the slopes are `i32` ratios, and a row's
/// depth times a slope, doubled and rounded, leaves `i32` once the range
/// passes about 23000, so the bound keeps that arithmetic exact with room to
/// spare; the scan also goes one level of recursion deeper per row.
pub fn field_of_view(origin: Point, range: usize, map: &TileMap) -> (r: Vec<Point>)
    requires
        map.wf(),
        range <= 10000,
        origin_ok(origin.x as int, origin.y as int),
    ensures
        forall|i: int| 0 <= i < r@.len() ==> {
            &&& map.in_bounds((#[trigger] r@[i]).x as int, r@[i].y as int)
            &&& in_view_box(r@[i], origin.x as int, origin.y as int, range as int)
        },
        fov_seen(map, origin, range as int, r@),
        map.in_bounds(origin.x as int, origin.y as int) ==> r@.len() >= 1 && r@[0] == origin,
{
    let visible = compute_fov(origin, range, map);
    let circle = bresenham_circle_no_diag(origin.x, origin.y, range as i32);
    let ranges = circle_row_ranges(origin, range, &circle);
    let ghost pred = |p: Point| keep_in_circle(map, ranges@, origin.y as int, range as int, p);
    let ghost vis = visible@;
    let r = retain_in_circle(visible, map, origin, range, &ranges);
    proof {
        broadcast use vstd::seq_lib::group_filter_ensures;
        if map.in_bounds(origin.x as int, origin.y as int) {
            assert(ranges@[range as int].0 <= origin.x <= ranges@[range as int].1);
            assert(pred(vis[0]));
        }
        assert forall|i: int| 0 <= i < r@.len() implies {
            &&& map.in_bounds((#[trigger] r@[i]).x as int, r@[i].y as int)
            &&& in_view_box(r@[i], origin.x as int, origin.y as int, range as int)
        } by {
            assert(pred(r@[i]));
            assert(r@.contains(r@[i]));
            #[allow(deprecated)]
            vis.lemma_filter_contains_rev(pred, r@[i]);
            let j = choose|j: int| 0 <= j < vis.len() && vis[j] == r@[i];
            assert(in_view_box(vis[j], origin.x as int, origin.y as int, range as int));
        }
        assert(circle_row_ranges_ok(ranges@, circle_no_diag(origin.x, origin.y, range as i32), origin.x as int, origin.y as int, range as int));
        assert(r@ == spec_fov(origin, range as int, map).filter(pred));
        assert(fov_seen(map, origin, range as int, r@));
    }
    r
}

} // verus!
