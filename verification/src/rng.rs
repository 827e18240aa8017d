use vstd::prelude::*;
use rltk::RandomNumberGenerator;
use crate::point::Point;

verus! {

/// The game's random number generator, `rltk::RandomNumberGenerator`.
#[verifier::external_type_specification]
#[verifier::external_body]
pub struct ExRandomNumberGenerator(RandomNumberGenerator);

/// `RandomNumberGenerator::roll_dice(n, die_type)`: the source adds up `n`
/// draws of `range(1, die_type + 1)`, each between 1 and `die_type`, so the
/// total lies between `n` and `n * die_type` (and is 0 when `n` is not
/// positive). Which total comes out depends on the generator's state.
#[verifier::external_body]
pub(crate) fn roll_dice(rng: &mut RandomNumberGenerator, n: i32, die_type: i32) -> (r: i32)
    requires
        n <= 0 || (1 <= die_type < i32::MAX && n * die_type <= i32::MAX),
    ensures
        n <= 0 ==> r == 0,
        n > 0 ==> n <= r <= n * die_type,
{
    rng.roll_dice(n, die_type)
}

/// `RandomNumberGenerator::range(min, max)`: a draw from `rand`'s
/// `gen_range(min..max)`, between `min` (included) and `max` (left out).
#[verifier::external_body]
pub(crate) fn rng_range(rng: &mut RandomNumberGenerator, min: i32, max: i32) -> (r: i32)
    requires
        min < max,
    ensures
        min <= r < max,
{
    rng.range(min, max)
}

/// The points of the straight line from `(x1, y1)` to `(x2, y2)` that
/// `rltk::line2d` draws with Bresenham's algorithm.
pub uninterp spec fn bresenham_line(x1: i32, y1: i32, x2: i32, y2: i32) -> Seq<Point>;

/// `rltk::line2d(LineAlg::Bresenham, start, end)`: the source collects the
/// points of a `Bresenham` iterator, which yields `start` and the cells
/// stepped through, each within the rectangle spanned by the two ends,
/// and then appends `end`. The whole line is named [`bresenham_line`];
/// what is stated of it here is that it starts at `start`, ends at `end`
/// and stays inside that rectangle.
#[verifier::external_body]
pub(crate) fn line_points(x1: i32, y1: i32, x2: i32, y2: i32) -> (r: Vec<Point>)
    requires
        -0x100_0000 <= x1 <= 0x100_0000,
        -0x100_0000 <= y1 <= 0x100_0000,
        -0x100_0000 <= x2 <= 0x100_0000,
        -0x100_0000 <= y2 <= 0x100_0000,
    ensures
        r@ == bresenham_line(x1, y1, x2, y2),
        r@.len() >= 1,
        r@[0] == (Point { x: x1, y: y1 }),
        r@.last() == (Point { x: x2, y: y2 }),
        forall|k: int| 0 <= k < r@.len() ==> {
            &&& (if x1 <= x2 { x1 <= (#[trigger] r@[k]).x <= x2 } else { x2 <= r@[k].x <= x1 })
            &&& (if y1 <= y2 { y1 <= r@[k].y <= y2 } else { y2 <= r@[k].y <= y1 })
        },
{
    rltk::line2d(rltk::LineAlg::Bresenham, rltk::Point::new(x1, y1), rltk::Point::new(x2, y2))
        .iter()
        .map(|p| Point { x: p.x, y: p.y })
        .collect()
}

} // verus!
