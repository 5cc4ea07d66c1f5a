//! Lines: a segment with a width is the quadrilateral that lies half the width
//! to either side of it.

use crate::color::Color;
use crate::coverage::outline_cover;
use crate::fixed::{clamp_to_i32, div_floor, mul_wide, saturate};
use crate::geometry::{Point, Transform};
use crate::raster::{solid, Rasterizer};
use vstd::prelude::*;

verus! {

/// `root` is the integer square root of `n`: the greatest number whose square
/// is at most `n`.
pub open spec fn is_integer_root(root: int, n: int) -> bool {
    0 <= root && root * root <= n < (root + 1) * (root + 1)
}

/// The integer square root of `n`.
pub open spec fn integer_root(n: int) -> int {
    choose|root: int| is_integer_root(root, n)
}

/// A number has at most one integer square root.
pub proof fn lemma_integer_root_unique(a: int, b: int, n: int)
    requires
        is_integer_root(a, n),
        is_integer_root(b, n),
    ensures
        a == b,
{
    if a < b {
        assert((a + 1) * (a + 1) <= b * b) by (nonlinear_arith)
            requires
                0 <= a,
                a + 1 <= b,
        ;
    } else if b < a {
        assert((b + 1) * (b + 1) <= a * a) by (nonlinear_arith)
            requires
                0 <= b,
                b + 1 <= a,
        ;
    }
}

/// The integer square root of a number below 2 to the 66, by bisection.
pub fn square_root(n: u128) -> (root: u64)
    requires
        n < 0x4_0000_0000_0000_0000,
    ensures
        is_integer_root(root as int, n as int),
        root == integer_root(n as int),
        root <= 0x2_0000_0000,
{
    let mut low: u128 = 0;
    let mut high: u128 = 0x2_0000_0000;
    while high - low > 1
        invariant
            low < high <= 0x2_0000_0000,
            low * low <= n < high * high,
        decreases high - low,
    {
        let middle = low + (high - low) / 2;
        assert(middle * middle <= 0x2_0000_0000 * 0x2_0000_0000) by (nonlinear_arith)
            requires
                0 <= middle <= 0x2_0000_0000,
        ;
        if middle * middle <= n {
            low = middle;
        } else {
            high = middle;
        }
    }
    proof {
        assert(is_integer_root(low as int, n as int));
        lemma_integer_root_unique(low as int, integer_root(n as int), n as int);
    }
    low as u64
}

/// One coordinate of the offset from a line to its side: `across * width`
/// divided by twice the length, rounded to the nearest step.
pub open spec fn side_offset(across: int, width: int, length: int) -> int {
    (across * width + length) / (2 * length)
}

/// The corners of the quadrilateral of a line from `from` to `to` that is
/// `width` steps wide: the two ends, each moved by half the width to the left
/// of the line and to its right. A line without length has all four corners in
/// one point.
pub open spec fn line_corners(from: Point, to: Point, width: u32) -> Seq<Point> {
    let dx = to.x - from.x;
    let dy = to.y - from.y;
    let length = integer_root(dx * dx + dy * dy);
    if length == 0 {
        seq![from, from, from, from]
    } else {
        let ox = side_offset(-dy, width as int, length);
        let oy = side_offset(dx, width as int, length);
        seq![
            Point { x: clamp_to_i32(from.x + ox) as i32, y: clamp_to_i32(from.y + oy) as i32 },
            Point { x: clamp_to_i32(to.x + ox) as i32, y: clamp_to_i32(to.y + oy) as i32 },
            Point { x: clamp_to_i32(to.x - ox) as i32, y: clamp_to_i32(to.y - oy) as i32 },
            Point { x: clamp_to_i32(from.x - ox) as i32, y: clamp_to_i32(from.y - oy) as i32 },
        ]
    }
}

/// The corners of the quadrilateral of a line.
pub fn line_quad(from: Point, to: Point, width: u32) -> (corners: Vec<Point>)
    ensures
        corners@ == line_corners(from, to, width),
{
    let dx: i128 = to.x as i128 - from.x as i128;
    let dy: i128 = to.y as i128 - from.y as i128;
    let squares = mul_wide(dx, dx) + mul_wide(dy, dy);
    assert(0 <= dx * dx + dy * dy < 0x4_0000_0000_0000_0000) by (nonlinear_arith)
        requires
            -0x1_0000_0000 < dx < 0x1_0000_0000,
            -0x1_0000_0000 < dy < 0x1_0000_0000,
    ;
    let length = square_root(squares as u128) as i128;
    let mut corners: Vec<Point> = Vec::new();
    if length == 0 {
        corners.push(from);
        corners.push(from);
        corners.push(from);
        corners.push(from);
        assert(corners@ =~= line_corners(from, to, width));
    } else {
        let ox = div_floor(mul_wide(-dy, width as i128) + length, 2 * length);
        let oy = div_floor(mul_wide(dx, width as i128) + length, 2 * length);
        assert(ox == side_offset(-dy as int, width as int, length as int));
        assert(oy == side_offset(dx as int, width as int, length as int));
        corners.push(Point { x: saturate(from.x as i128 + ox), y: saturate(from.y as i128 + oy) });
        corners.push(Point { x: saturate(to.x as i128 + ox), y: saturate(to.y as i128 + oy) });
        corners.push(Point { x: saturate(to.x as i128 - ox), y: saturate(to.y as i128 - oy) });
        corners.push(Point { x: saturate(from.x as i128 - ox), y: saturate(from.y as i128 - oy) });
        assert(corners@ =~= line_corners(from, to, width));
    }
    corners
}

/// The pixels whose centres lie inside the quadrilateral of a line of user
/// space, once `transform` has mapped its corners to pixel space.
pub open spec fn line_cover(transform: Transform, from: Point, to: Point, width: u32) -> spec_fn(
    int,
    int,
) -> bool {
    outline_cover(transform.apply_all_spec(line_corners(from, to, width)))
}

impl Rasterizer {
    /// Draws the line from `from` to `to`, `width` steps wide, as a filled
    /// quadrilateral. The corners are found in user space and then mapped
    /// through `transform`. A line without length or without width covers no
    /// pixel.
    pub fn draw_line(&mut self, transform: &Transform, from: Point, to: Point, width: u32, color: Color)
        requires
            old(self).wf(),
        ensures
            old(self).painted(final(self), solid(line_cover(*transform, from, to, width), color)),
    {
        let corners = line_quad(from, to, width);
        let mapped = transform.apply_all(&corners);
        self.fill_outline(&mapped, color);
    }
}

} // verus!
