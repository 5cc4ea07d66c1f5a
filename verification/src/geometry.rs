//! Fixed-point geometry: points, affine transforms and clip rectangles.
//!
//! Coordinates are 32-bit integers that count 1/256 of a pixel. The linear part
//! of a transform counts 1/65536, so that `65536` stands for `1.0`. Results that
//! leave the 32-bit range saturate at its ends.

use crate::fixed::{clamp_to_i32, div_floor, mul_wide, saturate};
use vstd::prelude::*;

verus! {

/// The number of coordinate steps in one pixel.
pub const SUBPIXELS: i32 = 256;

/// The fixed-point value of `1.0` in the linear part of a transform.
pub const UNIT: i32 = 65536;

/// A point, in steps of 1/256 of a pixel.
#[derive(Clone, Copy, Debug, PartialEq, Eq, Structural)]
pub struct Point {
    pub x: i32,
    pub y: i32,
}

/// `a * x + b * y + t`, where `a` and `b` count 1/65536: the sum of the products
/// is rounded to the nearest coordinate step (a half rounds up), the
/// translation is added, and the result saturates.
pub open spec fn combine_spec(a: int, x: int, b: int, y: int, t: int) -> int {
    clamp_to_i32((a * x + b * y + 32768) / 65536 + t)
}

/// One entry of a matrix product, or one coordinate of the image of a point.
fn combine(a: i32, x: i32, b: i32, y: i32, t: i32) -> (r: i32)
    ensures
        r == combine_spec(a as int, x as int, b as int, y as int, t as int),
{
    let first = mul_wide(a as i128, x as i128);
    let second = mul_wide(b as i128, y as i128);
    let quotient = div_floor(first + second + 32768, 65536);
    saturate(quotient + t as i128)
}

impl Point {
    /// The point with the given coordinates, in steps of 1/256 of a pixel.
    pub fn new(x: i32, y: i32) -> (p: Point)
        ensures
            p == (Point { x, y }),
    {
        Point { x, y }
    }

    /// The point at whole-pixel coordinates.
    pub open spec fn from_pixels_spec(x: i32, y: i32) -> Point {
        Point { x: clamp_to_i32(x * 256) as i32, y: clamp_to_i32(y * 256) as i32 }
    }

    /// The point at whole-pixel coordinates; coordinates beyond the fixed-point
    /// range saturate.
    pub fn from_pixels(x: i32, y: i32) -> (p: Point)
        ensures
            p == Point::from_pixels_spec(x, y),
    {
        Point { x: saturate(x as i128 * 256), y: saturate(y as i128 * 256) }
    }
}

/// A 2x3 affine matrix that maps user space to pixel space:
/// `x' = xx * x + xy * y + dx` and `y' = yx * x + yy * y + dy`. The four factors
/// count 1/65536, the two translations 1/256 of a pixel.
#[derive(Clone, Copy, Debug, PartialEq, Eq, Structural)]
pub struct Transform {
    pub xx: i32,
    pub xy: i32,
    pub dx: i32,
    pub yx: i32,
    pub yy: i32,
    pub dy: i32,
}

impl Transform {
    /// The matrix with the given rows.
    pub fn new(xx: i32, xy: i32, dx: i32, yx: i32, yy: i32, dy: i32) -> (m: Transform)
        ensures
            m == (Transform { xx, xy, dx, yx, yy, dy }),
    {
        Transform { xx, xy, dx, yx, yy, dy }
    }

    /// The identity, `[[1, 0, 0], [0, 1, 0]]`.
    pub open spec fn identity_spec() -> Transform {
        Transform { xx: 65536, xy: 0, dx: 0, yx: 0, yy: 65536, dy: 0 }
    }

    /// The identity, `[[1, 0, 0], [0, 1, 0]]`.
    pub fn identity() -> (m: Transform)
        ensures
            m == Transform::identity_spec(),
    {
        Transform { xx: UNIT, xy: 0, dx: 0, yx: 0, yy: UNIT, dy: 0 }
    }

    /// The transform that moves every point by `(dx, dy)`.
    pub fn translation(dx: i32, dy: i32) -> (m: Transform)
        ensures
            m == (Transform { xx: 65536, xy: 0, dx, yx: 0, yy: 65536, dy }),
    {
        Transform { xx: UNIT, xy: 0, dx, yx: 0, yy: UNIT, dy }
    }

    /// The transform that scales the axes by `sx` and `sy`.
    pub fn scaling(sx: i32, sy: i32) -> (m: Transform)
        ensures
            m == (Transform { xx: sx, xy: 0, dx: 0, yx: 0, yy: sy, dy: 0 }),
    {
        Transform { xx: sx, xy: 0, dx: 0, yx: 0, yy: sy, dy: 0 }
    }

    /// The image of a point.
    pub open spec fn apply_spec(self, p: Point) -> Point {
        Point {
            x: combine_spec(self.xx as int, p.x as int, self.xy as int, p.y as int, self.dx as int) as i32,
            y: combine_spec(self.yx as int, p.x as int, self.yy as int, p.y as int, self.dy as int) as i32,
        }
    }

    /// Maps a point from user space to pixel space.
    pub fn apply(&self, p: Point) -> (q: Point)
        ensures
            q == self.apply_spec(p),
    {
        Point {
            x: combine(self.xx, p.x, self.xy, p.y, self.dx),
            y: combine(self.yx, p.x, self.yy, p.y, self.dy),
        }
    }

    /// The images of a sequence of points, in the same order.
    pub open spec fn apply_all_spec(self, points: Seq<Point>) -> Seq<Point> {
        Seq::new(points.len(), |i: int| self.apply_spec(points[i]))
    }

    /// Maps every point of a list from user space to pixel space.
    pub fn apply_all(&self, points: &[Point]) -> (mapped: Vec<Point>)
        ensures
            mapped@ == self.apply_all_spec(points@),
    {
        let mut mapped: Vec<Point> = Vec::new();
        let mut i: usize = 0;
        while i < points.len()
            invariant
                i <= points.len(),
                mapped@.len() == i,
                forall|k: int| 0 <= k < i ==> mapped@[k] == self.apply_spec(points@[k]),
            decreases points.len() - i,
        {
            mapped.push(self.apply(points[i]));
            i = i + 1;
        }
        assert(mapped@ =~= self.apply_all_spec(points@));
        mapped
    }

    /// The matrix product `self * inner`: the transform that applies `inner`
    /// first and `self` to its result. Every entry is rounded and saturates.
    pub open spec fn multiply_spec(self, inner: Transform) -> Transform {
        Transform {
            xx: combine_spec(self.xx as int, inner.xx as int, self.xy as int, inner.yx as int, 0) as i32,
            xy: combine_spec(self.xx as int, inner.xy as int, self.xy as int, inner.yy as int, 0) as i32,
            dx: combine_spec(
                self.xx as int,
                inner.dx as int,
                self.xy as int,
                inner.dy as int,
                self.dx as int,
            ) as i32,
            yx: combine_spec(self.yx as int, inner.xx as int, self.yy as int, inner.yx as int, 0) as i32,
            yy: combine_spec(self.yx as int, inner.xy as int, self.yy as int, inner.yy as int, 0) as i32,
            dy: combine_spec(
                self.yx as int,
                inner.dx as int,
                self.yy as int,
                inner.dy as int,
                self.dy as int,
            ) as i32,
        }
    }

    /// Composes two transforms by matrix multiplication.
    pub fn multiply(&self, inner: &Transform) -> (m: Transform)
        ensures
            m == self.multiply_spec(*inner),
    {
        Transform {
            xx: combine(self.xx, inner.xx, self.xy, inner.yx, 0),
            xy: combine(self.xx, inner.xy, self.xy, inner.yy, 0),
            dx: combine(self.xx, inner.dx, self.xy, inner.dy, self.dx),
            yx: combine(self.yx, inner.xx, self.yy, inner.yx, 0),
            yy: combine(self.yx, inner.xy, self.yy, inner.yy, 0),
            dy: combine(self.yx, inner.dx, self.yy, inner.dy, self.dy),
        }
    }
}

/// One times a coordinate plus nothing of the other is that coordinate.
proof fn lemma_unit_combine(x: int, y: int)
    requires
        i32::MIN <= x <= i32::MAX,
    ensures
        combine_spec(65536, x, 0, y, 0) == x,
        combine_spec(0, y, 65536, x, 0) == x,
{
    assert(0 * y == 0);
    assert((65536 * x + 32768) / 65536 == x);
}

/// A row of a matrix, multiplied with the columns of the identity, is that
/// row.
proof fn lemma_unit_products(a: int, b: int, t: int)
    requires
        i32::MIN <= a <= i32::MAX,
        i32::MIN <= b <= i32::MAX,
        i32::MIN <= t <= i32::MAX,
    ensures
        combine_spec(a, 65536, b, 0, 0) == a,
        combine_spec(a, 0, b, 65536, 0) == b,
        combine_spec(a, 0, b, 0, t) == t,
{
    assert(a * 0 == 0 && b * 0 == 0);
    assert((a * 65536 + 32768) / 65536 == a);
    assert((b * 65536 + 32768) / 65536 == b);
}

/// The identity maps every point to itself.
pub proof fn lemma_identity_apply(p: Point)
    ensures
        Transform::identity_spec().apply_spec(p) == p,
{
    lemma_unit_combine(p.x as int, p.y as int);
    lemma_unit_combine(p.y as int, p.x as int);
}

/// A translation adds its two entries to the coordinates of a point.
pub proof fn lemma_translation_apply(dx: i32, dy: i32, p: Point)
    ensures
        (Transform { xx: 65536, xy: 0, dx, yx: 0, yy: 65536, dy }).apply_spec(p) == (Point {
            x: clamp_to_i32(p.x + dx) as i32,
            y: clamp_to_i32(p.y + dy) as i32,
        }),
{
    assert(0 * (p.y as int) == 0 && 0 * (p.x as int) == 0);
    assert((65536 * (p.x as int) + 32768) / 65536 == p.x);
    assert((65536 * (p.y as int) + 32768) / 65536 == p.y);
}

/// The identity maps every list of points to itself.
pub proof fn lemma_identity_apply_all(points: Seq<Point>)
    ensures
        Transform::identity_spec().apply_all_spec(points) == points,
{
    assert forall|i: int| 0 <= i < points.len() implies Transform::identity_spec().apply_spec(
        points[i],
    ) == points[i] by {
        lemma_identity_apply(points[i]);
    }
    assert(Transform::identity_spec().apply_all_spec(points) =~= points);
}

/// The identity is neutral for composition, on both sides.
pub proof fn lemma_identity_multiply(m: Transform)
    ensures
        Transform::identity_spec().multiply_spec(m) == m,
        m.multiply_spec(Transform::identity_spec()) == m,
{
    lemma_unit_combine(m.xx as int, m.yx as int);
    lemma_unit_combine(m.xy as int, m.yy as int);
    lemma_unit_combine(m.dx as int, m.dy as int);
    lemma_unit_combine(m.yx as int, m.xx as int);
    lemma_unit_combine(m.yy as int, m.xy as int);
    lemma_unit_combine(m.dy as int, m.dx as int);
    lemma_unit_products(m.xx as int, m.xy as int, m.dx as int);
    lemma_unit_products(m.yx as int, m.yy as int, m.dy as int);
}

/// An axis-aligned rectangle of pixels: the columns from `x0` up to but not
/// including `x1`, and the rows from `y0` up to but not including `y1`.
#[derive(Clone, Copy, Debug, PartialEq, Eq, Structural)]
pub struct ClipRegion {
    pub x0: u32,
    pub y0: u32,
    pub x1: u32,
    pub y1: u32,
}

impl ClipRegion {
    /// `true` for the pixels of the region.
    pub open spec fn contains_spec(self, x: int, y: int) -> bool {
        self.x0 <= x < self.x1 && self.y0 <= y < self.y1
    }

    /// The region of `width` columns and `height` rows whose first pixel is
    /// `(x, y)`. A region that would reach beyond the last column or row that a
    /// coordinate can name ends there.
    pub fn new(x: u32, y: u32, width: u32, height: u32) -> (region: ClipRegion)
        ensures
            region.x0 == x,
            region.y0 == y,
            region.x1 == if x + width > u32::MAX {
                u32::MAX as int
            } else {
                x + width
            },
            region.y1 == if y + height > u32::MAX {
                u32::MAX as int
            } else {
                y + height
            },
    {
        let x1: u32 = if width > u32::MAX - x {
            u32::MAX
        } else {
            x + width
        };
        let y1: u32 = if height > u32::MAX - y {
            u32::MAX
        } else {
            y + height
        };
        ClipRegion { x0: x, y0: y, x1, y1 }
    }

    /// Tells whether the pixel `(x, y)` lies in the region.
    pub fn contains(&self, x: u32, y: u32) -> (inside: bool)
        ensures
            inside == self.contains_spec(x as int, y as int),
    {
        self.x0 <= x && x < self.x1 && self.y0 <= y && y < self.y1
    }

    /// Tells whether the region holds no pixel at all.
    pub fn is_empty(&self) -> (empty: bool)
        ensures
            empty <==> forall|x: int, y: int| !self.contains_spec(x, y),
    {
        let empty = self.x1 <= self.x0 || self.y1 <= self.y0;
        proof {
            if !empty {
                assert(self.contains_spec(self.x0 as int, self.y0 as int));
            }
        }
        empty
    }

    /// The pixels that lie in both regions.
    pub open spec fn intersect_spec(self, other: ClipRegion) -> ClipRegion {
        ClipRegion {
            x0: if self.x0 >= other.x0 {
                self.x0
            } else {
                other.x0
            },
            y0: if self.y0 >= other.y0 {
                self.y0
            } else {
                other.y0
            },
            x1: if self.x1 <= other.x1 {
                self.x1
            } else {
                other.x1
            },
            y1: if self.y1 <= other.y1 {
                self.y1
            } else {
                other.y1
            },
        }
    }

    /// The region of the pixels that lie in both regions.
    pub fn intersect(&self, other: &ClipRegion) -> (region: ClipRegion)
        ensures
            region == self.intersect_spec(*other),
            forall|x: int, y: int|
                #[trigger] region.contains_spec(x, y) <==> self.contains_spec(x, y)
                    && other.contains_spec(x, y),
    {
        ClipRegion {
            x0: if self.x0 >= other.x0 {
                self.x0
            } else {
                other.x0
            },
            y0: if self.y0 >= other.y0 {
                self.y0
            } else {
                other.y0
            },
            x1: if self.x1 <= other.x1 {
                self.x1
            } else {
                other.x1
            },
            y1: if self.y1 <= other.y1 {
                self.y1
            } else {
                other.y1
            },
        }
    }
}

} // verus!
