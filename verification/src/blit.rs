//! Image blit: the pixels of a source image, each drawn as the unit square
//! that it occupies in user space, mapped forward through the transform.

use crate::buffer::PixelBuffer;
use crate::color::{lemma_transparent_keeps, Color};
use crate::fixed::{clamp_to_i32, saturate};
use crate::geometry::{ClipRegion, Transform};
use crate::raster::{lemma_identity_rectangle, rectangle_cover, Rasterizer};
use vstd::prelude::*;

verus! {

/// A blit to be done: the pixels of `image` in the rectangle `source` are laid
/// out in user space, one unit square of 256 steps each, so that the pixel in
/// column `source.x0` and row `source.y0` has its upper left corner at
/// `(x, y)`; `transform` maps the squares to pixel space. Every colour of the
/// image is multiplied by `tint` before it is composited.
pub struct BlitJob {
    pub transform: Transform,
    pub image: PixelBuffer,
    pub source: ClipRegion,
    pub x: i32,
    pub y: i32,
    pub tint: Color,
}

impl BlitJob {
    /// The part of the source rectangle that lies in the image.
    pub open spec fn region(self) -> ClipRegion {
        self.source.intersect_spec(
            ClipRegion { x0: 0, y0: 0, x1: self.image.width(), y1: self.image.height() },
        )
    }

    /// The number of the image's rows that are drawn: the rows of the region,
    /// or none if the region holds no pixel.
    pub open spec fn rows(self) -> nat {
        if self.region().x0 < self.region().x1 && self.region().y0 < self.region().y1 {
            (self.region().y1 - self.region().y0) as nat
        } else {
            0
        }
    }

    /// The left side, in user space, of the squares of the image's column `u`.
    pub open spec fn left(self, u: int) -> i32 {
        clamp_to_i32(self.x + 256 * (u - self.source.x0)) as i32
    }

    /// The upper side, in user space, of the squares of the image's row `v`.
    pub open spec fn top(self, v: int) -> i32 {
        clamp_to_i32(self.y + 256 * (v - self.source.y0)) as i32
    }

    /// The pixels of the buffer that the square of the image's pixel `(u, v)`
    /// covers.
    pub open spec fn cell(self, u: int, v: int) -> spec_fn(int, int) -> bool {
        rectangle_cover(self.transform, self.left(u), self.top(v), self.left(u + 1), self.top(v + 1))
    }

    /// The colour of the buffer's pixel `(x, y)` once the first `n` pixels of
    /// the region's part of the image's row `v` are drawn, from left to right,
    /// over a pixel of colour `base`.
    pub open spec fn row_pixel(self, v: int, n: nat, x: int, y: int, base: Color) -> Color
        decreases n,
    {
        if n == 0 {
            base
        } else {
            let under = self.row_pixel(v, (n - 1) as nat, x, y, base);
            let u = self.region().x0 + n - 1;
            if self.cell(u, v)(x, y) {
                self.image.pixel(u, v).modulate_spec(self.tint).over_spec(under)
            } else {
                under
            }
        }
    }

    /// The colour of the buffer's pixel `(x, y)` once the first `n` rows of
    /// the region are drawn, from top to bottom, over a pixel of colour `base`.
    pub open spec fn pixel(self, n: nat, x: int, y: int, base: Color) -> Color
        decreases n,
    {
        if n == 0 {
            base
        } else {
            self.row_pixel(
                self.region().y0 + n - 1,
                (self.region().x1 - self.region().x0) as nat,
                x,
                y,
                self.pixel((n - 1) as nat, x, y, base),
            )
        }
    }
}

impl Rasterizer {
    /// Draws the pixels of `image` that lie in the rectangle `source`. In user
    /// space every pixel of the image is a unit square of 256 steps, and the
    /// square of the pixel in column `source.x0` and row `source.y0` has its
    /// upper left corner at `(x, y)`. Row by row and from left to right, each
    /// square is mapped through `transform` and filled with the colour of its
    /// pixel multiplied by `tint`, which is composited over the buffer inside
    /// the active clip region.
    pub fn blit(
        &mut self,
        transform: &Transform,
        image: &PixelBuffer,
        source: ClipRegion,
        x: i32,
        y: i32,
        tint: Color,
    )
        requires
            old(self).wf(),
            image.wf(),
        ensures
            final(self).wf(),
            final(self).clip_stack() == old(self).clip_stack(),
            old(self).target().same_size(&final(self).target()),
            forall|i: int, j: int|
                old(self).target().contains(i, j) ==> #[trigger] final(self).target().pixel(i, j)
                    == if old(self).clip_spec().contains_spec(i, j) {
                    (BlitJob { transform: *transform, image: *image, source, x, y, tint }).pixel(
                        (BlitJob { transform: *transform, image: *image, source, x, y, tint }).rows(),
                        i,
                        j,
                        old(self).target().pixel(i, j),
                    )
                } else {
                    old(self).target().pixel(i, j)
                },
    {
        let ghost job = BlitJob { transform: *transform, image: *image, source, x, y, tint };
        let whole = ClipRegion { x0: 0, y0: 0, x1: image.width(), y1: image.height() };
        let region = source.intersect(&whole);
        if region.x0 >= region.x1 || region.y0 >= region.y1 {
            return ;
        }
        let mut v: u32 = region.y0;
        while v < region.y1
            invariant
                job == (BlitJob { transform: *transform, image: *image, source, x, y, tint }),
                region == job.region(),
                region.x0 < region.x1 <= image.width(),
                region.y0 <= v <= region.y1 <= image.height(),
                source.x0 <= region.x0,
                source.y0 <= region.y0,
                image.wf(),
                self.wf(),
                self.clip_stack() == old(self).clip_stack(),
                self.clip_spec() == old(self).clip_spec(),
                old(self).target().same_size(&self.target()),
                forall|i: int, j: int|
                    old(self).target().contains(i, j) ==> #[trigger] self.target().pixel(i, j) == if old(
                        self,
                    ).clip_spec().contains_spec(i, j) {
                        job.pixel((v - region.y0) as nat, i, j, old(self).target().pixel(i, j))
                    } else {
                        old(self).target().pixel(i, j)
                    },
            decreases region.y1 - v,
        {
            let top = saturate(y as i128 + 256 * (v as i128 - source.y0 as i128));
            let bottom = saturate(y as i128 + 256 * (v as i128 + 1 - source.y0 as i128));
            let ghost above = self.target();
            let mut u: u32 = region.x0;
            while u < region.x1
                invariant
                    job == (BlitJob { transform: *transform, image: *image, source, x, y, tint }),
                    region == job.region(),
                    region.x0 <= u <= region.x1 <= image.width(),
                    region.y0 <= v < region.y1 <= image.height(),
                    source.x0 <= region.x0,
                    source.y0 <= region.y0,
                    top == job.top(v as int),
                    bottom == job.top(v + 1),
                    image.wf(),
                    self.wf(),
                    self.clip_stack() == old(self).clip_stack(),
                    self.clip_spec() == old(self).clip_spec(),
                    old(self).target().same_size(&self.target()),
                    old(self).target().same_size(&above),
                    forall|i: int, j: int|
                        old(self).target().contains(i, j) ==> #[trigger] above.pixel(i, j) == if old(
                            self,
                        ).clip_spec().contains_spec(i, j) {
                            job.pixel((v - region.y0) as nat, i, j, old(self).target().pixel(i, j))
                        } else {
                            old(self).target().pixel(i, j)
                        },
                    forall|i: int, j: int|
                        old(self).target().contains(i, j) ==> #[trigger] self.target().pixel(i, j)
                            == if old(self).clip_spec().contains_spec(i, j) {
                            job.row_pixel(
                                v as int,
                                (u - region.x0) as nat,
                                i,
                                j,
                                above.pixel(i, j),
                            )
                        } else {
                            old(self).target().pixel(i, j)
                        },
                decreases region.x1 - u,
            {
                let left = saturate(x as i128 + 256 * (u as i128 - source.x0 as i128));
                let right = saturate(x as i128 + 256 * (u as i128 + 1 - source.x0 as i128));
                let color = image.get_pixel(u, v).modulate(tint);
                let ghost middle = self.target();
                if color.a != 0 {
                    self.fill_rect(transform, left, top, right, bottom, color);
                }
                proof {
                    let n = (u - region.x0) as nat;
                    assert(job.cell(u as int, v as int) == rectangle_cover(
                        *transform,
                        left,
                        top,
                        right,
                        bottom,
                    ));
                    assert forall|i: int, j: int| old(self).target().contains(i, j) implies #[trigger] self.target().pixel(
                        i,
                        j,
                    ) == if old(self).clip_spec().contains_spec(i, j) {
                        job.row_pixel(v as int, n + 1, i, j, above.pixel(i, j))
                    } else {
                        old(self).target().pixel(i, j)
                    } by {
                        assert(middle.contains(i, j));
                        assert(middle.pixel(i, j) == if old(self).clip_spec().contains_spec(i, j) {
                            job.row_pixel(v as int, n, i, j, above.pixel(i, j))
                        } else {
                            old(self).target().pixel(i, j)
                        });
                        assert(above.pixel(i, j) == if old(self).clip_spec().contains_spec(i, j) {
                            job.pixel((v - region.y0) as nat, i, j, old(self).target().pixel(i, j))
                        } else {
                            old(self).target().pixel(i, j)
                        });
                        if color.a == 0 {
                            lemma_transparent_keeps(color, middle.pixel(i, j));
                        }
                    }
                }
                u = u + 1;
            }
            proof {
                assert forall|i: int, j: int| old(self).target().contains(i, j) implies #[trigger] self.target().pixel(
                    i,
                    j,
                ) == if old(self).clip_spec().contains_spec(i, j) {
                    job.pixel((v + 1 - region.y0) as nat, i, j, old(self).target().pixel(i, j))
                } else {
                    old(self).target().pixel(i, j)
                } by {
                    assert(above.pixel(i, j) == if old(self).clip_spec().contains_spec(i, j) {
                        job.pixel((v - region.y0) as nat, i, j, old(self).target().pixel(i, j))
                    } else {
                        old(self).target().pixel(i, j)
                    });
                }
            }
            v = v + 1;
        }
    }
}

impl BlitJob {
    /// The blit is a plain copy: the transform is the identity, the corner
    /// `(x, y)` is the corner of pixel `(column, row)`, and no square of the
    /// region leaves the range of the coordinates.
    pub open spec fn aligned(self, column: int, row: int) -> bool {
        &&& self.transform == Transform::identity_spec()
        &&& self.x == 256 * column
        &&& self.y == 256 * row
        &&& -0x80_0000 <= column + (self.region().x0 - self.source.x0)
        &&& column + (self.region().x1 - self.source.x0) < 0x80_0000
        &&& -0x80_0000 <= row + (self.region().y0 - self.source.y0)
        &&& row + (self.region().y1 - self.source.y0) < 0x80_0000
    }

    /// The colour that the blit composites over a pixel.
    pub open spec fn tinted(self, u: int, v: int) -> Color {
        self.image.pixel(u, v).modulate_spec(self.tint)
    }
}

/// In a plain copy the square of an image's pixel covers one pixel of the
/// buffer: the one at the same distance from `(column, row)` as the image's
/// pixel is from the corner of the source rectangle.
pub proof fn lemma_aligned_cell(job: BlitJob, column: int, row: int, u: int, v: int, x: int, y: int)
    requires
        job.aligned(column, row),
        job.region().x0 <= u < job.region().x1,
        job.region().y0 <= v < job.region().y1,
    ensures
        job.cell(u, v)(x, y) <==> x == column + (u - job.source.x0) && y == row + (v
            - job.source.y0),
{
    lemma_identity_rectangle(job.left(u), job.top(v), job.left(u + 1), job.top(v + 1), x, y);
}

/// In a plain copy the pixels of one row of the image go to one row of the
/// buffer, each to its own pixel.
pub proof fn lemma_aligned_row(
    job: BlitJob,
    column: int,
    row: int,
    v: int,
    n: nat,
    x: int,
    y: int,
    base: Color,
)
    requires
        job.aligned(column, row),
        job.region().y0 <= v < job.region().y1,
        n <= job.region().x1 - job.region().x0,
    ensures
        job.row_pixel(v, n, x, y, base) == if y == row + (v - job.source.y0) && job.region().x0 <= x
            - column + job.source.x0 < job.region().x0 + n {
            job.tinted(x - column + job.source.x0, v).over_spec(base)
        } else {
            base
        },
    decreases n,
{
    if n > 0 {
        lemma_aligned_row(job, column, row, v, (n - 1) as nat, x, y, base);
        lemma_aligned_cell(job, column, row, job.region().x0 + n - 1, v, x, y);
    }
}

/// A plain copy composites every pixel of the region, once, over the pixel of
/// the buffer at the same distance from `(column, row)` as the image's pixel
/// is from the corner of the source rectangle, and touches no other pixel.
pub proof fn lemma_aligned_blit(job: BlitJob, column: int, row: int, x: int, y: int, base: Color)
    requires
        job.aligned(column, row),
    ensures
        job.pixel(job.rows(), x, y, base) == if job.region().contains_spec(
            x - column + job.source.x0,
            y - row + job.source.y0,
        ) {
            job.tinted(x - column + job.source.x0, y - row + job.source.y0).over_spec(base)
        } else {
            base
        },
{
    lemma_aligned_rows(job, column, row, job.rows(), x, y, base);
}

/// The same, for the first `n` rows of the region.
proof fn lemma_aligned_rows(
    job: BlitJob,
    column: int,
    row: int,
    n: nat,
    x: int,
    y: int,
    base: Color,
)
    requires
        job.aligned(column, row),
        n <= job.rows(),
    ensures
        job.pixel(n, x, y, base) == if job.region().x0 <= x - column + job.source.x0
            < job.region().x1 && job.region().y0 <= y - row + job.source.y0 < job.region().y0 + n {
            job.tinted(x - column + job.source.x0, y - row + job.source.y0).over_spec(base)
        } else {
            base
        },
    decreases n,
{
    if n > 0 {
        lemma_aligned_rows(job, column, row, (n - 1) as nat, x, y, base);
        lemma_aligned_row(
            job,
            column,
            row,
            job.region().y0 + n - 1,
            (job.region().x1 - job.region().x0) as nat,
            x,
            y,
            job.pixel((n - 1) as nat, x, y, base),
        );
    }
}

} // verus!
