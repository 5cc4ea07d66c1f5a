//! The software rasterizer: it owns a pixel buffer during a render pass and
//! blends clipped primitives into it.

use crate::buffer::PixelBuffer;
use crate::color::{lemma_opaque_replaces, Color};
use crate::coverage::{
    ascending,
    count_up_to,
    crossings,
    lemma_count_ascending,
    lemma_no_crossings_outside,
    lemma_rectangle_covers,
    outline_cover,
    pixel_center,
    polygon_covers,
    rectangle_corners,
    row_from,
    scan_edges,
    vertical_extent,
};
use crate::geometry::{lemma_identity_apply_all, ClipRegion, Point, Transform};
use vstd::prelude::*;

verus! {

/// Why a primitive was not drawn.
#[derive(Clone, Copy, Debug, PartialEq, Eq, Structural)]
pub enum DrawError {
    /// A polygon needs at least three points; this one has the given number.
    DegeneratePolygon(usize),
}

/// `after` is `before` with `color` composited over exactly the pixels that
/// `cover` selects; every other pixel, and the size, is as before.
pub open spec fn retouched(
    before: PixelBuffer,
    after: PixelBuffer,
    cover: spec_fn(int, int) -> bool,
    color: Color,
) -> bool {
    &&& after.wf()
    &&& before.same_size(&after)
    &&& forall|x: int, y: int|
        before.contains(x, y) ==> #[trigger] after.pixel(x, y) == if cover(x, y) {
            color.over_spec(before.pixel(x, y))
        } else {
            before.pixel(x, y)
        }
}

/// `after` is `before` with a colour composited over each pixel for which
/// `source` gives one; every other pixel, and the size, is as before.
pub open spec fn composited(
    before: PixelBuffer,
    after: PixelBuffer,
    source: spec_fn(int, int) -> Option<Color>,
) -> bool {
    &&& after.wf()
    &&& before.same_size(&after)
    &&& forall|x: int, y: int|
        before.contains(x, y) ==> #[trigger] after.pixel(x, y) == match source(x, y) {
            Some(color) => color.over_spec(before.pixel(x, y)),
            None => before.pixel(x, y),
        }
}

/// One colour for the pixels that `cover` selects, none for the others.
pub open spec fn solid(cover: spec_fn(int, int) -> bool, color: Color) -> spec_fn(int, int) -> Option<
    Color,
> {
    |x: int, y: int|
        if cover(x, y) {
            Some(color)
        } else {
            None
        }
}

/// The pixels `from .. to` of row `row`.
pub open spec fn span_cover(row: u32, from: u32, to: u32) -> spec_fn(int, int) -> bool {
    |x: int, y: int| y == row && from <= x < to
}

/// The pixels whose centres lie inside the polygon with the given points of
/// user space, once `transform` has mapped them to pixel space.
pub open spec fn polygon_cover(transform: Transform, points: Seq<Point>) -> spec_fn(int, int) -> bool {
    outline_cover(transform.apply_all_spec(points))
}

/// The pixels whose centres lie inside the image of a rectangle of user space.
pub open spec fn rectangle_cover(transform: Transform, x0: i32, y0: i32, x1: i32, y1: i32) -> spec_fn(
    int,
    int,
) -> bool {
    polygon_cover(transform, rectangle_corners(x0, y0, x1, y1))
}

/// A render target together with its stack of clip regions.
#[derive(Debug)]
pub struct Rasterizer {
    target: PixelBuffer,
    clips: Vec<ClipRegion>,
}

impl Rasterizer {
    /// The pixel buffer that is drawn into.
    pub closed spec fn target(&self) -> PixelBuffer {
        self.target
    }

    /// The clip regions that were pushed and not yet popped, oldest first. Each
    /// one is already cut down to the region below it.
    pub closed spec fn clip_stack(&self) -> Seq<ClipRegion> {
        self.clips@
    }

    /// The invariant of the type: the target is a well-formed buffer.
    pub open spec fn wf(&self) -> bool {
        self.target().wf()
    }

    /// The active clip region: the top of the stack, or the whole buffer while
    /// the stack is empty.
    pub open spec fn clip_spec(&self) -> ClipRegion {
        if self.clip_stack().len() == 0 {
            ClipRegion { x0: 0, y0: 0, x1: self.target().width(), y1: self.target().height() }
        } else {
            self.clip_stack().last()
        }
    }

    /// `after` is this rasterizer once the colours of `source` have been
    /// composited over the pixels of the active clip region. Pixels outside the
    /// clip region, the size and the clip stack are unchanged.
    pub open spec fn painted(&self, after: &Rasterizer, source: spec_fn(int, int) -> Option<Color>) -> bool {
        &&& after.clip_stack() == self.clip_stack()
        &&& composited(
            self.target(),
            after.target(),
            |x: int, y: int|
                if self.clip_spec().contains_spec(x, y) {
                    source(x, y)
                } else {
                    None
                },
        )
    }

    /// Starts a render pass on `buffer`, with the whole buffer as clip region.
    pub fn new(buffer: PixelBuffer) -> (rasterizer: Rasterizer)
        requires
            buffer.wf(),
        ensures
            rasterizer.wf(),
            rasterizer.target() == buffer,
            rasterizer.clip_stack() == Seq::<ClipRegion>::empty(),
    {
        Rasterizer { target: buffer, clips: Vec::new() }
    }

    /// Ends the render pass and hands the buffer back.
    pub fn into_buffer(self) -> (buffer: PixelBuffer)
        ensures
            buffer == self.target(),
    {
        self.target
    }

    /// The buffer as it is now.
    pub fn buffer(&self) -> (buffer: &PixelBuffer)
        ensures
            *buffer == self.target(),
    {
        &self.target
    }

    /// The active clip region.
    pub fn clip(&self) -> (region: ClipRegion)
        ensures
            region == self.clip_spec(),
    {
        let depth = self.clips.len();
        if depth == 0 {
            ClipRegion { x0: 0, y0: 0, x1: self.target.width(), y1: self.target.height() }
        } else {
            self.clips[depth - 1]
        }
    }

    /// Narrows the active clip region to its intersection with `region`, until
    /// the matching `pop_clip`.
    pub fn push_clip(&mut self, region: ClipRegion)
        ensures
            final(self).target() == old(self).target(),
            final(self).clip_stack() == old(self).clip_stack().push(
                old(self).clip_spec().intersect_spec(region),
            ),
    {
        let narrowed = self.clip().intersect(&region);
        self.clips.push(narrowed);
    }

    /// Restores the clip region that was active before the last `push_clip`.
    /// Returns `false`, and changes nothing, if there is none to pop.
    pub fn pop_clip(&mut self) -> (popped: bool)
        ensures
            final(self).target() == old(self).target(),
            popped == (old(self).clip_stack().len() > 0),
            popped ==> final(self).clip_stack() == old(self).clip_stack().drop_last(),
            !popped ==> final(self).clip_stack() == old(self).clip_stack(),
    {
        match self.clips.pop() {
            Some(_) => true,
            None => false,
        }
    }

    /// Replaces every pixel of the buffer with `color`, whatever the clip
    /// region.
    pub fn clear(&mut self, color: Color)
        requires
            old(self).wf(),
        ensures
            final(self).wf(),
            final(self).clip_stack() == old(self).clip_stack(),
            old(self).target().same_size(&final(self).target()),
            forall|x: int, y: int|
                old(self).target().contains(x, y) ==> #[trigger] final(self).target().pixel(x, y)
                    == color,
    {
        self.target.clear(color);
    }

    /// Writes one pixel of the buffer, whatever the clip region; no other
    /// pixel changes.
    pub fn set_pixel(&mut self, x: u32, y: u32, color: Color)
        requires
            old(self).wf(),
            old(self).target().contains(x as int, y as int),
        ensures
            final(self).wf(),
            final(self).clip_stack() == old(self).clip_stack(),
            old(self).target().same_size(&final(self).target()),
            final(self).target().pixel(x as int, y as int) == color,
            forall|i: int, j: int|
                old(self).target().contains(i, j) && !(i == x && j == y)
                    ==> #[trigger] final(self).target().pixel(i, j) == old(self).target().pixel(i, j),
    {
        self.target.set_pixel(x, y, color);
    }

    /// Composites `color` over one pixel of the buffer.
    pub(crate) fn blend_pixel(&mut self, x: u32, y: u32, color: Color)
        requires
            old(self).wf(),
            old(self).target().contains(x as int, y as int),
        ensures
            final(self).clip_stack() == old(self).clip_stack(),
            retouched(
                old(self).target(),
                final(self).target(),
                |i: int, j: int| i == x && j == y,
                color,
            ),
    {
        let under = self.target.get_pixel(x, y);
        self.target.set_pixel(x, y, color.over(under));
    }

    /// Composites `color` over the pixels `from .. to` of one row.
    fn blend_run(&mut self, row: u32, from: u32, to: u32, color: Color)
        requires
            old(self).wf(),
            row < old(self).target().height(),
            from <= to <= old(self).target().width(),
        ensures
            final(self).clip_stack() == old(self).clip_stack(),
            retouched(
                old(self).target(),
                final(self).target(),
                |x: int, y: int| y == row && from <= x < to,
                color,
            ),
    {
        let mut x: u32 = from;
        while x < to
            invariant
                from <= x <= to,
                to <= old(self).target().width(),
                row < old(self).target().height(),
                self.clip_stack() == old(self).clip_stack(),
                retouched(
                    old(self).target(),
                    self.target(),
                    |i: int, j: int| j == row && from <= i < x,
                    color,
                ),
            decreases to - x,
        {
            let ghost middle = self.target;
            self.blend_pixel(x, row, color);
            proof {
                assert forall|i: int, j: int| old(self).target().contains(i, j) implies #[trigger] self.target().pixel(
                    i,
                    j,
                ) == if j == row && from <= i < x + 1 {
                    color.over_spec(old(self).target().pixel(i, j))
                } else {
                    old(self).target().pixel(i, j)
                } by {
                    assert(middle.contains(i, j));
                    assert(middle.pixel(i, j) == if j == row && from <= i < x {
                        color.over_spec(old(self).target().pixel(i, j))
                    } else {
                        old(self).target().pixel(i, j)
                    });
                }
            }
            x = x + 1;
        }
    }

    /// The active clip region, cut down to the buffer.
    pub(crate) fn clip_in_buffer(&self) -> (region: ClipRegion)
        ensures
            region.x1 <= self.target().width(),
            region.y1 <= self.target().height(),
            forall|x: int, y: int|
                #[trigger] region.contains_spec(x, y) <==> self.clip_spec().contains_spec(x, y)
                    && self.target().contains(x, y),
    {
        let whole = ClipRegion { x0: 0, y0: 0, x1: self.target.width(), y1: self.target.height() };
        self.clip().intersect(&whole)
    }

    /// Fills the pixels `from .. to` of row `row` with `color`, as far as they
    /// lie in the buffer and in the active clip region.
    pub fn fill_span(&mut self, row: u32, from: u32, to: u32, color: Color)
        requires
            old(self).wf(),
        ensures
            old(self).painted(final(self), solid(span_cover(row, from, to), color)),
    {
        let clip = self.clip_in_buffer();
        let first = if from >= clip.x0 {
            from
        } else {
            clip.x0
        };
        let last = if to <= clip.x1 {
            to
        } else {
            clip.x1
        };
        if clip.y0 <= row && row < clip.y1 && first < last {
            assert(clip.contains_spec(first as int, row as int));
            self.blend_run(row, first, last, color);
            proof {
                assert forall|x: int, y: int| old(self).target().contains(x, y) implies #[trigger] self.target().pixel(
                    x,
                    y,
                ) == if old(self).clip_spec().contains_spec(x, y) && (y == row && from <= x < to) {
                    color.over_spec(old(self).target().pixel(x, y))
                } else {
                    old(self).target().pixel(x, y)
                } by {
                    assert(clip.contains_spec(x, y) <==> old(self).clip_spec().contains_spec(x, y));
                }
            }
        } else {
            proof {
                assert forall|x: int, y: int| old(self).target().contains(x, y) implies !(old(
                    self,
                ).clip_spec().contains_spec(x, y) && (y == row && from <= x < to)) by {
                    assert(clip.contains_spec(x, y) <==> old(self).clip_spec().contains_spec(x, y));
                }
            }
        }
    }

    /// Fills the spans of one row that lie between pairs of crossing columns:
    /// from the first column to the second, from the third to the fourth, and
    /// so on. A last column without a partner opens a span that ends at `last`.
    fn fill_between(&mut self, row: u32, columns: &Vec<u32>, last: u32, color: Color)
        requires
            old(self).wf(),
            row < old(self).target().height(),
            last <= old(self).target().width(),
            ascending(columns@),
            forall|k: int| 0 <= k < columns@.len() ==> #[trigger] columns@[k] <= last,
        ensures
            final(self).clip_stack() == old(self).clip_stack(),
            retouched(
                old(self).target(),
                final(self).target(),
                |x: int, y: int| y == row && x < last && count_up_to(columns@, x) % 2 == 1,
                color,
            ),
    {
        let count = columns.len();
        let mut k: usize = 0;
        proof {
            assert forall|x: int|
                x < (if 0 < count {
                    columns@[0] as int
                } else {
                    last as int
                }) implies #[trigger] count_up_to(columns@, x) == 0 by {
                lemma_count_ascending(columns@, x, 0);
            }
        }
        while k < count
            invariant
                count == columns@.len(),
                k <= count,
                row < old(self).target().height(),
                last <= old(self).target().width(),
                ascending(columns@),
                forall|i: int| 0 <= i < columns@.len() ==> #[trigger] columns@[i] <= last,
                self.clip_stack() == old(self).clip_stack(),
                retouched(
                    old(self).target(),
                    self.target(),
                    |x: int, y: int|
                        y == row && x < (if k < count {
                            columns@[k as int]
                        } else {
                            last
                        }) && count_up_to(columns@, x) % 2 == 1,
                    color,
                ),
            decreases count - k,
        {
            let start = columns[k];
            let end = if k + 1 < count {
                columns[k + 1]
            } else {
                last
            };
            let ghost middle = self.target;
            if k % 2 == 0 {
                self.blend_run(row, start, end, color);
            }
            proof {
                assert forall|x: int, y: int| old(self).target().contains(x, y) implies #[trigger] self.target().pixel(
                    x,
                    y,
                ) == if y == row && x < end && count_up_to(columns@, x) % 2 == 1 {
                    color.over_spec(old(self).target().pixel(x, y))
                } else {
                    old(self).target().pixel(x, y)
                } by {
                    assert(middle.contains(x, y));
                    assert(middle.pixel(x, y) == if y == row && x < start && count_up_to(
                        columns@,
                        x,
                    ) % 2 == 1 {
                        color.over_spec(old(self).target().pixel(x, y))
                    } else {
                        old(self).target().pixel(x, y)
                    });
                    if y == row && start <= x < end {
                        lemma_count_ascending(columns@, x, k + 1);
                    }
                }
            }
            k = k + 1;
        }
    }

    /// Fills a polygon with `color`. The points are mapped through `transform`
    /// to pixel space; a pixel is covered if its centre lies inside the mapped
    /// outline by the even-odd rule. Covered pixels outside the active clip
    /// region are left alone. A polygon of fewer than three points is refused,
    /// and nothing is drawn.
    pub fn fill_polygon(&mut self, transform: &Transform, points: &[Point], color: Color) -> (result:
        Result<(), DrawError>)
        requires
            old(self).wf(),
        ensures
            points@.len() < 3 ==> result == Err::<(), DrawError>(
                DrawError::DegeneratePolygon(points.len()),
            ) && *final(self) == *old(self),
            points@.len() >= 3 ==> result is Ok && old(self).painted(
                final(self),
                solid(polygon_cover(*transform, points@), color),
            ),
    {
        if points.len() < 3 {
            return Err(DrawError::DegeneratePolygon(points.len()));
        }
        let mapped = transform.apply_all(points);
        self.fill_outline(&mapped, color);
        Ok(())
    }

    /// Fills the outline whose corners are given in pixel space.
    pub(crate) fn fill_outline(&mut self, outline: &Vec<Point>, color: Color)
        requires
            old(self).wf(),
        ensures
            old(self).painted(final(self), solid(outline_cover(outline@), color)),
    {
        let clip = self.clip_in_buffer();
        if clip.x0 >= clip.x1 || clip.y0 >= clip.y1 || outline.len() == 0 {
            proof {
                assert forall|x: int, y: int| old(self).target().contains(x, y) implies !(old(
                    self,
                ).clip_spec().contains_spec(x, y) && polygon_covers(outline@, x, y)) by {
                    assert(clip.contains_spec(x, y) <==> old(self).clip_spec().contains_spec(x, y));
                }
            }
            return ;
        }
        let (low, high) = vertical_extent(outline);
        let first = row_from(low, clip.y0, clip.y1);
        let end = row_from(high, clip.y0, clip.y1);
        assert(first <= end) by {
            assert(low <= outline@[0].y <= high);
            if end < clip.y1 {
                assert(high <= pixel_center(end as int));
            }
        }
        let mut columns: Vec<u32> = Vec::new();
        let mut row: u32 = first;
        while row < end
            invariant
                clip.y0 <= first <= row <= end <= clip.y1,
                clip.x0 < clip.x1 <= old(self).target().width(),
                clip.y1 <= old(self).target().height(),
                self.clip_stack() == old(self).clip_stack(),
                retouched(
                    old(self).target(),
                    self.target(),
                    |x: int, y: int|
                        first <= y < row && clip.x0 <= x < clip.x1 && polygon_covers(outline@, x, y),
                    color,
                ),
            decreases end - row,
        {
            scan_edges(outline, row, clip.x0, clip.x1, &mut columns);
            let ghost middle = self.target;
            self.fill_between(row, &columns, clip.x1, color);
            proof {
                assert forall|x: int, y: int| old(self).target().contains(x, y) implies #[trigger] self.target().pixel(
                    x,
                    y,
                ) == if first <= y < row + 1 && clip.x0 <= x < clip.x1 && polygon_covers(
                    outline@,
                    x,
                    y,
                ) {
                    color.over_spec(old(self).target().pixel(x, y))
                } else {
                    old(self).target().pixel(x, y)
                } by {
                    assert(middle.contains(x, y));
                    assert(middle.pixel(x, y) == if first <= y < row && clip.x0 <= x < clip.x1
                        && polygon_covers(outline@, x, y) {
                        color.over_spec(old(self).target().pixel(x, y))
                    } else {
                        old(self).target().pixel(x, y)
                    });
                    if y == row {
                        if x < clip.x0 {
                            lemma_count_ascending(columns@, x, 0);
                        } else if x < clip.x1 {
                            assert(count_up_to(columns@, x) == crossings(
                                outline@,
                                outline@.len(),
                                pixel_center(x),
                                pixel_center(y),
                            ));
                        }
                    }
                }
            }
            row = row + 1;
        }
        proof {
            assert forall|x: int, y: int| old(self).target().contains(x, y) implies #[trigger] self.target().pixel(
                x,
                y,
            ) == if old(self).clip_spec().contains_spec(x, y) && polygon_covers(outline@, x, y) {
                color.over_spec(old(self).target().pixel(x, y))
            } else {
                old(self).target().pixel(x, y)
            } by {
                assert(clip.contains_spec(x, y) <==> old(self).clip_spec().contains_spec(x, y));
                if clip.contains_spec(x, y) && !(first <= y < row) {
                    assert(pixel_center(y) < low || pixel_center(y) >= high);
                    lemma_no_crossings_outside(
                        outline@,
                        outline@.len(),
                        low as int,
                        high as int,
                        pixel_center(x),
                        pixel_center(y),
                    );
                }
            }
        }
    }

    /// Fills the rectangle between the corners `(x0, y0)` and `(x1, y1)` of
    /// user space, mapped through `transform`, with `color`.
    pub fn fill_rect(
        &mut self,
        transform: &Transform,
        x0: i32,
        y0: i32,
        x1: i32,
        y1: i32,
        color: Color,
    )
        requires
            old(self).wf(),
        ensures
            old(self).painted(final(self), solid(rectangle_cover(*transform, x0, y0, x1, y1), color)),
    {
        let mut corners: Vec<Point> = Vec::new();
        corners.push(Point { x: x0, y: y0 });
        corners.push(Point { x: x1, y: y0 });
        corners.push(Point { x: x1, y: y1 });
        corners.push(Point { x: x0, y: y1 });
        assert(corners@ =~= rectangle_corners(x0, y0, x1, y1));
        let mapped = transform.apply_all(&corners);
        self.fill_outline(&mapped, color);
    }
}

/// Under the identity a rectangle covers exactly the pixels whose centres lie
/// in it, its left and upper sides included, its right and lower sides not.
pub proof fn lemma_identity_rectangle(x0: i32, y0: i32, x1: i32, y1: i32, x: int, y: int)
    requires
        x0 <= x1,
        y0 <= y1,
    ensures
        rectangle_cover(Transform::identity_spec(), x0, y0, x1, y1)(x, y) <==> x0 <= pixel_center(x)
            < x1 && y0 <= pixel_center(y) < y1,
{
    lemma_identity_apply_all(rectangle_corners(x0, y0, x1, y1));
    lemma_rectangle_covers(x0, y0, x1, y1, x, y);
}

/// Whatever is drawn, a pixel outside the active clip region keeps its colour.
pub proof fn lemma_clip_confines(
    before: Rasterizer,
    after: Rasterizer,
    source: spec_fn(int, int) -> Option<Color>,
    x: int,
    y: int,
)
    requires
        before.painted(&after, source),
        before.target().contains(x, y),
        !before.clip_spec().contains_spec(x, y),
    ensures
        after.target().pixel(x, y) == before.target().pixel(x, y),
{
}

/// Inside the active clip region a solid fill composites its colour over
/// exactly the covered pixels.
pub proof fn lemma_fill_inside_clip(
    before: Rasterizer,
    after: Rasterizer,
    cover: spec_fn(int, int) -> bool,
    color: Color,
    x: int,
    y: int,
)
    requires
        before.painted(&after, solid(cover, color)),
        before.target().contains(x, y),
        before.clip_spec().contains_spec(x, y),
    ensures
        cover(x, y) ==> after.target().pixel(x, y) == color.over_spec(before.target().pixel(x, y)),
        !cover(x, y) ==> after.target().pixel(x, y) == before.target().pixel(x, y),
{
}

/// With no clip pushed, filling the rectangle of the whole buffer with an
/// opaque colour under the identity leaves every pixel with that colour.
pub proof fn lemma_opaque_rectangle_fills_buffer(before: Rasterizer, after: Rasterizer, color: Color)
    requires
        before.clip_stack().len() == 0,
        before.target().width() <= 0x7f_ffff,
        before.target().height() <= 0x7f_ffff,
        color.a == 255,
        before.painted(
            &after,
            solid(
                rectangle_cover(
                    Transform::identity_spec(),
                    0,
                    0,
                    (256 * before.target().width()) as i32,
                    (256 * before.target().height()) as i32,
                ),
                color,
            ),
        ),
    ensures
        forall|x: int, y: int|
            before.target().contains(x, y) ==> #[trigger] after.target().pixel(x, y) == color,
{
    let right = (256 * before.target().width()) as i32;
    let bottom = (256 * before.target().height()) as i32;
    assert forall|x: int, y: int| before.target().contains(x, y) implies #[trigger] after.target().pixel(
        x,
        y,
    ) == color by {
        lemma_identity_rectangle(0, 0, right, bottom, x, y);
        lemma_fill_inside_clip(
            before,
            after,
            rectangle_cover(Transform::identity_spec(), 0, 0, right, bottom),
            color,
            x,
            y,
        );
        lemma_opaque_replaces(color, before.target().pixel(x, y));
    }
}

} // verus!
