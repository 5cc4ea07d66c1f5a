//! Text: glyph masks blended into the buffer, one glyph after another along a
//! pen that moves by each glyph's advance.

use crate::buffer::PixelBuffer;
use crate::cache::{lookup_spec, GlyphCache};
use crate::color::{lemma_transparent_keeps, Color};
use crate::fixed::{clamp_to_i32, div_floor, saturate};
use crate::geometry::{Point, Transform};
use crate::glyph::{EntryModel, FontModel, GlyphEntry, GlyphError, GlyphKey};
use crate::raster::Rasterizer;
use vstd::prelude::*;

verus! {

/// The colours that a glyph mask lays over the buffer when its upper left
/// pixel is put on pixel `(left, top)`: the text colour, its alpha multiplied
/// by the coverage of the mask's pixel.
pub open spec fn glyph_source(entry: EntryModel, left: int, top: int, color: Color) -> spec_fn(
    int,
    int,
) -> Option<Color> {
    |x: int, y: int|
        if left <= x < left + entry.width && top <= y < top + entry.height {
            Some(color.with_coverage_spec(entry.at(x - left, y - top)))
        } else {
            None
        }
}

/// A line of text to be drawn: the fonts to take glyphs from, the key of the
/// font and the pixel size, the characters, the transform that maps the pen to
/// pixel space, the place of the pen before the first character, and the
/// colour.
pub struct TextRun {
    pub fonts: Seq<FontModel>,
    pub font: u16,
    pub size: u16,
    pub text: Seq<char>,
    pub transform: Transform,
    pub origin: Point,
    pub color: Color,
}

impl TextRun {
    /// The glyph of character number `k`, or why there is none.
    pub open spec fn glyph(self, k: int) -> Result<EntryModel, GlyphError> {
        lookup_spec(self.fonts, GlyphKey { font: self.font, size: self.size, ch: self.text[k] })
    }

    /// The pen, in user space, after the first `k` characters: each glyph
    /// moves it by its advance, and a character without glyph leaves it where
    /// it is.
    pub open spec fn pen(self, k: nat) -> Point
        decreases k,
    {
        if k == 0 {
            self.origin
        } else {
            let before = self.pen((k - 1) as nat);
            match self.glyph(k - 1) {
                Ok(entry) => Point {
                    x: clamp_to_i32(before.x + entry.advance_x) as i32,
                    y: clamp_to_i32(before.y + entry.advance_y) as i32,
                },
                Err(_) => before,
            }
        }
    }

    /// The pixel on which the upper left pixel of glyph number `k` is put: the
    /// pixel that holds the image of the pen under the transform.
    pub open spec fn corner(self, k: nat) -> (int, int) {
        let mapped = self.transform.apply_spec(self.pen(k));
        (mapped.x as int / 256, mapped.y as int / 256)
    }

    /// The colour of pixel `(x, y)` once the first `k` characters are drawn
    /// over a pixel of colour `base`.
    pub open spec fn pixel(self, k: nat, x: int, y: int, base: Color) -> Color
        decreases k,
    {
        if k == 0 {
            base
        } else {
            let under = self.pixel((k - 1) as nat, x, y, base);
            match self.glyph(k - 1) {
                Ok(entry) => {
                    let corner = self.corner((k - 1) as nat);
                    match glyph_source(entry, corner.0, corner.1, self.color)(x, y) {
                        Some(tint) => tint.over_spec(under),
                        None => under,
                    }
                },
                Err(_) => under,
            }
        }
    }

    /// The characters among the first `k` that have no glyph, each with its
    /// place in the text and the reason, in the order of the text.
    pub open spec fn failures(self, k: nat) -> Seq<(usize, GlyphError)>
        decreases k,
    {
        if k == 0 {
            Seq::empty()
        } else {
            let before = self.failures((k - 1) as nat);
            match self.glyph(k - 1) {
                Ok(_) => before,
                Err(error) => before.push(((k - 1) as usize, error)),
            }
        }
    }
}

/// The mask of a glyph as an image: every pixel has the given colour, its
/// alpha multiplied by the coverage of the mask's pixel. `None` if the machine
/// cannot address the bytes of such an image.
pub fn glyph_image(entry: &GlyphEntry, color: Color) -> (image: Option<PixelBuffer>)
    requires
        entry.wf(),
    ensures
        entry@.width * entry@.height * 4 > usize::MAX ==> image is None,
        entry@.width * entry@.height * 4 <= usize::MAX ==> image is Some && image->Some_0.wf()
            && image->Some_0.width() == entry@.width && image->Some_0.height() == entry@.height
            && forall|x: int, y: int|
            image->Some_0.contains(x, y) ==> #[trigger] image->Some_0.pixel(x, y)
                == color.with_coverage_spec(entry@.at(x, y)),
{
    let width = entry.width();
    let height = entry.height();
    let mut image = match PixelBuffer::try_create(width, height) {
        Some(image) => image,
        None => {
            return None;
        },
    };
    let mut y: u32 = 0;
    while y < height
        invariant
            entry.wf(),
            width == entry@.width,
            height == entry@.height,
            y <= height,
            image.wf(),
            image.width() == width,
            image.height() == height,
            forall|i: int, j: int|
                image.contains(i, j) && j < y ==> #[trigger] image.pixel(i, j)
                    == color.with_coverage_spec(entry@.at(i, j)),
        decreases height - y,
    {
        let mut x: u32 = 0;
        while x < width
            invariant
                entry.wf(),
                width == entry@.width,
                height == entry@.height,
                y < height,
                x <= width,
                image.wf(),
                image.width() == width,
                image.height() == height,
                forall|i: int, j: int|
                    image.contains(i, j) && (j < y || (j == y && i < x)) ==> #[trigger] image.pixel(
                        i,
                        j,
                    ) == color.with_coverage_spec(entry@.at(i, j)),
            decreases width - x,
        {
            image.set_pixel(x, y, color.with_coverage(entry.coverage_at(x, y)));
            x = x + 1;
        }
        y = y + 1;
    }
    Some(image)
}

impl Rasterizer {
    /// Draws a line of text. The pen starts at `origin` in user space. For each
    /// character the glyph is taken from the cache, the pen is mapped through
    /// `transform`, and the glyph's mask is blended with its upper left pixel
    /// on the pixel that holds the mapped pen; then the pen moves by the
    /// glyph's advance. A character whose glyph cannot be had is skipped and
    /// reported with its place in the text; the rest of the line is drawn.
    pub fn draw_text(
        &mut self,
        cache: &mut GlyphCache,
        transform: &Transform,
        font: u16,
        size: u16,
        text: &[char],
        origin: Point,
        color: Color,
    ) -> (failures: Vec<(usize, GlyphError)>)
        requires
            old(self).wf(),
            old(cache).wf(),
        ensures
            final(cache).wf(),
            final(cache).fonts() == old(cache).fonts(),
            final(self).wf(),
            final(self).clip_stack() == old(self).clip_stack(),
            old(self).target().same_size(&final(self).target()),
            forall|x: int, y: int|
                old(self).target().contains(x, y) ==> #[trigger] final(self).target().pixel(x, y)
                    == if old(self).clip_spec().contains_spec(x, y) {
                    (TextRun {
                        fonts: old(cache).fonts(),
                        font,
                        size,
                        text: text@,
                        transform: *transform,
                        origin,
                        color,
                    }).pixel(text@.len(), x, y, old(self).target().pixel(x, y))
                } else {
                    old(self).target().pixel(x, y)
                },
            failures@ == (TextRun {
                fonts: old(cache).fonts(),
                font,
                size,
                text: text@,
                transform: *transform,
                origin,
                color,
            }).failures(text@.len()),
    {
        let ghost run = TextRun {
            fonts: old(cache).fonts(),
            font,
            size,
            text: text@,
            transform: *transform,
            origin,
            color,
        };
        let mut failures: Vec<(usize, GlyphError)> = Vec::new();
        let mut pen = origin;
        let mut k: usize = 0;
        while k < text.len()
            invariant
                k <= text@.len(),
                run == (TextRun {
                    fonts: old(cache).fonts(),
                    font,
                    size,
                    text: text@,
                    transform: *transform,
                    origin,
                    color,
                }),
                cache.wf(),
                cache.fonts() == old(cache).fonts(),
                self.wf(),
                self.clip_stack() == old(self).clip_stack(),
                self.clip_spec() == old(self).clip_spec(),
                old(self).target().same_size(&self.target()),
                pen == run.pen(k as nat),
                failures@ == run.failures(k as nat),
                forall|x: int, y: int|
                    old(self).target().contains(x, y) ==> #[trigger] self.target().pixel(x, y) == if old(
                        self,
                    ).clip_spec().contains_spec(x, y) {
                        run.pixel(k as nat, x, y, old(self).target().pixel(x, y))
                    } else {
                        old(self).target().pixel(x, y)
                    },
            decreases text@.len() - k,
        {
            let ghost middle = self.target();
            match cache.get_or_rasterize(font, size, text[k]) {
                Ok(entry) => {
                    assert(run.glyph(k as int) == Ok::<EntryModel, GlyphError>(entry@));
                    let mapped = transform.apply(pen);
                    let left = saturate(div_floor(mapped.x as i128, 256));
                    let top = saturate(div_floor(mapped.y as i128, 256));
                    assert(run.corner(k as nat) == (left as int, top as int));
                    self.draw_glyph(&entry, left, top, color);
                    pen = Point {
                        x: saturate(pen.x as i128 + entry.advance_x() as i128),
                        y: saturate(pen.y as i128 + entry.advance_y() as i128),
                    };
                    proof {
                        assert forall|x: int, y: int| old(self).target().contains(x, y) implies #[trigger] self.target().pixel(
                            x,
                            y,
                        ) == if old(self).clip_spec().contains_spec(x, y) {
                            run.pixel((k + 1) as nat, x, y, old(self).target().pixel(x, y))
                        } else {
                            old(self).target().pixel(x, y)
                        } by {
                            assert(middle.contains(x, y));
                            assert(middle.pixel(x, y) == if old(self).clip_spec().contains_spec(
                                x,
                                y,
                            ) {
                                run.pixel(k as nat, x, y, old(self).target().pixel(x, y))
                            } else {
                                old(self).target().pixel(x, y)
                            });
                        }
                    }
                },
                Err(error) => {
                    assert(run.glyph(k as int) == Err::<EntryModel, GlyphError>(error));
                    failures.push((k, error));
                },
            }
            k = k + 1;
        }
        failures
    }

    /// Blends a glyph mask into the buffer, its upper left pixel on pixel
    /// `(left, top)`. The coverage of each pixel of the mask scales the alpha
    /// of `color`; the result is composited over the buffer inside the active
    /// clip region.
    pub fn draw_glyph(&mut self, entry: &GlyphEntry, left: i32, top: i32, color: Color)
        requires
            old(self).wf(),
            entry.wf(),
        ensures
            old(self).painted(final(self), glyph_source(entry@, left as int, top as int, color)),
    {
        let clip = self.clip_in_buffer();
        let right: i64 = left as i64 + entry.width() as i64;
        let bottom: i64 = top as i64 + entry.height() as i64;
        let x0: i64 = if left as i64 > clip.x0 as i64 {
            left as i64
        } else {
            clip.x0 as i64
        };
        let y0: i64 = if top as i64 > clip.y0 as i64 {
            top as i64
        } else {
            clip.y0 as i64
        };
        let x1: i64 = if right < clip.x1 as i64 {
            right
        } else {
            clip.x1 as i64
        };
        let y1: i64 = if bottom < clip.y1 as i64 {
            bottom
        } else {
            clip.y1 as i64
        };
        let ghost source = glyph_source(entry@, left as int, top as int, color);
        if x0 >= x1 || y0 >= y1 {
            proof {
                assert forall|x: int, y: int| old(self).target().contains(x, y) implies !(old(
                    self,
                ).clip_spec().contains_spec(x, y) && source(x, y) is Some) by {
                    assert(clip.contains_spec(x, y) <==> old(self).clip_spec().contains_spec(x, y));
                }
            }
            return ;
        }
        let mut y: i64 = y0;
        while y < y1
            invariant
                entry.wf(),
                0 <= x0 < x1 <= old(self).target().width(),
                0 <= y0 <= y <= y1 <= old(self).target().height(),
                left <= x0,
                x1 <= left + entry@.width,
                top <= y0,
                y1 <= top + entry@.height,
                source == glyph_source(entry@, left as int, top as int, color),
                self.wf(),
                self.clip_stack() == old(self).clip_stack(),
                old(self).target().same_size(&self.target()),
                forall|i: int, j: int|
                    old(self).target().contains(i, j) ==> #[trigger] self.target().pixel(i, j) == if x0
                        <= i < x1 && y0 <= j < y {
                        source(i, j)->Some_0.over_spec(old(self).target().pixel(i, j))
                    } else {
                        old(self).target().pixel(i, j)
                    },
            decreases y1 - y,
        {
            let mut x: i64 = x0;
            while x < x1
                invariant
                    entry.wf(),
                    0 <= x0 <= x <= x1 <= old(self).target().width(),
                    0 <= y0 <= y < y1 <= old(self).target().height(),
                    left <= x0,
                    x1 <= left + entry@.width,
                    top <= y0,
                    y1 <= top + entry@.height,
                    source == glyph_source(entry@, left as int, top as int, color),
                    self.wf(),
                    self.clip_stack() == old(self).clip_stack(),
                    old(self).target().same_size(&self.target()),
                    forall|i: int, j: int|
                        old(self).target().contains(i, j) ==> #[trigger] self.target().pixel(i, j)
                            == if x0 <= i < x1 && (y0 <= j < y || (j == y && i < x)) {
                            source(i, j)->Some_0.over_spec(old(self).target().pixel(i, j))
                        } else {
                            old(self).target().pixel(i, j)
                        },
                decreases x1 - x,
            {
                let coverage = entry.coverage_at((x - left as i64) as u32, (y - top as i64) as u32);
                let tint = color.with_coverage(coverage);
                let ghost middle = self.target();
                if tint.a != 0 {
                    self.blend_pixel(x as u32, y as u32, tint);
                }
                proof {
                    assert(source(x as int, y as int) == Some(tint));
                    assert forall|i: int, j: int| old(self).target().contains(i, j) implies #[trigger] self.target().pixel(
                        i,
                        j,
                    ) == if x0 <= i < x1 && (y0 <= j < y || (j == y && i < x + 1)) {
                        source(i, j)->Some_0.over_spec(old(self).target().pixel(i, j))
                    } else {
                        old(self).target().pixel(i, j)
                    } by {
                        assert(middle.contains(i, j));
                        assert(middle.pixel(i, j) == if x0 <= i < x1 && (y0 <= j < y || (j == y && i
                            < x)) {
                            source(i, j)->Some_0.over_spec(old(self).target().pixel(i, j))
                        } else {
                            old(self).target().pixel(i, j)
                        });
                        if tint.a == 0 {
                            lemma_transparent_keeps(tint, middle.pixel(i, j));
                        }
                    }
                }
                x = x + 1;
            }
            y = y + 1;
        }
        proof {
            assert forall|x: int, y: int| old(self).target().contains(x, y) implies #[trigger] self.target().pixel(
                x,
                y,
            ) == match (if old(self).clip_spec().contains_spec(x, y) {
                source(x, y)
            } else {
                None
            }) {
                Some(c) => c.over_spec(old(self).target().pixel(x, y)),
                None => old(self).target().pixel(x, y),
            } by {
                assert(clip.contains_spec(x, y) <==> old(self).clip_spec().contains_spec(x, y));
            }
        }
    }
}

} // verus!
