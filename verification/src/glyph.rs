//! Glyphs: bitmap fonts, the coverage masks rasterized from them, and the
//! cache that keeps each mask once it has been made.

use crate::buffer::{lemma_index_in_range, lemma_index_surjective};
use crate::fixed::{clamp_to_i32, lemma_floor_div_bound, saturate};
use vstd::prelude::*;

verus! {

/// The largest number of pixels that a coverage mask may hold.
pub const MAX_MASK_PIXELS: u64 = 0x100_0000;

/// Why a glyph could not be had.
#[derive(Clone, Copy, Debug, PartialEq, Eq, Structural)]
pub enum GlyphError {
    /// No font is registered under this identifier.
    UnknownFont(u16),
    /// The font holds no glyph for this character.
    MissingGlyph(char),
    /// At this size the mask would hold more than `MAX_MASK_PIXELS` pixels.
    MaskTooLarge,
}

/// The key of a cached glyph: font identifier, pixel size, character.
#[derive(Clone, Copy, Debug, PartialEq, Eq, Structural)]
pub struct GlyphKey {
    pub font: u16,
    pub size: u16,
    pub ch: char,
}

impl GlyphKey {
    /// The key as one number: the font in the top 16 bits, then the size, then
    /// the character's code point in the low 32 bits.
    pub open spec fn pack_spec(self) -> u64 {
        (self.font * 0x1_0000_0000_0000 + self.size * 0x1_0000_0000 + self.ch as u32) as u64
    }

    /// Packs the key into one number; distinct keys give distinct numbers.
    pub fn pack(&self) -> (packed: u64)
        ensures
            packed == self.pack_spec(),
    {
        self.font as u64 * 0x1_0000_0000_0000 + self.size as u64 * 0x1_0000_0000 + (
        self.ch as u32) as u64
    }
}

/// Distinct keys are packed into distinct numbers.
pub proof fn lemma_pack_injective(a: GlyphKey, b: GlyphKey)
    requires
        a.pack_spec() == b.pack_spec(),
    ensures
        a == b,
{
}

/// What a glyph of a bitmap font is: its character, its advance in cells'
/// pixels, and one coverage value for each pixel of the cell, row by row.
pub struct GlyphModel {
    pub ch: char,
    pub advance: u16,
    pub coverage: Seq<u8>,
}

/// What a bitmap font is: the size of its cell, and its glyphs.
pub struct FontModel {
    pub cell_width: nat,
    pub cell_height: nat,
    pub glyphs: Seq<GlyphModel>,
}

/// What a rasterized glyph is: a mask of `width * height` coverage values, row
/// by row, and the advance of the pen in steps of 1/256 of a pixel.
pub struct EntryModel {
    pub width: nat,
    pub height: nat,
    pub coverage: Seq<u8>,
    pub advance_x: int,
    pub advance_y: int,
}

impl EntryModel {
    /// The coverage of the mask's pixel in column `i` of row `j`.
    pub open spec fn at(self, i: int, j: int) -> u8 {
        self.coverage[j * self.width + i]
    }
}

impl FontModel {
    /// A font has a cell that is not empty, one coverage value for each pixel of
    /// the cell in every glyph, and no two glyphs for one character.
    pub open spec fn wf(self) -> bool {
        &&& 0 < self.cell_width <= 0xffff
        &&& 0 < self.cell_height <= 0xffff
        &&& forall|i: int|
            0 <= i < self.glyphs.len() ==> (#[trigger] self.glyphs[i]).coverage.len()
                == self.cell_width * self.cell_height
        &&& forall|i: int, j: int|
            0 <= i < j < self.glyphs.len() ==> (#[trigger] self.glyphs[i]).ch != (
            #[trigger] self.glyphs[j]).ch
    }

    /// The font holds a glyph for `ch`.
    pub open spec fn has(self, ch: char) -> bool {
        exists|i: int| 0 <= i < self.glyphs.len() && (#[trigger] self.glyphs[i]).ch == ch
    }

    /// The glyph for `ch`, in a font that holds one.
    pub open spec fn glyph(self, ch: char) -> GlyphModel {
        self.glyphs[choose|i: int| 0 <= i < self.glyphs.len() && (#[trigger] self.glyphs[i]).ch == ch]
    }

    /// The width of a mask at pixel size `size`: the cell's width, scaled as
    /// the cell's height is scaled to `size`, rounded down.
    pub open spec fn mask_width(self, size: u16) -> nat {
        ((self.cell_width * size) / (self.cell_height as int)) as nat
    }

    /// The offset in a glyph's cell of the pixel that pixel number `k` of the
    /// mask is taken from: the nearest neighbour above and to the left.
    pub open spec fn source_offset(self, size: u16, k: int) -> int {
        let width = self.mask_width(size) as int;
        let column = k % width;
        let row = k / width;
        ((row * self.cell_height) / (size as int)) * self.cell_width + (column * self.cell_height)
            / (size as int)
    }

    /// The mask of a glyph at pixel size `size`.
    pub open spec fn scaled(self, glyph: GlyphModel, size: u16) -> EntryModel {
        EntryModel {
            width: self.mask_width(size),
            height: size as nat,
            coverage: Seq::new(
                self.mask_width(size) * size as nat,
                |k: int| glyph.coverage[self.source_offset(size, k)],
            ),
            advance_x: clamp_to_i32((glyph.advance * size * 256) / (self.cell_height as int)),
            advance_y: 0,
        }
    }

    /// The result of rasterizing the glyph for `ch` at pixel size `size`.
    pub open spec fn rasterize_spec(self, size: u16, ch: char) -> Result<EntryModel, GlyphError> {
        if !self.has(ch) {
            Err(GlyphError::MissingGlyph(ch))
        } else if self.mask_width(size) * size > MAX_MASK_PIXELS {
            Err(GlyphError::MaskTooLarge)
        } else {
            Ok(self.scaled(self.glyph(ch), size))
        }
    }
}

/// A rasterized glyph: a coverage mask and the advance of the pen.
#[derive(Debug)]
pub struct GlyphEntry {
    width: u32,
    height: u32,
    coverage: Vec<u8>,
    advance_x: i32,
    advance_y: i32,
}

impl View for GlyphEntry {
    type V = EntryModel;

    /// The mask and the advances of the entry.
    closed spec fn view(&self) -> EntryModel {
        EntryModel {
            width: self.width as nat,
            height: self.height as nat,
            coverage: self.coverage@,
            advance_x: self.advance_x as int,
            advance_y: self.advance_y as int,
        }
    }
}

impl Clone for GlyphEntry {
    /// A copy of the entry, with a mask of its own.
    fn clone(&self) -> (copy: GlyphEntry)
        ensures
            copy@ == self@,
    {
        GlyphEntry {
            width: self.width,
            height: self.height,
            coverage: self.coverage.clone(),
            advance_x: self.advance_x,
            advance_y: self.advance_y,
        }
    }
}

impl GlyphEntry {
    /// The invariant of the type: the mask holds one value for each of its
    /// pixels, and its sides and advances fit their fields.
    pub open spec fn wf(&self) -> bool {
        &&& self@.coverage.len() == self@.width * self@.height
        &&& self@.width <= u32::MAX
        &&& self@.height <= u32::MAX
        &&& i32::MIN <= self@.advance_x <= i32::MAX
        &&& i32::MIN <= self@.advance_y <= i32::MAX
    }

    /// An entry with the given mask and advances; `None` if the mask does not
    /// hold exactly `width * height` values.
    pub fn new(width: u32, height: u32, coverage: Vec<u8>, advance_x: i32, advance_y: i32) -> (entry:
        Option<GlyphEntry>)
        ensures
            coverage@.len() != width * height ==> entry is None,
            coverage@.len() == width * height ==> entry is Some && entry->Some_0.wf()
                && entry->Some_0@ == (EntryModel {
                width: width as nat,
                height: height as nat,
                coverage: coverage@,
                advance_x: advance_x as int,
                advance_y: advance_y as int,
            }),
    {
        assert(width * height <= 0xffff_ffff * 0xffff_ffff) by (nonlinear_arith)
            requires
                0 <= width <= 0xffff_ffff,
                0 <= height <= 0xffff_ffff,
        ;
        if coverage.len() as u128 == width as u128 * height as u128 {
            Some(GlyphEntry { width, height, coverage, advance_x, advance_y })
        } else {
            None
        }
    }

    /// The number of columns of the mask.
    pub fn width(&self) -> (w: u32)
        ensures
            w == self@.width,
    {
        self.width
    }

    /// The number of rows of the mask.
    pub fn height(&self) -> (h: u32)
        ensures
            h == self@.height,
    {
        self.height
    }

    /// How far the pen moves to the right after this glyph.
    pub fn advance_x(&self) -> (a: i32)
        ensures
            a == self@.advance_x,
    {
        self.advance_x
    }

    /// How far the pen moves down after this glyph.
    pub fn advance_y(&self) -> (a: i32)
        ensures
            a == self@.advance_y,
    {
        self.advance_y
    }

    /// The coverage values, row by row.
    pub fn coverage(&self) -> (values: &[u8])
        ensures
            values@ == self@.coverage,
    {
        self.coverage.as_slice()
    }

    /// The coverage of the mask's pixel in column `i` of row `j`.
    pub fn coverage_at(&self, i: u32, j: u32) -> (value: u8)
        requires
            self.wf(),
            i < self@.width,
            j < self@.height,
        ensures
            value == self@.at(i as int, j as int),
    {
        let len = self.coverage.len();
        proof {
            lemma_index_in_range(self.width as int, self.height as int, i as int, j as int);
        }
        self.coverage[j as usize * self.width as usize + i as usize]
    }
}

/// One glyph of a bitmap font.
pub struct Glyph {
    ch: char,
    advance: u16,
    coverage: Vec<u8>,
}

impl View for Glyph {
    type V = GlyphModel;

    /// The character, the advance and the coverage of the glyph.
    closed spec fn view(&self) -> GlyphModel {
        GlyphModel { ch: self.ch, advance: self.advance, coverage: self.coverage@ }
    }
}

/// A bitmap font: glyphs drawn in cells of one size, which are scaled to the
/// pixel size that is asked for.
pub struct Font {
    cell_width: u16,
    cell_height: u16,
    glyphs: Vec<Glyph>,
}

impl View for Font {
    type V = FontModel;

    /// The cell and the glyphs of the font.
    closed spec fn view(&self) -> FontModel {
        FontModel {
            cell_width: self.cell_width as nat,
            cell_height: self.cell_height as nat,
            glyphs: Seq::new(self.glyphs@.len(), |i: int| self.glyphs@[i]@),
        }
    }
}

/// The index of the cell's pixel that a mask's row or column number `i` is
/// taken from lies in the cell.
proof fn lemma_scaled_index(i: int, cell: int, size: int, limit: int)
    requires
        0 <= i,
        0 < cell,
        0 < size,
        i * cell < limit * size,
    ensures
        0 <= (i * cell) / size < limit,
{
    lemma_floor_div_bound(i * cell, size, limit);
    lemma_floor_div_bound(i * cell, size, 0);
    assert(0 <= i * cell) by (nonlinear_arith)
        requires
            0 <= i,
            0 < cell,
    ;
}

impl Font {
    /// A font without glyphs, whose cells have the given size; `None` if the
    /// cell would be empty.
    pub fn new(cell_width: u16, cell_height: u16) -> (font: Option<Font>)
        ensures
            (cell_width == 0 || cell_height == 0) ==> font is None,
            cell_width > 0 && cell_height > 0 ==> font is Some && font->Some_0@.wf() && font->Some_0@
                == (FontModel {
                cell_width: cell_width as nat,
                cell_height: cell_height as nat,
                glyphs: Seq::<GlyphModel>::empty(),
            }),
    {
        if cell_width == 0 || cell_height == 0 {
            None
        } else {
            let font = Font { cell_width, cell_height, glyphs: Vec::new() };
            assert(font@.glyphs =~= Seq::<GlyphModel>::empty());
            Some(font)
        }
    }

    /// The place of the glyph for `ch` among the font's glyphs.
    fn position(&self, ch: char) -> (found: Option<usize>)
        ensures
            found matches Some(i) ==> i < self@.glyphs.len() && self@.glyphs[i as int].ch == ch,
            found is None ==> !self@.has(ch),
    {
        let mut i: usize = 0;
        while i < self.glyphs.len()
            invariant
                i <= self.glyphs@.len(),
                forall|k: int| 0 <= k < i ==> (#[trigger] self@.glyphs[k]).ch != ch,
            decreases self.glyphs@.len() - i,
        {
            if self.glyphs[i].ch == ch {
                return Some(i);
            }
            i = i + 1;
        }
        None
    }

    /// Tells whether the font holds a glyph for `ch`.
    pub fn has_glyph(&self, ch: char) -> (found: bool)
        ensures
            found == self@.has(ch),
    {
        self.position(ch).is_some()
    }

    /// Adds the glyph for `ch`: its advance in pixels of the cell, and one
    /// coverage value for each pixel of the cell, row by row. Returns `false`,
    /// and changes nothing, if the font already holds a glyph for `ch` or if
    /// `coverage` has another length than the cell has pixels.
    pub fn add_glyph(&mut self, ch: char, advance: u16, coverage: Vec<u8>) -> (added: bool)
        requires
            old(self)@.wf(),
        ensures
            final(self)@.wf(),
            added == (!old(self)@.has(ch) && coverage@.len() == old(self)@.cell_width * old(
                self,
            )@.cell_height),
            added ==> final(self)@ == (FontModel {
                glyphs: old(self)@.glyphs.push(GlyphModel { ch, advance, coverage: coverage@ }),
                ..old(self)@
            }),
            !added ==> final(self)@ == old(self)@,
    {
        assert(self.cell_width * self.cell_height <= 0xffff * 0xffff) by (nonlinear_arith)
            requires
                0 <= self.cell_width <= 0xffff,
                0 <= self.cell_height <= 0xffff,
        ;
        if coverage.len() as u64 != self.cell_width as u64 * self.cell_height as u64 {
            return false;
        }
        if self.position(ch).is_some() {
            return false;
        }
        let ghost model = GlyphModel { ch, advance, coverage: coverage@ };
        self.glyphs.push(Glyph { ch, advance, coverage });
        proof {
            assert(self@.glyphs =~= old(self)@.glyphs.push(model));
            assert forall|i: int, j: int| 0 <= i < j < self@.glyphs.len() implies (
            #[trigger] self@.glyphs[i]).ch != (#[trigger] self@.glyphs[j]).ch by {
                if j == old(self)@.glyphs.len() {
                    assert(old(self)@.glyphs[i].ch != ch);
                } else {
                    assert(old(self)@.glyphs[i].ch != old(self)@.glyphs[j].ch);
                }
            }
        }
        true
    }

    /// Rasterizes the glyph for `ch` at pixel size `size`: the cell is scaled
    /// so that its height becomes `size`, each pixel of the mask taking the
    /// coverage of its nearest neighbour in the cell.
    pub fn rasterize(&self, size: u16, ch: char) -> (result: Result<GlyphEntry, GlyphError>)
        requires
            self@.wf(),
        ensures
            result matches Ok(entry) ==> entry.wf() && self@.rasterize_spec(size, ch) == Ok::<
                EntryModel,
                GlyphError,
            >(entry@),
            result matches Err(error) ==> self@.rasterize_spec(size, ch) == Err::<
                EntryModel,
                GlyphError,
            >(error),
    {
        let index = match self.position(ch) {
            Some(index) => index,
            None => {
                return Err(GlyphError::MissingGlyph(ch));
            },
        };
        let glyph = &self.glyphs[index];
        assert(self@.has(ch) && self@.glyph(ch) == glyph@) by {
            assert(self@.glyphs[index as int].ch == ch);
            let chosen = choose|i: int|
                0 <= i < self@.glyphs.len() && (#[trigger] self@.glyphs[i]).ch == ch;
            if chosen < index {
                assert(self@.glyphs[chosen].ch != self@.glyphs[index as int].ch);
            } else if chosen > index {
                assert(self@.glyphs[index as int].ch != self@.glyphs[chosen].ch);
            }
        }
        let cell_width = self.cell_width as u64;
        let cell_height = self.cell_height as u64;
        let height = size as u64;
        assert(cell_width * height <= 0xffff * 0xffff) by (nonlinear_arith)
            requires
                0 <= cell_width <= 0xffff,
                0 <= height <= 0xffff,
        ;
        let width: u64 = cell_width * height / cell_height;
        assert(width <= 0xffff * 0xffff && width * cell_height <= cell_width * height) by {
            lemma_floor_div_bound((cell_width * height) as int, cell_height as int, width as int);
            assert(width * cell_height >= width) by (nonlinear_arith)
                requires
                    width >= 0,
                    cell_height >= 1,
            ;
        }
        assert(width * height <= 0xffff * 0xffff * 0xffff) by (nonlinear_arith)
            requires
                0 <= width <= 0xffff * 0xffff,
                0 <= height <= 0xffff,
        ;
        let area: u64 = width * height;
        if area > MAX_MASK_PIXELS {
            return Err(GlyphError::MaskTooLarge);
        }
        let source_len = glyph.coverage.len();
        let mut coverage: Vec<u8> = Vec::new();
        let mut k: u64 = 0;
        while k < area
            invariant
                self@.wf(),
                glyph@.coverage.len() == cell_width * cell_height,
                source_len == glyph@.coverage.len(),
                cell_width == self@.cell_width,
                cell_height == self@.cell_height,
                height == size,
                width == self@.mask_width(size),
                width * cell_height <= cell_width * height,
                area == width * height,
                area <= MAX_MASK_PIXELS,
                k <= area,
                coverage@.len() == k,
                forall|m: int|
                    0 <= m < k ==> coverage@[m] == glyph@.coverage[self@.source_offset(size, m)],
            decreases area - k,
        {
            assert(width > 0 && height > 0) by (nonlinear_arith)
                requires
                    0 <= k < width * height,
                    width >= 0,
                    height >= 0,
            ;
            let column = k % width;
            let row = k / width;
            proof {
                lemma_index_surjective(width as int, height as int, k as int);
                assert(row * cell_height < cell_height * height) by (nonlinear_arith)
                    requires
                        0 <= row < height,
                        cell_height > 0,
                ;
                assert(column * cell_height < cell_width * height) by (nonlinear_arith)
                    requires
                        0 <= column < width,
                        cell_height > 0,
                        width * cell_height <= cell_width * height,
                ;
                assert(row * cell_height <= 0xffff * 0xffff && column * cell_height <= 0xffff
                    * 0xffff) by (nonlinear_arith)
                    requires
                        row * cell_height < cell_height * height,
                        column * cell_height < cell_width * height,
                        0 <= cell_height <= 0xffff,
                        0 <= cell_width <= 0xffff,
                        0 <= height <= 0xffff,
                ;
                lemma_scaled_index(row as int, cell_height as int, height as int, cell_height as int);
                lemma_scaled_index(
                    column as int,
                    cell_height as int,
                    height as int,
                    cell_width as int,
                );
            }
            let source_row = row * cell_height / height;
            let source_column = column * cell_height / height;
            proof {
                lemma_index_in_range(
                    cell_width as int,
                    cell_height as int,
                    source_column as int,
                    source_row as int,
                );
            }
            let offset = source_row * cell_width + source_column;
            assert(offset == self@.source_offset(size, k as int));
            coverage.push(glyph.coverage[offset as usize]);
            k = k + 1;
        }
        assert(glyph.advance * height * 256 <= 0xffff * 0xffff * 256) by (nonlinear_arith)
            requires
                0 <= glyph.advance <= 0xffff,
                0 <= height <= 0xffff,
        ;
        assert(glyph.advance * height * 256 >= 0) by (nonlinear_arith)
            requires
                0 <= glyph.advance,
                0 <= height,
        ;
        let advance: u64 = glyph.advance as u64 * height * 256 / cell_height;
        let entry = GlyphEntry {
            width: width as u32,
            height: size as u32,
            coverage,
            advance_x: saturate(advance as i128),
            advance_y: 0,
        };
        proof {
            assert(entry@.coverage =~= self@.scaled(glyph@, size).coverage);
            assert(entry@ == self@.scaled(glyph@, size));
        }
        Ok(entry)
    }
}

} // verus!
