//! The pixel buffer: a row-major array of RGBA pixels, four bytes each, with no
//! padding and no header.

use crate::color::Color;
use crate::error::Error;
use vstd::prelude::*;

verus! {

/// The colour that the four bytes of pixel number `index` encode.
pub open spec fn color_at(bytes: Seq<u8>, index: int) -> Color {
    Color {
        r: bytes[4 * index],
        g: bytes[4 * index + 1],
        b: bytes[4 * index + 2],
        a: bytes[4 * index + 3],
    }
}

/// The bytes after the four bytes of pixel number `index` have been replaced
/// by the channels of `color`.
pub open spec fn written(bytes: Seq<u8>, index: int, color: Color) -> Seq<u8> {
    bytes.update(4 * index, color.r).update(4 * index + 1, color.g).update(
        4 * index + 2,
        color.b,
    ).update(4 * index + 3, color.a)
}

/// A pixel that was written reads back as the colour that was written, and
/// every other pixel reads back as before.
pub proof fn lemma_write_then_read(bytes: Seq<u8>, index: int, color: Color, other: int)
    requires
        0 <= index,
        4 * index + 3 < bytes.len(),
        0 <= other,
        4 * other + 3 < bytes.len(),
    ensures
        written(bytes, index, color).len() == bytes.len(),
        color_at(written(bytes, index, color), index) == color,
        other != index ==> color_at(written(bytes, index, color), other) == color_at(bytes, other),
{
}

/// The bytes of a sequence of pixels that all have the colour `color`.
pub open spec fn uniform_bytes(pixels: nat, color: Color) -> Seq<u8> {
    Seq::new(
        4 * pixels,
        |i: int|
            if i % 4 == 0 {
                color.r
            } else if i % 4 == 1 {
                color.g
            } else if i % 4 == 2 {
                color.b
            } else {
                color.a
            },
    )
}

/// In a grid of `w` columns and `h` rows, the row-major number of a cell is
/// below `w * h`.
pub proof fn lemma_index_in_range(w: int, h: int, x: int, y: int)
    by (nonlinear_arith)
    requires
        0 <= x < w,
        0 <= y < h,
    ensures
        0 <= y * w <= y * w + x < w * h,
{
}

/// Two cells of a grid with the same row-major number are the same cell.
pub proof fn lemma_index_injective(w: int, x1: int, y1: int, x2: int, y2: int)
    by (nonlinear_arith)
    requires
        0 <= x1 < w,
        0 <= x2 < w,
        0 <= y1,
        0 <= y2,
        y1 * w + x1 == y2 * w + x2,
    ensures
        x1 == x2,
        y1 == y2,
{
}

/// Every number below `w * h` is the row-major number of a cell of the grid.
pub proof fn lemma_index_surjective(w: int, h: int, k: int)
    by (nonlinear_arith)
    requires
        0 <= k < w * h,
        0 < w,
    ensures
        0 <= k % w < w,
        0 <= k / w < h,
        (k / w) * w + k % w == k,
{
}

/// A rectangular image of RGBA pixels. The bytes of pixel `(x, y)` stand at
/// offset `4 * (y * width + x)`, in the order red, green, blue, alpha.
#[derive(Debug)]
pub struct PixelBuffer {
    width: u32,
    height: u32,
    pixels: Vec<u8>,
}

impl View for PixelBuffer {
    type V = Seq<u8>;

    /// The raw bytes of the buffer.
    closed spec fn view(&self) -> Seq<u8> {
        self.pixels@
    }
}

impl Clone for PixelBuffer {
    /// A copy of the buffer as it is now; later changes of one do not show in
    /// the other.
    fn clone(&self) -> (copy: PixelBuffer)
        ensures
            copy@ == self@,
            copy.width() == self.width(),
            copy.height() == self.height(),
    {
        PixelBuffer { width: self.width, height: self.height, pixels: self.pixels.clone() }
    }
}

impl PixelBuffer {
    /// The number of columns.
    pub closed spec fn spec_width(&self) -> u32 {
        self.width
    }

    /// The number of rows.
    pub closed spec fn spec_height(&self) -> u32 {
        self.height
    }

    /// The invariant of the type: the buffer holds exactly four bytes for each
    /// pixel of its dimensions.
    pub open spec fn wf(&self) -> bool {
        self@.len() == self.width() * self.height() * 4
    }

    /// `true` for the coordinates of a pixel of this buffer.
    pub open spec fn contains(&self, x: int, y: int) -> bool {
        0 <= x < self.width() && 0 <= y < self.height()
    }

    /// The colour of the pixel in column `x` of row `y`.
    pub open spec fn pixel(&self, x: int, y: int) -> Color {
        color_at(self@, y * self.width() + x)
    }

    /// `true` if `after` has the dimensions of this buffer.
    pub open spec fn same_size(&self, after: &PixelBuffer) -> bool {
        after.width() == self.width() && after.height() == self.height()
    }

    /// A buffer of the given dimensions in which every byte is zero, so that
    /// every pixel is fully transparent black.
    pub fn create(width: u32, height: u32) -> (buffer: PixelBuffer)
        requires
            width * height * 4 <= usize::MAX,
        ensures
            buffer.wf(),
            buffer.width() == width,
            buffer.height() == height,
            buffer@ == Seq::new((width * height * 4) as nat, |i: int| 0u8),
    {
        let area: usize = width as usize * height as usize;
        let pixels: Vec<u8> = vec![0u8; area * 4];
        let buffer = PixelBuffer { width, height, pixels };
        assert(buffer@ =~= Seq::new((width * height * 4) as nat, |i: int| 0u8));
        buffer
    }

    /// A buffer of the given dimensions in which every byte is zero; `None` if
    /// the machine cannot address that many bytes.
    pub fn try_create(width: u32, height: u32) -> (buffer: Option<PixelBuffer>)
        ensures
            width * height * 4 > usize::MAX ==> buffer is None,
            width * height * 4 <= usize::MAX ==> buffer is Some && buffer->Some_0.wf()
                && buffer->Some_0.width() == width && buffer->Some_0.height() == height
                && buffer->Some_0@ == Seq::new((width * height * 4) as nat, |i: int| 0u8),
    {
        assert(width * height <= 0xffff_ffff * 0xffff_ffff) by (nonlinear_arith)
            requires
                0 <= width <= 0xffff_ffff,
                0 <= height <= 0xffff_ffff,
        ;
        let area: u64 = width as u64 * height as u64;
        if area > (usize::MAX / 4) as u64 {
            None
        } else {
            Some(PixelBuffer::create(width, height))
        }
    }

    /// Wraps caller-supplied bytes as a buffer of the given dimensions. The
    /// container must hold exactly `width * height * 4` bytes; any other length
    /// is reported with the length and the number of pixels asked for.
    pub fn from_bytes(width: u32, height: u32, bytes: Vec<u8>) -> (result: Result<
        PixelBuffer,
        Error,
    >)
        requires
            width * height <= usize::MAX,
        ensures
            bytes@.len() == width * height * 4 ==> result is Ok && result->Ok_0.wf()
                && result->Ok_0.width() == width && result->Ok_0.height() == height
                && result->Ok_0@ == bytes@,
            bytes@.len() != width * height * 4 ==> result == Err::<PixelBuffer, Error>(
                Error::ContainerTooSmall(bytes.len(), (width * height) as usize),
            ),
    {
        let area: usize = width as usize * height as usize;
        let len = bytes.len();
        if len % 4 == 0 && len / 4 == area {
            Ok(PixelBuffer { width, height, pixels: bytes })
        } else {
            Err(Error::ContainerTooSmall(len, area))
        }
    }

    /// The number of columns.
    #[verifier::when_used_as_spec(spec_width)]
    pub fn width(&self) -> (w: u32)
        ensures
            w == self.width(),
    {
        self.width
    }

    /// The number of rows.
    #[verifier::when_used_as_spec(spec_height)]
    pub fn height(&self) -> (h: u32)
        ensures
            h == self.height(),
    {
        self.height
    }

    /// Tells whether `(x, y)` names a pixel of this buffer.
    pub fn in_bounds(&self, x: u32, y: u32) -> (inside: bool)
        ensures
            inside == self.contains(x as int, y as int),
    {
        x < self.width && y < self.height
    }

    /// The raw bytes, row-major, four per pixel.
    pub fn as_bytes(&self) -> (bytes: &[u8])
        ensures
            bytes@ == self@,
    {
        self.pixels.as_slice()
    }

    /// Gives up the buffer for its raw bytes.
    pub fn into_bytes(self) -> (bytes: Vec<u8>)
        ensures
            bytes@ == self@,
    {
        self.pixels
    }

    /// The offset of the first byte of pixel `(x, y)`.
    fn offset(&self, x: u32, y: u32) -> (base: usize)
        requires
            self.wf(),
            self.contains(x as int, y as int),
        ensures
            base == 4 * (y * self.width() + x),
            base + 3 < self@.len(),
    {
        let len = self.pixels.len();
        proof {
            lemma_index_in_range(self.width as int, self.height as int, x as int, y as int);
        }
        (y as usize * self.width as usize + x as usize) * 4
    }

    /// Reads the pixel in column `x` of row `y`.
    pub fn get_pixel(&self, x: u32, y: u32) -> (color: Color)
        requires
            self.wf(),
            self.contains(x as int, y as int),
        ensures
            color == self.pixel(x as int, y as int),
    {
        let base = self.offset(x, y);
        Color {
            r: self.pixels[base],
            g: self.pixels[base + 1],
            b: self.pixels[base + 2],
            a: self.pixels[base + 3],
        }
    }

    /// Writes the pixel in column `x` of row `y`; no other pixel changes.
    pub fn set_pixel(&mut self, x: u32, y: u32, color: Color)
        requires
            old(self).wf(),
            old(self).contains(x as int, y as int),
        ensures
            final(self).wf(),
            old(self).same_size(final(self)),
            final(self)@ == written(old(self)@, y * old(self).width() + x, color),
            final(self).pixel(x as int, y as int) == color,
            forall|i: int, j: int|
                old(self).contains(i, j) && !(i == x && j == y) ==> #[trigger] final(self).pixel(
                    i,
                    j,
                ) == old(self).pixel(i, j),
    {
        let base = self.offset(x, y);
        self.pixels[base] = color.r;
        self.pixels[base + 1] = color.g;
        self.pixels[base + 2] = color.b;
        self.pixels[base + 3] = color.a;
        proof {
            let w = self.width as int;
            assert forall|i: int, j: int|
                old(self).contains(i, j) && !(i == x && j == y) implies #[trigger] self.pixel(i, j)
                == old(self).pixel(i, j) by {
                if j * w + i == y * w + x {
                    lemma_index_injective(w, i, j, x as int, y as int);
                }
                lemma_index_in_range(w, self.height as int, i, j);
            }
        }
    }

    /// Reads the pixel in column `x` of row `y`; `None` for coordinates
    /// outside the buffer.
    pub fn checked_get_pixel(&self, x: u32, y: u32) -> (color: Option<Color>)
        requires
            self.wf(),
        ensures
            color == if self.contains(x as int, y as int) {
                Some(self.pixel(x as int, y as int))
            } else {
                None
            },
    {
        if self.in_bounds(x, y) {
            Some(self.get_pixel(x, y))
        } else {
            None
        }
    }

    /// Writes the pixel in column `x` of row `y`. For coordinates outside the
    /// buffer nothing is written, and the result is `false`.
    pub fn checked_set_pixel(&mut self, x: u32, y: u32, color: Color) -> (written: bool)
        requires
            old(self).wf(),
        ensures
            final(self).wf(),
            old(self).same_size(final(self)),
            written == old(self).contains(x as int, y as int),
            written ==> final(self).pixel(x as int, y as int) == color,
            !written ==> final(self)@ == old(self)@,
            forall|i: int, j: int|
                old(self).contains(i, j) && !(i == x && j == y) ==> #[trigger] final(self).pixel(
                    i,
                    j,
                ) == old(self).pixel(i, j),
    {
        if self.in_bounds(x, y) {
            self.set_pixel(x, y, color);
            true
        } else {
            false
        }
    }

    /// Fills every pixel with `color`.
    pub fn clear(&mut self, color: Color)
        requires
            old(self).wf(),
        ensures
            final(self).wf(),
            old(self).same_size(final(self)),
            final(self)@ == uniform_bytes((old(self).width() * old(self).height()) as nat, color),
            forall|i: int, j: int|
                old(self).contains(i, j) ==> #[trigger] final(self).pixel(i, j) == color,
    {
        let count: usize = self.pixels.len() / 4;
        let mut k: usize = 0;
        while k < count
            invariant
                self.pixels@.len() == old(self).pixels@.len(),
                self.width == old(self).width,
                self.height == old(self).height,
                count * 4 == self.pixels@.len(),
                count * 4 <= usize::MAX,
                k <= count,
                forall|i: int| 0 <= i < 4 * k ==> self.pixels@[i] == uniform_bytes(count as nat, color)[i],
            decreases count - k,
        {
            let base: usize = k * 4;
            self.pixels[base] = color.r;
            self.pixels[base + 1] = color.g;
            self.pixels[base + 2] = color.b;
            self.pixels[base + 3] = color.a;
            k = k + 1;
        }
        proof {
            assert(self@ =~= uniform_bytes(count as nat, color));
            let w = self.width as int;
            let h = self.height as int;
            assert forall|i: int, j: int| old(self).contains(i, j) implies #[trigger] self.pixel(
                i,
                j,
            ) == color by {
                lemma_index_in_range(w, h, i, j);
            }
        }
    }
}

/// Buffers of equal dimensions whose pixels agree hold the same bytes.
pub proof fn lemma_pixels_determine_bytes(a: PixelBuffer, b: PixelBuffer)
    requires
        a.wf(),
        b.wf(),
        a.same_size(&b),
        forall|x: int, y: int| a.contains(x, y) ==> #[trigger] a.pixel(x, y) == b.pixel(x, y),
    ensures
        a@ == b@,
{
    let w = a.width() as int;
    let h = a.height() as int;
    assert forall|i: int| 0 <= i < a@.len() implies a@[i] == b@[i] by {
        let k = i / 4;
        assert(w > 0) by (nonlinear_arith)
            requires
                0 <= i < w * h * 4,
                0 <= w,
        ;
        lemma_index_surjective(w, h, k);
        let x = k % w;
        let y = k / w;
        assert(a.pixel(x, y) == b.pixel(x, y));
        assert(i == 4 * k || i == 4 * k + 1 || i == 4 * k + 2 || i == 4 * k + 3);
    }
    assert(a@ =~= b@);
}

} // verus!
