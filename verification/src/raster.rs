//! Owned flat pixel buffers with geometry metadata, and the pixel-level
//! read/copy/swap primitives the displacement transforms rely on.

use vstd::prelude::*;

verus! {

/// Geometry and sample layout shared by all frames of one movie.
///
/// `stride` is the byte length of one row; it may exceed
/// `width * samples_per_pixel` when a format pads its rows. All arithmetic
/// assumes one byte per sample, i.e. a bit depth of 8.
#[derive(Clone, Copy, Debug, PartialEq, Eq, Structural)]
pub struct RasterFormat {
    pub width: u32,
    pub height: u32,
    pub samples_per_pixel: u32,
    pub bit_depth: u8,
    pub stride: usize,
}

impl RasterFormat {
    /// The formats all buffer arithmetic is defined for: nonempty grid,
    /// at least one byte per pixel, 8-bit samples, rows that hold a whole
    /// row of pixels, and a total size addressable in memory.
    pub open spec fn wf(self) -> bool {
        &&& self.width >= 1
        &&& self.height >= 1
        &&& self.samples_per_pixel >= 1
        &&& self.bit_depth == 8
        &&& self.stride >= self.width * self.samples_per_pixel
        &&& self.stride * self.height <= usize::MAX as int
    }

    /// The byte length a pixel buffer of this format must have.
    pub open spec fn buffer_len(self) -> int {
        self.stride * self.height
    }

    pub open spec fn in_bounds(self, row: int, col: int) -> bool {
        &&& 0 <= row < self.height
        &&& 0 <= col < self.width
    }

    /// Byte index of the first sample of the pixel at `(row, col)`.
    pub open spec fn offset_of(self, row: int, col: int) -> int {
        row * self.stride + col * self.samples_per_pixel
    }

    /// Byte positions inside the buffer that belong to no pixel: the tail of
    /// a row past its last pixel, present only when `stride` exceeds
    /// `width * samples_per_pixel`.
    pub open spec fn is_padding(self, i: int) -> bool {
        &&& 0 <= i < self.buffer_len()
        &&& i % (self.stride as int) >= self.width * self.samples_per_pixel
    }

    /// Runtime check for `wf`.
    pub fn supported(&self) -> (b: bool)
        ensures
            b == self.wf(),
    {
        proof {
            assert((self.width as int) * (self.samples_per_pixel as int) <= u64::MAX)
                by (nonlinear_arith)
                requires
                    self.width <= u32::MAX,
                    self.samples_per_pixel <= u32::MAX,
            ;
            assert((self.stride as int) * (self.height as int) <= u128::MAX) by (nonlinear_arith)
                requires
                    self.stride <= u64::MAX,
                    self.height <= u32::MAX,
            ;
        }
        self.width >= 1 && self.height >= 1 && self.samples_per_pixel >= 1 && self.bit_depth == 8
            && (self.width as u64) * (self.samples_per_pixel as u64) <= (self.stride as u64)
            && (self.stride as u128) * (self.height as u128) <= (usize::MAX as u128)
    }
}

/// Every pixel's byte range lies inside the buffer, with room for a whole
/// pixel before the end.
pub proof fn lemma_offset_in_range(fmt: RasterFormat, row: int, col: int)
    requires
        fmt.wf(),
        fmt.in_bounds(row, col),
    ensures
        0 <= fmt.offset_of(row, col),
        fmt.offset_of(row, col) + fmt.samples_per_pixel <= fmt.buffer_len(),
{
    assert(row * fmt.stride + col * fmt.samples_per_pixel + fmt.samples_per_pixel <= fmt.stride
        * fmt.height) by (nonlinear_arith)
        requires
            0 <= row < fmt.height,
            0 <= col < fmt.width,
            fmt.stride >= fmt.width * fmt.samples_per_pixel,
            fmt.samples_per_pixel >= 1,
    ;
    assert(0 <= row * fmt.stride + col * fmt.samples_per_pixel) by (nonlinear_arith)
        requires
            row >= 0,
            col >= 0,
            fmt.stride >= 0,
            fmt.samples_per_pixel >= 0,
    ;
}

/// Distinct pixel positions occupy disjoint byte ranges.
pub proof fn lemma_pixel_ranges_disjoint(fmt: RasterFormat, r1: int, c1: int, r2: int, c2: int)
    requires
        fmt.wf(),
        fmt.in_bounds(r1, c1),
        fmt.in_bounds(r2, c2),
        (r1, c1) != (r2, c2),
    ensures
        fmt.offset_of(r1, c1) + fmt.samples_per_pixel <= fmt.offset_of(r2, c2) || fmt.offset_of(
            r2,
            c2,
        ) + fmt.samples_per_pixel <= fmt.offset_of(r1, c1),
{
    let s = fmt.stride as int;
    let p = fmt.samples_per_pixel as int;
    assert(r1 != r2 || c1 != c2);
    assert((r1 * s + c1 * p + p <= r2 * s + c2 * p) || (r2 * s + c2 * p + p <= r1 * s + c1 * p))
        by (nonlinear_arith)
        requires
            0 <= r1 < fmt.height,
            0 <= r2 < fmt.height,
            0 <= c1 < fmt.width,
            0 <= c2 < fmt.width,
            r1 != r2 || c1 != c2,
            s >= fmt.width * p,
            p >= 1,
            s == fmt.stride as int,
            p == fmt.samples_per_pixel as int,
    ;
}

/// `offset_of` is injective over the pixel grid of a well-formed format.
pub proof fn lemma_offset_injective(fmt: RasterFormat, r1: int, c1: int, r2: int, c2: int)
    requires
        fmt.wf(),
        fmt.in_bounds(r1, c1),
        fmt.in_bounds(r2, c2),
        (r1, c1) != (r2, c2),
    ensures
        fmt.offset_of(r1, c1) != fmt.offset_of(r2, c2),
{
    lemma_pixel_ranges_disjoint(fmt, r1, c1, r2, c2);
}

/// A padding byte belongs to no pixel's byte range.
pub proof fn lemma_padding_outside_pixels(fmt: RasterFormat, row: int, col: int, i: int)
    requires
        fmt.wf(),
        fmt.in_bounds(row, col),
        fmt.is_padding(i),
    ensures
        !(fmt.offset_of(row, col) <= i < fmt.offset_of(row, col) + fmt.samples_per_pixel),
{
    let s = fmt.stride as int;
    let p = fmt.samples_per_pixel as int;
    let q = i / s;
    let rem = i % s;
    vstd::arithmetic::div_mod::lemma_fundamental_div_mod(i, s);
    vstd::arithmetic::div_mod::lemma_mod_bound(i, s);
    vstd::arithmetic::div_mod::lemma_div_pos_is_pos(i, s);
    assert(i == q * s + rem && 0 <= rem < s && q >= 0);
    assert(!(row * s + col * p <= q * s + rem < row * s + col * p + p)) by (nonlinear_arith)
        requires
            0 <= row,
            0 <= col < fmt.width,
            q >= 0,
            0 <= rem < s,
            rem >= fmt.width * p,
            s >= fmt.width * p,
            p >= 1,
    ;
}

/// An owned packed row-major pixel buffer together with its format.
#[derive(Clone, Debug)]
pub struct RasterBuffer {
    pub format: RasterFormat,
    pub pixels: Vec<u8>,
}

impl RasterBuffer {
    /// A buffer is well formed when its format is and its byte length is
    /// exactly the one the format implies.
    pub open spec fn wf(self) -> bool {
        &&& self.format.wf()
        &&& self.pixels@.len() == self.format.buffer_len()
    }

    pub open spec fn in_bounds(self, row: int, col: int) -> bool {
        self.format.in_bounds(row, col)
    }

    /// The `samples_per_pixel` bytes of the pixel at `(row, col)`.
    pub open spec fn pixel_at(self, row: int, col: int) -> Seq<u8> {
        self.pixels@.subrange(
            self.format.offset_of(row, col),
            self.format.offset_of(row, col) + self.format.samples_per_pixel,
        )
    }

    /// A zero-filled buffer of the correct size for `format`.
    pub fn allocate(format: RasterFormat) -> (r: RasterBuffer)
        requires
            format.wf(),
        ensures
            r.wf(),
            r.format == format,
            forall|i: int| 0 <= i < r.pixels@.len() ==> r.pixels@[i] == 0u8,
    {
        let n: usize = format.stride * (format.height as usize);
        let mut pixels: Vec<u8> = Vec::new();
        let mut i: usize = 0;
        while i < n
            invariant
                i <= n,
                pixels@.len() == i,
                forall|j: int| 0 <= j < i ==> pixels@[j] == 0u8,
            decreases n - i,
        {
            pixels.push(0u8);
            i = i + 1;
        }
        RasterBuffer { format, pixels }
    }

    /// Byte index of the first sample of the pixel at `(row, col)`.
    pub fn pixel_offset(&self, row: usize, col: usize) -> (r: usize)
        requires
            self.wf(),
            self.in_bounds(row as int, col as int),
        ensures
            r == self.format.offset_of(row as int, col as int),
            r + self.format.samples_per_pixel <= self.pixels@.len(),
    {
        proof {
            lemma_offset_in_range(self.format, row as int, col as int);
        }
        row * self.format.stride + col * (self.format.samples_per_pixel as usize)
    }

    /// Copies the `samples_per_pixel` bytes of `src`'s pixel at `(row, col)`
    /// into this buffer at the same position. Every other byte is left as it
    /// was: all other pixels keep their value, and so does row padding.
    pub fn copy_pixel(&mut self, src: &RasterBuffer, row: usize, col: usize)
        requires
            old(self).wf(),
            src.wf(),
            old(self).format == src.format,
            old(self).in_bounds(row as int, col as int),
        ensures
            final(self).wf(),
            final(self).format == old(self).format,
            final(self).pixels@.len() == old(self).pixels@.len(),
            final(self).pixel_at(row as int, col as int) == src.pixel_at(row as int, col as int),
            forall|r: int, c: int|
                old(self).in_bounds(r, c) && (r, c) != (row as int, col as int)
                    ==> #[trigger] final(self).pixel_at(r, c) == old(self).pixel_at(r, c),
            forall|i: int|
                0 <= i < old(self).pixels@.len() && !(old(self).format.offset_of(
                    row as int,
                    col as int,
                ) <= i < old(self).format.offset_of(row as int, col as int)
                    + old(self).format.samples_per_pixel) ==> #[trigger] final(self).pixels@[i]
                    == old(self).pixels@[i],
            forall|i: int|
                old(self).format.is_padding(i)
                    ==> #[trigger] final(self).pixels@[i] == old(self).pixels@[i],
    {
        let spp = self.format.samples_per_pixel as usize;
        let d = self.pixel_offset(row, col);
        let s = src.pixel_offset(row, col);
        let mut k: usize = 0;
        while k < spp
            invariant
                k <= spp,
                spp == self.format.samples_per_pixel,
                self.format == old(self).format,
                self.format == src.format,
                self.wf(),
                src.wf(),
                self.pixels@.len() == old(self).pixels@.len(),
                d == self.format.offset_of(row as int, col as int),
                s == src.format.offset_of(row as int, col as int),
                d + spp <= self.pixels@.len(),
                s + spp <= src.pixels@.len(),
                forall|j: int| 0 <= j < k ==> #[trigger] self.pixels@[d + j] == src.pixels@[s + j],
                forall|i: int|
                    0 <= i < self.pixels@.len() && !(d <= i < d + spp) ==> #[trigger] self.pixels@[i]
                        == old(self).pixels@[i],
            decreases spp - k,
        {
            let v = src.pixels[s + k];
            self.pixels[d + k] = v;
            k = k + 1;
        }
        proof {
            assert forall|j: int| 0 <= j < self.format.samples_per_pixel implies self.pixel_at(
                row as int,
                col as int,
            )[j] == src.pixel_at(row as int, col as int)[j] by {
                assert(self.pixels@[d + j] == src.pixels@[s + j]);
            }
            assert(self.pixel_at(row as int, col as int) =~= src.pixel_at(row as int, col as int));
            assert forall|r: int, c: int|
                old(self).in_bounds(r, c) && (r, c) != (row as int, col as int) implies #[trigger] self.pixel_at(
                r,
                c,
            ) == old(self).pixel_at(r, c) by {
                lemma_pixel_ranges_disjoint(self.format, r, c, row as int, col as int);
                lemma_offset_in_range(self.format, r, c);
                assert(self.pixel_at(r, c) =~= old(self).pixel_at(r, c));
            }
            assert forall|i: int| old(self).format.is_padding(i) implies #[trigger] self.pixels@[i]
                == old(self).pixels@[i] by {
                lemma_padding_outside_pixels(self.format, row as int, col as int, i);
            }
        }
    }

    /// Copies `src`'s whole pixel row `row` into this buffer; pixels of other
    /// rows and all row padding keep their value.
    pub fn copy_row(&mut self, src: &RasterBuffer, row: usize)
        requires
            old(self).wf(),
            src.wf(),
            old(self).format == src.format,
            row < old(self).format.height,
        ensures
            final(self).wf(),
            final(self).format == old(self).format,
            final(self).pixels@.len() == old(self).pixels@.len(),
            forall|c: int|
                0 <= c < old(self).format.width ==> #[trigger] final(self).pixel_at(row as int, c)
                    == src.pixel_at(row as int, c),
            forall|r: int, c: int|
                old(self).in_bounds(r, c) && r != row as int ==> #[trigger] final(self).pixel_at(
                    r,
                    c,
                ) == old(self).pixel_at(r, c),
            forall|i: int|
                old(self).format.is_padding(i)
                    ==> #[trigger] final(self).pixels@[i] == old(self).pixels@[i],
    {
        let w = self.format.width as usize;
        let mut col: usize = 0;
        while col < w
            invariant
                col <= w,
                w == self.format.width,
                self.format == old(self).format,
                self.format == src.format,
                self.wf(),
                src.wf(),
                self.pixels@.len() == old(self).pixels@.len(),
                row < self.format.height,
                forall|c: int|
                    0 <= c < col ==> #[trigger] self.pixel_at(row as int, c) == src.pixel_at(
                        row as int,
                        c,
                    ),
                forall|r: int, c: int|
                    old(self).in_bounds(r, c) && r != row as int ==> #[trigger] self.pixel_at(r, c)
                        == old(self).pixel_at(r, c),
                forall|i: int|
                    old(self).format.is_padding(i)
                        ==> #[trigger] self.pixels@[i] == old(self).pixels@[i],
            decreases w - col,
        {
            self.copy_pixel(src, row, col);
            col = col + 1;
        }
    }

    /// Copies `src`'s whole pixel column `col` into this buffer; pixels of
    /// other columns and all row padding keep their value.
    pub fn copy_col(&mut self, src: &RasterBuffer, col: usize)
        requires
            old(self).wf(),
            src.wf(),
            old(self).format == src.format,
            col < old(self).format.width,
        ensures
            final(self).wf(),
            final(self).format == old(self).format,
            final(self).pixels@.len() == old(self).pixels@.len(),
            forall|r: int|
                0 <= r < old(self).format.height ==> #[trigger] final(self).pixel_at(r, col as int)
                    == src.pixel_at(r, col as int),
            forall|r: int, c: int|
                old(self).in_bounds(r, c) && c != col as int ==> #[trigger] final(self).pixel_at(
                    r,
                    c,
                ) == old(self).pixel_at(r, c),
            forall|i: int|
                old(self).format.is_padding(i)
                    ==> #[trigger] final(self).pixels@[i] == old(self).pixels@[i],
    {
        let h = self.format.height as usize;
        let mut row: usize = 0;
        while row < h
            invariant
                row <= h,
                h == self.format.height,
                self.format == old(self).format,
                self.format == src.format,
                self.wf(),
                src.wf(),
                self.pixels@.len() == old(self).pixels@.len(),
                col < self.format.width,
                forall|r: int|
                    0 <= r < row ==> #[trigger] self.pixel_at(r, col as int) == src.pixel_at(
                        r,
                        col as int,
                    ),
                forall|r: int, c: int|
                    old(self).in_bounds(r, c) && c != col as int ==> #[trigger] self.pixel_at(r, c)
                        == old(self).pixel_at(r, c),
                forall|i: int|
                    old(self).format.is_padding(i)
                        ==> #[trigger] self.pixels@[i] == old(self).pixels@[i],
            decreases h - row,
        {
            self.copy_pixel(src, row, col);
            row = row + 1;
        }
    }

    /// Exchanges the bytes of the pixels at `(row_a, col_a)` and
    /// `(row_b, col_b)` in place; every other pixel and all row padding keep
    /// their value. Exchanging a position with itself changes nothing.
    pub fn swap_pixel(&mut self, row_a: usize, col_a: usize, row_b: usize, col_b: usize)
        requires
            old(self).wf(),
            old(self).in_bounds(row_a as int, col_a as int),
            old(self).in_bounds(row_b as int, col_b as int),
        ensures
            final(self).wf(),
            final(self).format == old(self).format,
            final(self).pixels@.len() == old(self).pixels@.len(),
            final(self).pixel_at(row_a as int, col_a as int) == old(self).pixel_at(
                row_b as int,
                col_b as int,
            ),
            final(self).pixel_at(row_b as int, col_b as int) == old(self).pixel_at(
                row_a as int,
                col_a as int,
            ),
            forall|r: int, c: int|
                old(self).in_bounds(r, c) && (r, c) != (row_a as int, col_a as int) && (r, c) != (
                    row_b as int,
                    col_b as int,
                ) ==> #[trigger] final(self).pixel_at(r, c) == old(self).pixel_at(r, c),
            forall|i: int|
                old(self).format.is_padding(i)
                    ==> #[trigger] final(self).pixels@[i] == old(self).pixels@[i],
    {
        let spp = self.format.samples_per_pixel as usize;
        let a = self.pixel_offset(row_a, col_a);
        let b = self.pixel_offset(row_b, col_b);
        proof {
            if (row_a as int, col_a as int) != (row_b as int, col_b as int) {
                lemma_pixel_ranges_disjoint(
                    self.format,
                    row_a as int,
                    col_a as int,
                    row_b as int,
                    col_b as int,
                );
            }
        }
        let mut k: usize = 0;
        while k < spp
            invariant
                k <= spp,
                spp == self.format.samples_per_pixel,
                self.format == old(self).format,
                self.wf(),
                self.pixels@.len() == old(self).pixels@.len(),
                a == self.format.offset_of(row_a as int, col_a as int),
                b == self.format.offset_of(row_b as int, col_b as int),
                a + spp <= self.pixels@.len(),
                b + spp <= self.pixels@.len(),
                a == b || a + spp <= b || b + spp <= a,
                forall|j: int| 0 <= j < k ==> #[trigger] self.pixels@[a + j] == old(self).pixels@[b + j],
                forall|j: int| 0 <= j < k ==> #[trigger] self.pixels@[b + j] == old(self).pixels@[a + j],
                forall|j: int|
                    k <= j < spp ==> #[trigger] self.pixels@[a + j] == old(self).pixels@[a + j]
                        && self.pixels@[b + j] == old(self).pixels@[b + j],
                forall|i: int|
                    0 <= i < self.pixels@.len() && !(a <= i < a + spp) && !(b <= i < b + spp)
                        ==> #[trigger] self.pixels@[i] == old(self).pixels@[i],
            decreases spp - k,
        {
            let va = self.pixels[a + k];
            let vb = self.pixels[b + k];
            self.pixels[a + k] = vb;
            self.pixels[b + k] = va;
            k = k + 1;
        }
        proof {
            assert forall|j: int| 0 <= j < self.format.samples_per_pixel implies self.pixel_at(
                row_a as int,
                col_a as int,
            )[j] == old(self).pixel_at(row_b as int, col_b as int)[j] by {
                assert(self.pixels@[a + j] == old(self).pixels@[b + j]);
            }
            assert forall|j: int| 0 <= j < self.format.samples_per_pixel implies self.pixel_at(
                row_b as int,
                col_b as int,
            )[j] == old(self).pixel_at(row_a as int, col_a as int)[j] by {
                assert(self.pixels@[b + j] == old(self).pixels@[a + j]);
            }
            assert(self.pixel_at(row_a as int, col_a as int) =~= old(self).pixel_at(
                row_b as int,
                col_b as int,
            ));
            assert(self.pixel_at(row_b as int, col_b as int) =~= old(self).pixel_at(
                row_a as int,
                col_a as int,
            ));
            assert forall|r: int, c: int|
                old(self).in_bounds(r, c) && (r, c) != (row_a as int, col_a as int) && (r, c) != (
                    row_b as int,
                    col_b as int,
                ) implies #[trigger] self.pixel_at(r, c) == old(self).pixel_at(r, c) by {
                lemma_pixel_ranges_disjoint(self.format, r, c, row_a as int, col_a as int);
                lemma_pixel_ranges_disjoint(self.format, r, c, row_b as int, col_b as int);
                lemma_offset_in_range(self.format, r, c);
                assert(self.pixel_at(r, c) =~= old(self).pixel_at(r, c));
            }
            assert forall|i: int| old(self).format.is_padding(i) implies #[trigger] self.pixels@[i]
                == old(self).pixels@[i] by {
                lemma_padding_outside_pixels(self.format, row_a as int, col_a as int, i);
                lemma_padding_outside_pixels(self.format, row_b as int, col_b as int, i);
            }
        }
    }

    /// Mirrors the image top to bottom: afterwards the pixel at `(row, col)`
    /// holds what the pixel at `(height - 1 - row, col)` held before. Row
    /// padding keeps its value.
    pub fn flip_vertical(&mut self)
        requires
            old(self).wf(),
        ensures
            final(self).wf(),
            final(self).format == old(self).format,
            final(self).pixels@.len() == old(self).pixels@.len(),
            forall|r: int, c: int|
                old(self).in_bounds(r, c) ==> #[trigger] final(self).pixel_at(r, c) == old(
                    self,
                ).pixel_at(old(self).format.height - 1 - r, c),
            forall|i: int|
                old(self).format.is_padding(i)
                    ==> #[trigger] final(self).pixels@[i] == old(self).pixels@[i],
    {
        let w = self.format.width as usize;
        let h = self.format.height as usize;
        let half = h / 2;
        let mut row: usize = 0;
        while row < half
            invariant
                row <= half,
                half == h / 2,
                w == self.format.width,
                h == self.format.height,
                self.format == old(self).format,
                self.wf(),
                self.pixels@.len() == old(self).pixels@.len(),
                forall|r: int, c: int|
                    old(self).in_bounds(r, c) && (r < row || r > h - 1 - row)
                        ==> #[trigger] self.pixel_at(r, c) == old(self).pixel_at(h - 1 - r, c),
                forall|r: int, c: int|
                    old(self).in_bounds(r, c) && row <= r <= h - 1 - row
                        ==> #[trigger] self.pixel_at(r, c) == old(self).pixel_at(r, c),
                forall|i: int|
                    old(self).format.is_padding(i)
                        ==> #[trigger] self.pixels@[i] == old(self).pixels@[i],
            decreases half - row,
        {
            let other = h - 1 - row;
            let mut col: usize = 0;
            while col < w
                invariant
                    col <= w,
                    row < half,
                    half == h / 2,
                    other == h - 1 - row,
                    row < other < h,
                    w == self.format.width,
                    h == self.format.height,
                    self.format == old(self).format,
                    self.wf(),
                    self.pixels@.len() == old(self).pixels@.len(),
                    forall|r: int, c: int|
                        old(self).in_bounds(r, c) && (r < row || r > h - 1 - row)
                            ==> #[trigger] self.pixel_at(r, c) == old(self).pixel_at(h - 1 - r, c),
                    forall|c: int|
                        0 <= c < col ==> #[trigger] self.pixel_at(row as int, c) == old(
                            self,
                        ).pixel_at(other as int, c),
                    forall|c: int|
                        0 <= c < col ==> #[trigger] self.pixel_at(other as int, c) == old(
                            self,
                        ).pixel_at(row as int, c),
                    forall|c: int|
                        col <= c < w ==> #[trigger] self.pixel_at(row as int, c) == old(
                            self,
                        ).pixel_at(row as int, c),
                    forall|c: int|
                        col <= c < w ==> #[trigger] self.pixel_at(other as int, c) == old(
                            self,
                        ).pixel_at(other as int, c),
                    forall|r: int, c: int|
                        old(self).in_bounds(r, c) && row < r <= h - 1 - row && r != other
                            ==> #[trigger] self.pixel_at(r, c) == old(self).pixel_at(r, c),
                    forall|i: int|
                        old(self).format.is_padding(i)
                            ==> #[trigger] self.pixels@[i] == old(self).pixels@[i],
                decreases w - col,
            {
                self.swap_pixel(row, col, other, col);
                col = col + 1;
            }
            row = row + 1;
        }
        proof {
            assert forall|r: int, c: int| old(self).in_bounds(r, c) implies #[trigger] self.pixel_at(
                r,
                c,
            ) == old(self).pixel_at(old(self).format.height - 1 - r, c) by {
                if half <= r <= h - 1 - half {
                    assert(r == h - 1 - r);
                }
            }
        }
    }
}

} // verus!
