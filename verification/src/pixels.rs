//! Pixels in memory: rows with padding, and the order of the colours in a pixel.

use vstd::prelude::*;

verus! {

/// Rows of pixels as a copy between two buffers sees them.
#[derive(Debug, Clone, Copy, PartialEq, Eq, Structural)]
pub struct RowCopy {
    /// The width of the image in pixels of four bytes.
    pub width: u32,
    /// The bytes from the start of a row to the start of the next in the source.
    pub src_stride: usize,
    /// The bytes from the start of a row to the start of the next in the destination.
    pub dst_stride: usize,
    /// The rows of the destination.
    pub rows: usize,
}

impl RowCopy {
    /// The bytes that are copied of each row: those of its pixels, as far as both strides go.
    pub open spec fn row_bytes(self) -> int {
        let pixels = self.width * 4;
        let in_source = if pixels <= self.src_stride { pixels } else { self.src_stride as int };
        if in_source <= self.dst_stride {
            in_source
        } else {
            self.dst_stride as int
        }
    }

    /// Whether the bytes that are copied of each row lie in a destination of `dst_len` bytes, and
    /// every offset in the source can be counted.
    pub open spec fn fits(self, dst_len: nat) -> bool {
        &&& self.width * 4 <= usize::MAX
        &&& self.rows > 0 ==> (self.rows - 1) * self.src_stride + self.row_bytes() <= usize::MAX
        &&& self.rows > 0 ==> (self.rows - 1) * self.dst_stride + self.row_bytes() <= dst_len
    }

    /// Whether a destination of `dst_len` bytes can be copied to.
    pub fn can_copy(&self, dst_len: usize) -> (r: bool)
        ensures
            r == self.fits(dst_len as nat),
    {
        let pixels: usize = match (self.width as usize).checked_mul(4) {
            Some(pixels) => pixels,
            None => {
                return false;
            },
        };
        if self.rows == 0 {
            return true;
        }
        let n: usize = self.row_len();
        let last: usize = self.rows - 1;
        offset_fits(last, self.src_stride, n, usize::MAX) && offset_fits(
            last,
            self.dst_stride,
            n,
            dst_len,
        )
    }

    /// Whether all bytes that are copied of row `row` lie in a source of `src_len` bytes.
    pub open spec fn has_row(self, src_len: nat, row: int) -> bool {
        row * self.src_stride + self.row_bytes() <= src_len
    }

    /// Byte `i` of the destination behind the copy: the source's byte at the same place of the
    /// same row, or what was there before where that row is missing or the place is padding.
    pub open spec fn byte_at(self, src: Seq<u8>, dst: Seq<u8>, i: int) -> u8 {
        let row = i / self.dst_stride as int;
        let column = i % self.dst_stride as int;
        if self.dst_stride > 0 && row < self.rows && column < self.row_bytes() && self.has_row(
            src.len(),
            row,
        ) {
            src[row * self.src_stride + column]
        } else {
            dst[i]
        }
    }

    /// The destination behind the copy.
    pub open spec fn copied(self, src: Seq<u8>, dst: Seq<u8>) -> Seq<u8> {
        Seq::new(dst.len(), |i: int| self.byte_at(src, dst, i))
    }

    /// The bytes that are copied of each row.
    fn row_len(&self) -> (r: usize)
        requires
            self.width * 4 <= usize::MAX,
        ensures
            r == self.row_bytes(),
            r <= self.src_stride,
            r <= self.dst_stride,
    {
        let mut n: usize = self.width as usize * 4;
        if n > self.src_stride {
            n = self.src_stride;
        }
        if n > self.dst_stride {
            n = self.dst_stride;
        }
        n
    }

    /// Copies the rows of `src` to `dst`. A row that `src` does not hold in full is left out.
    pub fn copy(&self, src: &[u8], dst: &mut [u8])
        requires
            self.fits(old(dst)@.len()),
        ensures
            final(dst)@ == self.copied(src@, old(dst)@),
    {
        let n: usize = self.row_len();
        let dst_len: usize = dst.len();
        let ghost before = dst@;
        let mut row: usize = 0;
        assert(0 * self.dst_stride == 0) by (nonlinear_arith);
        while row < self.rows
            invariant
                self.fits(before.len()),
                n == self.row_bytes(),
                n <= self.src_stride,
                n <= self.dst_stride,
                row <= self.rows,
                dst_len == before.len(),
                dst@.len() == before.len(),
                forall|i: int|
                    0 <= i < before.len() ==> #[trigger] dst@[i] == if i < row * self.dst_stride {
                        self.byte_at(src@, before, i)
                    } else {
                        before[i]
                    },
            decreases self.rows - row,
        {
            let ghost start = dst@;
            proof {
                lemma_last_row(row as int, self.rows as int, self.src_stride as int);
                lemma_last_row(row as int, self.rows as int, self.dst_stride as int);
            }
            let from: usize = row * self.src_stride;
            let to: usize = row * self.dst_stride;
            let src_len: usize = src.len();
            if from + n <= src_len {
                let mut k: usize = 0;
                while k < n
                    invariant
                        k <= n,
                        from + n <= src_len == src@.len(),
                        to + n <= dst_len == dst@.len(),
                        dst@.len() == start.len(),
                        forall|i: int|
                            0 <= i < start.len() ==> #[trigger] dst@[i] == if to <= i < to + k {
                                src@[from + (i - to)]
                            } else {
                                start[i]
                            },
                    decreases n - k,
                {
                    dst[to + k] = src[from + k];
                    k = k + 1;
                }
            }
            proof {
                let end = (row + 1) * self.dst_stride;
                assert(end == to + self.dst_stride) by (nonlinear_arith)
                    requires
                        end == (row + 1) * self.dst_stride,
                        to == row * self.dst_stride,
                ;
                assert forall|i: int| 0 <= i < before.len() implies #[trigger] dst@[i] == if i
                    < end {
                    self.byte_at(src@, before, i)
                } else {
                    before[i]
                } by {
                    assert(start[i] == if i < to {
                        self.byte_at(src@, before, i)
                    } else {
                        before[i]
                    });
                    if to <= i < end {
                        lemma_place(i, row as int, self.dst_stride as int);
                    }
                }
            }
            row = row + 1;
        }
        proof {
            assert forall|i: int| 0 <= i < before.len() implies dst@[i] == self.byte_at(
                src@,
                before,
                i,
            ) by {
                if self.dst_stride > 0 && i >= self.rows * self.dst_stride {
                    lemma_row_of(i, self.rows as int, self.dst_stride as int);
                }
                if self.dst_stride == 0 {
                    assert(self.rows * self.dst_stride == 0) by (nonlinear_arith)
                        requires
                            self.dst_stride == 0,
                    ;
                }
            }
            assert(dst@ =~= self.copied(src@, before));
        }
    }
}

/// Whether `n` bytes from the start of row `row` end within `len` bytes.
fn offset_fits(row: usize, stride: usize, n: usize, len: usize) -> (r: bool)
    ensures
        r == (row * stride + n <= len),
{
    match row.checked_mul(stride) {
        Some(start) => match start.checked_add(n) {
            Some(end) => end <= len,
            None => false,
        },
        None => false,
    }
}

/// Where a byte of row `row` is.
proof fn lemma_place(i: int, row: int, stride: int)
    requires
        0 < stride,
        row * stride <= i < row * stride + stride,
    ensures
        i / stride == row,
        i % stride == i - row * stride,
{
    vstd::arithmetic::div_mod::lemma_fundamental_div_mod_converse(
        i,
        stride,
        row,
        i - row * stride,
    );
}

/// A byte behind the first `rows` rows is in none of them.
proof fn lemma_row_of(i: int, rows: int, stride: int)
    by (nonlinear_arith)
    requires
        0 < stride,
        0 <= rows,
        rows * stride <= i,
    ensures
        i / stride >= rows,
{
}

/// Every byte of a pixel arrives, at the same place of the same row, where both strides have
/// room for the pixels of a row and the source holds the row.
pub proof fn law_copy_keeps_pixels(copy: RowCopy, src: Seq<u8>, dst: Seq<u8>, row: int, column: int)
    requires
        copy.fits(dst.len()),
        copy.width * 4 <= copy.src_stride,
        copy.width * 4 <= copy.dst_stride,
        0 <= row < copy.rows,
        0 <= column < copy.width * 4,
        row * copy.src_stride + copy.width * 4 <= src.len(),
    ensures
        0 <= row * copy.dst_stride + column < dst.len(),
        copy.copied(src, dst)[row * copy.dst_stride + column] == src[row * copy.src_stride
            + column],
{
    lemma_last_row(row, copy.rows as int, copy.dst_stride as int);
    lemma_place(row * copy.dst_stride + column, row, copy.dst_stride as int);
}

/// A copy changes nothing but the pixels: the padding of each row, and what lies behind the
/// rows, stay as they were.
pub proof fn law_copy_leaves_padding(copy: RowCopy, src: Seq<u8>, dst: Seq<u8>, i: int)
    requires
        copy.fits(dst.len()),
        0 <= i < dst.len(),
        copy.dst_stride == 0 || i >= copy.rows * copy.dst_stride || i % (copy.dst_stride as int)
            >= copy.width * 4,
    ensures
        copy.copied(src, dst)[i] == dst[i],
{
    if copy.dst_stride > 0 && i >= copy.rows * copy.dst_stride {
        lemma_row_of(i, copy.rows as int, copy.dst_stride as int);
    }
}

/// Where the byte `k` of an RGBA pixel stands in a BGRA pixel.
pub open spec fn bgra_place(k: int) -> int {
    if k == 0 {
        2
    } else if k == 2 {
        0
    } else {
        k
    }
}

/// Whether `len` bytes hold an image with rows `stride` bytes apart, the last of which may lack
/// its padding, where every offset can be counted, and the bytes without padding in a `u32`.
pub open spec fn holds_image(len: nat, width: u32, height: u32, stride: usize) -> bool {
    &&& width * height * 4 <= u32::MAX
    &&& height > 0 ==> (height - 1) * stride <= usize::MAX
    &&& width > 0 && height > 0 ==> (height - 1) * stride + width * 4 <= len
}

/// Whether `len` bytes hold an image that a snapshot can be made of.
pub fn can_snapshot(len: usize, width: u32, height: u32, stride: usize) -> (r: bool)
    ensures
        r == holds_image(len as nat, width, height, stride),
{
    assert(width * height <= 0xFFFF_FFFF * 0xFFFF_FFFF) by (nonlinear_arith)
        requires
            width <= 0xFFFF_FFFF,
            height <= 0xFFFF_FFFF,
    ;
    let size: u64 = width as u64 * height as u64;
    if size > u32::MAX as u64 / 4 {
        return false;
    }
    if height == 0 {
        return true;
    }
    let last: usize = height as usize - 1;
    if width == 0 {
        return offset_fits(last, stride, 0, usize::MAX);
    }
    let pixels: usize = match (width as usize).checked_mul(4) {
        Some(pixels) => pixels,
        None => {
            return false;
        },
    };
    offset_fits(last, stride, pixels, len)
}

/// Byte `i` of the RGBA image without padding: byte `i % 4` of the pixel at column
/// `i / 4 % width` of row `i / 4 / width`.
pub open spec fn rgba_byte(bgra: Seq<u8>, width: u32, stride: usize, i: int) -> u8 {
    let row = i / 4 / (width as int);
    let column = i / 4 % (width as int);
    bgra[row * stride + column * 4 + bgra_place(i % 4)]
}

/// The RGBA image without padding of a BGRA image with rows `stride` bytes apart.
pub open spec fn rgba_of(bgra: Seq<u8>, width: u32, height: u32, stride: usize) -> Seq<u8> {
    Seq::new((width * height * 4) as nat, |i: int| rgba_byte(bgra, width, stride, i))
}

/// Turns a BGRA image with rows `stride` bytes apart into RGBA without padding.
pub fn bgra_to_rgba(bgra: &[u8], width: u32, height: u32, stride: usize) -> (rgba: Vec<u8>)
    requires
        holds_image(bgra@.len(), width, height, stride),
    ensures
        rgba@ == rgba_of(bgra@, width, height, stride),
{
    let len: usize = bgra.len();
    let mut rgba: Vec<u8> = Vec::new();
    let mut row: usize = 0;
    assert(0 * width == 0) by (nonlinear_arith);
    while row < height as usize
        invariant
            holds_image(bgra@.len(), width, height, stride),
            len == bgra@.len(),
            row <= height,
            rgba@.len() == 4 * (row * width),
            forall|i: int|
                0 <= i < rgba@.len() ==> #[trigger] rgba@[i] == rgba_byte(bgra@, width, stride, i),
        decreases height - row,
    {
        proof {
            lemma_last_row(row as int, height as int, stride as int);
        }
        let start: usize = row * stride;
        let mut column: usize = 0;
        while column < width as usize
            invariant
                start == row * stride,
                width > 0 ==> start + width * 4 <= len,
                len == bgra@.len(),
                column <= width,
                rgba@.len() == 4 * (row * width + column),
                forall|i: int|
                    0 <= i < rgba@.len() ==> #[trigger] rgba@[i] == rgba_byte(
                        bgra@,
                        width,
                        stride,
                        i,
                    ),
            decreases width - column,
        {
            let at: usize = start + column * 4;
            let ghost before = rgba@;
            let ghost pixel = row * width + column;
            rgba.push(bgra[at + 2]);
            rgba.push(bgra[at + 1]);
            rgba.push(bgra[at]);
            rgba.push(bgra[at + 3]);
            proof {
                lemma_pixel(row as int, column as int, width as int);
                assert forall|i: int| 0 <= i < rgba@.len() implies #[trigger] rgba@[i] == rgba_byte(
                    bgra@,
                    width,
                    stride,
                    i,
                ) by {
                    if i < before.len() {
                        assert(rgba@[i] == before[i]);
                    } else {
                        assert(i / 4 == pixel && i % 4 == i - 4 * pixel);
                    }
                }
            }
            column = column + 1;
        }
        proof {
            assert(row * width + width == (row + 1) * width) by (nonlinear_arith);
        }
        row = row + 1;
    }
    proof {
        assert(4 * (height * width) == width * height * 4) by (nonlinear_arith);
        assert(rgba@ =~= rgba_of(bgra@, width, height, stride));
    }
    rgba
}

/// No row starts behind the last one.
proof fn lemma_last_row(row: int, rows: int, stride: int)
    by (nonlinear_arith)
    requires
        0 <= row < rows,
        0 <= stride,
    ensures
        0 <= row * stride <= (rows - 1) * stride,
{
}

/// Where the pixel at a row and a column is.
proof fn lemma_pixel(row: int, column: int, width: int)
    requires
        0 <= row,
        0 <= column < width,
    ensures
        (row * width + column) / width == row,
        (row * width + column) % width == column,
        0 <= row * width,
{
    vstd::arithmetic::div_mod::lemma_fundamental_div_mod_converse(
        row * width + column,
        width,
        row,
        column,
    );
    assert(0 <= row * width) by (nonlinear_arith)
        requires
            0 <= row,
            0 < width,
    ;
}

/// `image::RgbaImage::from_raw`, and back by `into_raw`: the bytes are an image of that size
/// exactly where there are enough of them, and they are kept as they are.
#[verifier::external_body]
fn rgba_image(width: u32, height: u32, rgba: Vec<u8>) -> (r: Option<Vec<u8>>)
    ensures
        r is Some <==> width * height * 4 <= rgba@.len(),
        r is Some ==> r->Some_0@ == rgba@,
{
    image::RgbaImage::from_raw(width, height, rgba).map(|image| image.into_raw())
}

/// The image to save of a BGRA capture with rows `stride` bytes apart, in RGBA without padding.
pub fn snapshot(bgra: &[u8], width: u32, height: u32, stride: usize) -> (r: Vec<u8>)
    requires
        holds_image(bgra@.len(), width, height, stride),
    ensures
        r@ == rgba_of(bgra@, width, height, stride),
{
    let rgba = bgra_to_rgba(bgra, width, height, stride);
    assert(width * height * 4 >= 0) by (nonlinear_arith);
    rgba_image(width, height, rgba).unwrap()
}

/// Red and blue change places and nothing else does: byte by byte, each pixel of the RGBA image
/// is the pixel at the same row and column of the BGRA image.
pub proof fn law_rgba_swaps_red_and_blue(
    bgra: Seq<u8>,
    width: u32,
    height: u32,
    stride: usize,
    row: int,
    column: int,
)
    requires
        holds_image(bgra.len(), width, height, stride),
        0 <= row < height,
        0 <= column < width,
    ensures
        ({
            let rgba = rgba_of(bgra, width, height, stride);
            let to = 4 * (row * width + column);
            let from = row * stride + column * 4;
            &&& 0 <= from && from + 4 <= bgra.len()
            &&& 0 <= to && to + 4 <= rgba.len()
            &&& rgba.len() == width * height * 4
            &&& rgba[to] == bgra[from + 2]
            &&& rgba[to + 1] == bgra[from + 1]
            &&& rgba[to + 2] == bgra[from]
            &&& rgba[to + 3] == bgra[from + 3]
        }),
{
    lemma_pixel(row, column, width as int);
    lemma_last_row(row, height as int, stride as int);
    let pixel = row * width + column;
    assert(pixel < width * height) by (nonlinear_arith)
        requires
            pixel == row * width + column,
            0 <= row < height,
            0 <= column < width,
    ;
    assert(4 * pixel / 4 == pixel && (4 * pixel + 1) / 4 == pixel);
    assert((4 * pixel + 2) / 4 == pixel && (4 * pixel + 3) / 4 == pixel);
}

/// Of each row as many bytes are copied as its pixels have and both strides allow, whichever of
/// the three is least, where the source holds that many of the row; and nothing of a row where
/// it does not.
pub proof fn law_copy_takes_what_fits(
    copy: RowCopy,
    src: Seq<u8>,
    dst: Seq<u8>,
    n: int,
    row: int,
    column: int,
)
    requires
        n <= copy.width * 4,
        n <= copy.src_stride,
        n <= copy.dst_stride,
        n == copy.width * 4 || n == copy.src_stride || n == copy.dst_stride,
        0 <= row < copy.rows,
        0 <= column < copy.dst_stride,
        row * copy.dst_stride + column < dst.len(),
    ensures
        copy.copied(src, dst).len() == dst.len(),
        copy.copied(src, dst)[row * copy.dst_stride + column] == if column < n && row
            * copy.src_stride + n <= src.len() {
            src[row * copy.src_stride + column]
        } else {
            dst[row * copy.dst_stride + column]
        },
{
    lemma_last_row(row, copy.rows as int, copy.dst_stride as int);
    lemma_place(row * copy.dst_stride + column, row, copy.dst_stride as int);
}

/// A whole capture, with room for the pixels in each of its rows, can be saved, where its bytes
/// without padding can be counted.
pub proof fn law_whole_captures_can_be_saved(len: usize, width: u32, height: u32, stride: usize)
    requires
        width * 4 <= stride,
        height * stride <= len,
        width * height * 4 <= u32::MAX,
    ensures
        holds_image(len as nat, width, height, stride),
{
    if height > 0 {
        assert((height - 1) * stride + stride == height * stride) by (nonlinear_arith);
    }
}

} // verus!
