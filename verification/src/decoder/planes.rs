//! The planes of a decoded picture: where they lie in memory, and how the visible
//! part of them is copied out.

use crate::video::{BitDepth, PixelFormat};
use vstd::arithmetic::div_mod::{
    lemma_div_is_ordered, lemma_fundamental_div_mod, lemma_fundamental_div_mod_converse,
};
use vstd::prelude::*;

verus! {

/// Byte layout of a decoded picture in the readback buffer, and of the visible
/// region the host actually copies out.
///
/// The decoded image is `coded_width` x `coded_height` (macroblock-aligned),
/// but only `width` x `height` is displayed, so the host reads a cropped
/// sub-rectangle out of a larger buffer.
#[derive(Debug, Clone, Copy, PartialEq, Eq, Structural)]
pub struct PlaneGeometry {
    /// 1 for 4:4:4, 2 for 4:2:0.
    pub chroma_div: usize,
    pub y_stride: usize,
    pub y_size: usize,
    pub uv_stride: usize,
    pub total: usize,
    pub visible_y_stride: usize,
    pub visible_uv_stride: usize,
    pub visible_y_rows: usize,
    pub visible_uv_rows: usize,
}

/// A copy of a whole plane to a buffer: its first byte there, and its size in
/// texels.
#[derive(Clone, Copy, Debug, PartialEq, Eq, Structural)]
pub struct ReadbackRegion {
    pub buffer_offset: u64,
    pub row_length: u32,
    pub image_height: u32,
}

/// Bytes of one sample.
pub open spec fn sample_bytes(bit_depth: BitDepth) -> int {
    match bit_depth {
        BitDepth::Eight => 1,
        BitDepth::Ten => 2,
    }
}

/// How many luma samples a chroma sample covers in either direction.
pub open spec fn chroma_divisor(pixel_format: PixelFormat) -> int {
    match pixel_format {
        PixelFormat::Yuv444 => 1,
        _ => 2,
    }
}

/// Bytes of a row of interleaved chroma samples.
pub open spec fn chroma_stride(width: u32, bit_depth: BitDepth, pixel_format: PixelFormat) -> int {
    (width as int / chroma_divisor(pixel_format)) * 2 * sample_bytes(bit_depth)
}

/// Bytes of both planes of an image.
pub open spec fn image_bytes(
    coded_width: u32,
    coded_height: u32,
    bit_depth: BitDepth,
    pixel_format: PixelFormat,
) -> int {
    coded_width * sample_bytes(bit_depth) * coded_height + chroma_stride(
        coded_width,
        bit_depth,
        pixel_format,
    ) * (coded_height as int / chroma_divisor(pixel_format))
}

/// Whether the byte layout of a picture can be addressed.
pub open spec fn layout_fits(
    coded_width: u32,
    coded_height: u32,
    width: u32,
    bit_depth: BitDepth,
    pixel_format: PixelFormat,
) -> bool {
    &&& coded_width * 2 * sample_bytes(bit_depth) <= usize::MAX
    &&& width * 2 * sample_bytes(bit_depth) <= usize::MAX
    &&& image_bytes(coded_width, coded_height, bit_depth, pixel_format) <= usize::MAX
}

/// One past the last byte that reading `rows` rows of `visible` bytes touches,
/// the first of them at `base`.
pub open spec fn plane_end(base: int, stride: int, visible: int, rows: int) -> int {
    if rows == 0 {
        0
    } else {
        base + (rows - 1) * stride + visible
    }
}

impl PlaneGeometry {
    /// One past the last byte that the host reads.
    pub open spec fn read_end(self) -> int {
        vstd::math::max(
            plane_end(
                0,
                self.y_stride as int,
                self.visible_y_stride as int,
                self.visible_y_rows as int,
            ),
            plane_end(
                self.y_size as int,
                self.uv_stride as int,
                self.visible_uv_stride as int,
                self.visible_uv_rows as int,
            ),
        )
    }

    /// Whether this is the layout of such a picture.
    pub open spec fn describes(
        self,
        coded_width: u32,
        coded_height: u32,
        width: u32,
        height: u32,
        bit_depth: BitDepth,
        pixel_format: PixelFormat,
    ) -> bool {
        let bytes = sample_bytes(bit_depth);
        let div = chroma_divisor(pixel_format);
        &&& self.chroma_div == div
        &&& self.y_stride == coded_width * bytes
        &&& self.y_size == coded_width * bytes * coded_height
        &&& self.uv_stride == chroma_stride(coded_width, bit_depth, pixel_format)
        &&& self.total == image_bytes(coded_width, coded_height, bit_depth, pixel_format)
        &&& self.visible_y_stride == width * bytes
        &&& self.visible_uv_stride == chroma_stride(width, bit_depth, pixel_format)
        &&& self.visible_y_rows == height
        &&& self.visible_uv_rows == height as int / div
    }

    /// Whether the byte layout of a picture can be addressed.
    pub fn fits(
        coded_width: u32,
        coded_height: u32,
        width: u32,
        bit_depth: BitDepth,
        pixel_format: PixelFormat,
    ) -> (fits: bool)
        ensures
            fits == layout_fits(coded_width, coded_height, width, bit_depth, pixel_format),
    {
        let bytes: u128 = match bit_depth {
            BitDepth::Eight => 1,
            BitDepth::Ten => 2,
        };
        let div: u128 = match pixel_format {
            PixelFormat::Yuv444 => 1,
            _ => 2,
        };
        let y_stride: u128 = coded_width as u128 * bytes;
        let uv_stride: u128 = (coded_width as u128 / div) * 2 * bytes;
        let rows: u128 = coded_height as u128;
        let uv_rows: u128 = coded_height as u128 / div;
        assert(y_stride * rows + uv_stride * uv_rows <= 0x6_0000_0000 * 0x1_0000_0000)
            by (nonlinear_arith)
            requires
                y_stride <= 0x2_0000_0000,
                uv_stride <= 0x4_0000_0000,
                rows <= 0x1_0000_0000,
                uv_rows <= 0x1_0000_0000,
        ;
        assert(0 <= y_stride * rows && 0 <= uv_stride * uv_rows) by (nonlinear_arith)
            requires
                y_stride >= 0,
                uv_stride >= 0,
                rows >= 0,
                uv_rows >= 0,
        ;
        let max: u128 = usize::MAX as u128;
        coded_width as u128 * 2 * bytes <= max && width as u128 * 2 * bytes <= max && y_stride
            * rows + uv_stride * uv_rows <= max
    }

    /// The layout of a picture.
    pub fn new(
        coded_width: u32,
        coded_height: u32,
        width: u32,
        height: u32,
        bit_depth: BitDepth,
        pixel_format: PixelFormat,
    ) -> (geometry: Self)
        requires
            layout_fits(coded_width, coded_height, width, bit_depth, pixel_format),
        ensures
            geometry.describes(coded_width, coded_height, width, height, bit_depth, pixel_format),
    {
        let bytes_per_sample: usize = match bit_depth {
            BitDepth::Eight => 1,
            BitDepth::Ten => 2,
        };
        let chroma_div: usize = match pixel_format {
            PixelFormat::Yuv444 => 1,
            _ => 2,
        };
        assert(coded_width * bytes_per_sample * coded_height >= 0 && ((coded_width as int
            / chroma_div as int) * 2 * bytes_per_sample) * (coded_height as int
            / chroma_div as int) >= 0) by (nonlinear_arith)
            requires
                coded_width >= 0,
                coded_height >= 0,
                bytes_per_sample >= 0,
                chroma_div > 0,
        ;
        assert(coded_width * bytes_per_sample <= coded_width * 2 * bytes_per_sample && width
            * bytes_per_sample <= width * 2 * bytes_per_sample) by (nonlinear_arith)
            requires
                coded_width >= 0,
                width >= 0,
                bytes_per_sample >= 0,
        ;
        proof {
            lemma_half_row(coded_width as int, chroma_div as int, bytes_per_sample as int);
            lemma_half_row(width as int, chroma_div as int, bytes_per_sample as int);
        }
        let y_stride: usize = coded_width as usize * bytes_per_sample;
        let y_size: usize = y_stride * coded_height as usize;
        let uv_stride: usize = (coded_width as usize / chroma_div) * 2 * bytes_per_sample;
        let uv_size: usize = uv_stride * (coded_height as usize / chroma_div);
        Self {
            chroma_div,
            y_stride,
            y_size,
            uv_stride,
            total: y_size + uv_size,
            visible_y_stride: width as usize * bytes_per_sample,
            visible_uv_stride: (width as usize / chroma_div) * 2 * bytes_per_sample,
            visible_y_rows: height as usize,
            visible_uv_rows: height as usize / chroma_div,
        }
    }

    /// Byte offset one past the last byte the host reads. Must not exceed
    /// `total`, or a download would read out of bounds.
    pub fn max_read_offset(&self) -> (offset: usize)
        requires
            self.read_end() <= usize::MAX,
        ensures
            offset == self.read_end(),
    {
        assert(self.visible_y_rows > 0 ==> (self.visible_y_rows - 1) * self.y_stride >= 0)
            by (nonlinear_arith)
            requires
                self.y_stride >= 0,
        ;
        assert(self.visible_uv_rows > 0 ==> (self.visible_uv_rows - 1) * self.uv_stride >= 0)
            by (nonlinear_arith)
            requires
                self.uv_stride >= 0,
        ;
        let last_y: usize = if self.visible_y_rows == 0 {
            0
        } else {
            (self.visible_y_rows - 1) * self.y_stride + self.visible_y_stride
        };
        let last_uv: usize = if self.visible_uv_rows == 0 {
            0
        } else {
            self.y_size + (self.visible_uv_rows - 1) * self.uv_stride + self.visible_uv_stride
        };
        if last_y >= last_uv {
            last_y
        } else {
            last_uv
        }
    }

    /// The copies from a decoded image to the readback buffer: the luma plane, and
    /// the chroma plane behind it.
    pub fn readback_regions(&self, coded_width: u32, coded_height: u32) -> (regions: (
        ReadbackRegion,
        ReadbackRegion,
    ))
        requires
            self.chroma_div == 1 || self.chroma_div == 2,
        ensures
            regions.0 == (ReadbackRegion {
                buffer_offset: 0,
                row_length: coded_width,
                image_height: coded_height,
            }),
            regions.1 == (ReadbackRegion {
                buffer_offset: self.y_size as u64,
                row_length: (coded_width as int / self.chroma_div as int) as u32,
                image_height: (coded_height as int / self.chroma_div as int) as u32,
            }),
    {
        let div: u32 = self.chroma_div as u32;
        (
            ReadbackRegion {
                buffer_offset: 0,
                row_length: coded_width,
                image_height: coded_height,
            },
            ReadbackRegion {
                buffer_offset: self.y_size as u64,
                row_length: coded_width / div,
                image_height: coded_height / div,
            },
        )
    }

    /// Read both planes out of the readback buffer, cropped to the visible region.
    pub fn read_planes(&self, bytes: &[u8]) -> (planes: (Vec<u8>, Vec<u8>))
        requires
            self.read_end() <= bytes@.len(),
        ensures
            planes.0@ == cropped(
                bytes@,
                0,
                self.y_stride as int,
                self.visible_y_stride as int,
                self.visible_y_rows as int,
            ),
            planes.1@ == cropped(
                bytes@,
                self.y_size as int,
                self.uv_stride as int,
                self.visible_uv_stride as int,
                self.visible_uv_rows as int,
            ),
    {
        let y = crop(bytes, 0, self.y_stride, self.visible_y_stride, self.visible_y_rows);
        let uv = crop(
            bytes,
            self.y_size,
            self.uv_stride,
            self.visible_uv_stride,
            self.visible_uv_rows,
        );
        (y, uv)
    }
}

proof fn lemma_half_row(width: int, div: int, bytes: int)
    requires
        width >= 0,
        div == 1 || div == 2,
        bytes == 1 || bytes == 2,
    ensures
        0 <= (width / div) * 2 <= width * 2 * bytes,
        0 <= (width / div) * 2 * bytes <= width * 2 * bytes,
{
}

/// The first `visible` bytes of each of `rows` rows, one row after the other. Row
/// `r` begins at `base + r * stride`.
pub open spec fn cropped(bytes: Seq<u8>, base: int, stride: int, visible: int, rows: int) -> Seq<
    u8,
> {
    Seq::new(
        (rows * visible) as nat,
        |i: int| bytes[base + (i / visible) * stride + i % visible],
    )
}

fn crop(bytes: &[u8], base: usize, stride: usize, visible: usize, rows: usize) -> (out: Vec<u8>)
    requires
        plane_end(base as int, stride as int, visible as int, rows as int) <= bytes@.len(),
    ensures
        out@ == cropped(bytes@, base as int, stride as int, visible as int, rows as int),
{
    let len: usize = bytes.len();
    let mut out: Vec<u8> = Vec::new();
    let mut row: usize = 0;
    assert(out@ =~= cropped(bytes@, base as int, stride as int, visible as int, 0)) by {
        assert(0 * visible == 0);
    }
    while row < rows
        invariant
            row <= rows,
            len == bytes@.len(),
            plane_end(base as int, stride as int, visible as int, rows as int) <= bytes@.len(),
            out@ == cropped(bytes@, base as int, stride as int, visible as int, row as int),
        decreases rows - row,
    {
        let ghost done = out@;
        assert(0 <= row * stride <= (rows - 1) * stride) by (nonlinear_arith)
            requires
                0 <= row <= rows - 1,
                stride >= 0,
        ;
        assert(row * visible >= 0) by (nonlinear_arith)
            requires
                row >= 0,
                visible >= 0,
        ;
        let start: usize = base + row * stride;
        let mut column: usize = 0;
        while column < visible
            invariant
                column <= visible,
                len == bytes@.len(),
                start == base + row * stride,
                start + visible <= bytes@.len(),
                row * visible >= 0,
                done.len() == row * visible,
                done == cropped(bytes@, base as int, stride as int, visible as int, row as int),
                out@.len() == row * visible + column,
                forall|i: int| 0 <= i < done.len() ==> out@[i] == done[i],
                forall|c: int|
                    0 <= c < column ==> #[trigger] out@[row * visible + c] == bytes@[start + c],
            decreases visible - column,
        {
            out.push(bytes[start + column]);
            column = column + 1;
        }
        proof {
            let next = cropped(bytes@, base as int, stride as int, visible as int, row + 1);
            assert((row + 1) * visible == row * visible + visible) by (nonlinear_arith);
            assert forall|i: int| 0 <= i < next.len() implies out@[i] == #[trigger] next[i] by {
                if i < row * visible {
                    assert(out@[i] == done[i]);
                } else {
                    let c = i - row * visible;
                    assert(out@[row * visible + c] == bytes@[start + c]);
                    assert(visible * row == row * visible) by (nonlinear_arith);
                    lemma_fundamental_div_mod_converse(i, visible as int, row as int, c);
                }
            }
            assert(out@ =~= next);
        }
        row = row + 1;
    }
    out
}

/// The host never reads past the end of the readback buffer: where the visible
/// region lies inside the coded picture, everything that is read is inside the
/// image's bytes.
pub proof fn law_reads_stay_in_bounds(
    geometry: PlaneGeometry,
    coded_width: u32,
    coded_height: u32,
    width: u32,
    height: u32,
    bit_depth: BitDepth,
    pixel_format: PixelFormat,
)
    requires
        geometry.describes(coded_width, coded_height, width, height, bit_depth, pixel_format),
        width <= coded_width,
        height <= coded_height,
    ensures
        geometry.read_end() <= geometry.total,
{
    let bytes = sample_bytes(bit_depth);
    let div = chroma_divisor(pixel_format);
    lemma_plane_within(
        geometry.y_stride as int,
        geometry.visible_y_stride as int,
        height as int,
        coded_height as int,
        width as int,
        coded_width as int,
        bytes,
    );
    let uv_width = width as int / div;
    let uv_coded = coded_width as int / div;
    lemma_div_is_ordered(width as int, coded_width as int, div);
    lemma_div_is_ordered(height as int, coded_height as int, div);
    lemma_plane_within(
        geometry.uv_stride as int,
        geometry.visible_uv_stride as int,
        height as int / div,
        coded_height as int / div,
        uv_width,
        uv_coded,
        2 * bytes,
    );
    assert(uv_width * 2 * bytes == uv_width * (2 * bytes)) by (nonlinear_arith);
    assert(uv_coded * 2 * bytes == uv_coded * (2 * bytes)) by (nonlinear_arith);
    assert(geometry.uv_stride * (coded_height as int / div) >= 0) by (nonlinear_arith)
        requires
            geometry.uv_stride >= 0,
            coded_height as int / div >= 0,
    ;
}

proof fn lemma_plane_within(
    stride: int,
    visible: int,
    rows: int,
    coded_rows: int,
    width: int,
    coded_width: int,
    bytes: int,
)
    requires
        bytes >= 0,
        0 <= width <= coded_width,
        0 <= rows <= coded_rows,
        stride == coded_width * bytes,
        visible == width * bytes,
    ensures
        plane_end(0, stride, visible, rows) <= stride * coded_rows,
        0 <= stride * coded_rows,
{
    assert(visible <= stride) by (nonlinear_arith)
        requires
            0 <= width <= coded_width,
            bytes >= 0,
            stride == coded_width * bytes,
            visible == width * bytes,
    ;
    assert(0 <= stride) by (nonlinear_arith)
        requires
            0 <= coded_width,
            bytes >= 0,
            stride == coded_width * bytes,
    ;
    assert((rows - 1) * stride + stride == rows * stride) by (nonlinear_arith);
    assert(rows * stride <= stride * coded_rows && 0 <= stride * coded_rows) by (nonlinear_arith)
        requires
            0 <= rows <= coded_rows,
            0 <= stride,
    ;
}

/// Cropping a picture to its full size changes nothing: all bytes of a plane come
/// out, in order.
pub proof fn law_full_crop_is_identity(bytes: Seq<u8>, base: int, stride: int, rows: int)
    requires
        stride > 0,
        rows >= 0,
        base >= 0,
        base + rows * stride <= bytes.len(),
    ensures
        cropped(bytes, base, stride, stride, rows) == bytes.subrange(base, base + rows * stride),
{
    assert(rows * stride >= 0) by (nonlinear_arith)
        requires
            rows >= 0,
            stride > 0,
    ;
    let all = bytes.subrange(base, base + rows * stride);
    let crop = cropped(bytes, base, stride, stride, rows);
    assert forall|i: int| 0 <= i < all.len() implies all[i] == #[trigger] crop[i] by {
        lemma_fundamental_div_mod(i, stride);
        assert(stride * (i / stride) == (i / stride) * stride) by (nonlinear_arith);
    }
    assert(all =~= crop);
}

/// The extent of one plane.
#[derive(Clone, Copy, Debug, PartialEq, Eq, Structural)]
pub struct PlaneExtent {
    pub width: u32,
    pub height: u32,
}

/// The extents that are copied from a decoded picture: the luma plane, and the
/// chroma plane at its own resolution.
pub fn copy_extents(coded_width: u32, coded_height: u32, pixel_format: PixelFormat) -> (extents: (
    PlaneExtent,
    PlaneExtent,
))
    ensures
        extents.0 == (PlaneExtent { width: coded_width, height: coded_height }),
        extents.1 == (PlaneExtent {
            width: coded_width / pixel_format.divisors().0,
            height: coded_height / pixel_format.divisors().1,
        }),
{
    let (horizontal, vertical) = pixel_format.chroma_div();
    (
        PlaneExtent { width: coded_width, height: coded_height },
        PlaneExtent { width: coded_width / horizontal, height: coded_height / vertical },
    )
}

/// A crop keeps every byte in its row and column.
pub proof fn law_crop_keeps_rows_and_columns(
    bytes: Seq<u8>,
    base: int,
    stride: int,
    visible: int,
    rows: int,
    row: int,
    column: int,
)
    requires
        0 <= row < rows,
        0 <= column < visible,
    ensures
        cropped(bytes, base, stride, visible, rows).len() == rows * visible,
        0 <= row * visible + column < rows * visible,
        cropped(bytes, base, stride, visible, rows)[row * visible + column] == bytes[base + row
            * stride + column],
{
    assert(0 <= row * visible && row * visible + visible <= rows * visible) by (nonlinear_arith)
        requires
            0 <= row < rows,
            0 <= visible,
    ;
    assert(visible * row == row * visible) by (nonlinear_arith);
    lemma_fundamental_div_mod_converse(row * visible + column, visible, row, column);
}

/// What the host reads is the visible part of the picture: byte `b` of the luma
/// sample in a column and a row of it is that byte of the sample in the same column
/// and row of the decoded picture, whose rows are longer. `bytes` is the size of a
/// sample.
pub proof fn law_visible_luma_is_read(
    geometry: PlaneGeometry,
    coded_width: u32,
    coded_height: u32,
    width: u32,
    height: u32,
    bit_depth: BitDepth,
    pixel_format: PixelFormat,
    data: Seq<u8>,
    bytes: int,
    column: int,
    row: int,
    b: int,
)
    requires
        geometry.describes(coded_width, coded_height, width, height, bit_depth, pixel_format),
        bit_depth is Eight ==> bytes == 1,
        bit_depth is Ten ==> bytes == 2,
        0 <= column < width,
        0 <= row < height,
        0 <= b < bytes,
    ensures
        cropped(
            data,
            0,
            geometry.y_stride as int,
            geometry.visible_y_stride as int,
            geometry.visible_y_rows as int,
        )[(row * width + column) * bytes + b] == data[(row * coded_width + column) * bytes + b],
{
    let at = column * bytes + b;
    assert(0 <= at < width * bytes) by (nonlinear_arith)
        requires
            0 <= column < width,
            0 <= b < bytes,
            at == column * bytes + b,
    ;
    law_crop_keeps_rows_and_columns(
        data,
        0,
        geometry.y_stride as int,
        geometry.visible_y_stride as int,
        geometry.visible_y_rows as int,
        row,
        at,
    );
    assert((row * width + column) * bytes + b == row * (width * bytes) + at && (row * coded_width
        + column) * bytes + b == row * (coded_width * bytes) + at) by (nonlinear_arith)
        requires
            at == column * bytes + b,
    ;
}

/// The chroma samples of the visible part are read in the same way, behind all luma
/// samples of the decoded picture: `c` is zero for Cb and one for Cr, and `div` is
/// the number of luma columns and rows that one sample covers.
pub proof fn law_visible_chroma_is_read(
    geometry: PlaneGeometry,
    coded_width: u32,
    coded_height: u32,
    width: u32,
    height: u32,
    bit_depth: BitDepth,
    pixel_format: PixelFormat,
    data: Seq<u8>,
    bytes: int,
    div: int,
    column: int,
    row: int,
    c: int,
    b: int,
)
    requires
        geometry.describes(coded_width, coded_height, width, height, bit_depth, pixel_format),
        bit_depth is Eight ==> bytes == 1,
        bit_depth is Ten ==> bytes == 2,
        pixel_format is Yuv420 && div == 2 || pixel_format is Yuv444 && div == 1,
        0 <= column < width as int / div,
        0 <= row < height as int / div,
        0 <= c < 2,
        0 <= b < bytes,
    ensures
        cropped(
            data,
            geometry.y_size as int,
            geometry.uv_stride as int,
            geometry.visible_uv_stride as int,
            geometry.visible_uv_rows as int,
        )[((row * (width as int / div) + column) * 2 + c) * bytes + b] == data[coded_width
            * coded_height * bytes + ((row * (coded_width as int / div) + column) * 2 + c) * bytes
            + b],
{
    let w = width as int / div;
    let wide = coded_width as int / div;
    let at = (column * 2 + c) * bytes + b;
    assert(0 <= at < w * 2 * bytes) by (nonlinear_arith)
        requires
            0 <= column < w,
            0 <= c < 2,
            0 <= b < bytes,
            at == (column * 2 + c) * bytes + b,
    ;
    law_crop_keeps_rows_and_columns(
        data,
        geometry.y_size as int,
        geometry.uv_stride as int,
        geometry.visible_uv_stride as int,
        geometry.visible_uv_rows as int,
        row,
        at,
    );
    assert(((row * w + column) * 2 + c) * bytes + b == row * (w * 2 * bytes) + at && ((row * wide
        + column) * 2 + c) * bytes + b == row * (wide * 2 * bytes) + at) by (nonlinear_arith)
        requires
            at == (column * 2 + c) * bytes + b,
    ;
    assert(coded_width * bytes * coded_height == coded_width * coded_height * bytes)
        by (nonlinear_arith);
}

/// A picture with even sides takes one and a half samples for each pixel where
/// chroma is halved in both directions, and three where it is not.
pub proof fn law_picture_takes_its_samples(
    coded_width: u32,
    coded_height: u32,
    bit_depth: BitDepth,
    bytes: int,
)
    requires
        coded_width % 2 == 0 && coded_height % 2 == 0,
        bit_depth is Eight ==> bytes == 1,
        bit_depth is Ten ==> bytes == 2,
    ensures
        2 * image_bytes(coded_width, coded_height, bit_depth, PixelFormat::Yuv420) == 3 * (
        coded_width * coded_height * bytes),
        image_bytes(coded_width, coded_height, bit_depth, PixelFormat::Yuv444) == 3 * (coded_width
            * coded_height * bytes),
{
    let w = coded_width as int / 2;
    let h = coded_height as int / 2;
    assert(2 * (coded_width * bytes * coded_height + (w * 2 * bytes) * h) == 3 * (coded_width
        * coded_height * bytes)) by (nonlinear_arith)
        requires
            coded_width == 2 * w,
            coded_height == 2 * h,
    ;
    let wide = coded_width as int;
    let high = coded_height as int;
    assert(wide / 1 == wide && high / 1 == high);
    assert(wide * bytes * high + (wide * 2 * bytes) * high == 3 * (wide * high * bytes))
        by (nonlinear_arith);
    assert(image_bytes(coded_width, coded_height, bit_depth, PixelFormat::Yuv444) == wide * bytes
        * high + (wide * 2 * bytes) * high);
}

/// A picture of up to 16383 pixels in either direction can be laid out.
pub proof fn law_ordinary_layouts_fit(
    coded_width: u32,
    coded_height: u32,
    width: u32,
    bit_depth: BitDepth,
    pixel_format: PixelFormat,
)
    requires
        coded_width <= 0x3fff && coded_height <= 0x3fff,
        width <= coded_width,
    ensures
        layout_fits(coded_width, coded_height, width, bit_depth, pixel_format),
{
    let bytes = sample_bytes(bit_depth);
    let div = chroma_divisor(pixel_format);
    let w = coded_width as int / div;
    let h = coded_height as int / div;
    lemma_half_row(coded_width as int, div, bytes);
    assert(0 <= h <= coded_height);
    assert(coded_width * bytes * coded_height <= 0x3fff * 2 * 0x3fff && (w * 2 * bytes) * h
        <= 0x3fff * 4 * 0x3fff) by (nonlinear_arith)
        requires
            0 <= coded_width <= 0x3fff,
            0 <= coded_height <= 0x3fff,
            0 <= w <= coded_width,
            0 <= h <= coded_height,
            1 <= bytes <= 2,
    ;
}

} // verus!
