//! Pixel formats at either end of a conversion.

use crate::video::{
    align4, aligned, FORMAT_2PLANE_420_10BIT, FORMAT_2PLANE_420_8BIT, FORMAT_2PLANE_444_10BIT,
    FORMAT_2PLANE_444_8BIT, FORMAT_3PLANE_420_8BIT,
};
use vstd::prelude::*;

verus! {

/// `VK_FORMAT_R8G8B8A8_UNORM`.
pub const FORMAT_R8G8B8A8_UNORM: i32 = 37;

/// `VK_FORMAT_B8G8R8A8_UNORM`.
pub const FORMAT_B8G8R8A8_UNORM: i32 = 44;

/// `VK_FORMAT_A2B10G10R10_UNORM_PACK32`.
pub const FORMAT_A2B10G10R10_UNORM: i32 = 64;

/// `VK_FORMAT_R16G16B16A16_SFLOAT`.
pub const FORMAT_R16G16B16A16_SFLOAT: i32 = 97;

/// Supported input pixel formats for color conversion.
#[derive(Debug, Clone, Copy, PartialEq, Eq, Structural)]
#[allow(clippy::upper_case_acronyms)]
pub enum InputFormat {
    /// BGRx (32-bit, blue first, x = unused).
    BGRx,
    /// RGBx (32-bit, red first, x = unused).
    RGBx,
    /// BGRA (32-bit, blue first, alpha last).
    BGRA,
    /// RGBA (32-bit, red first, alpha last).
    RGBA,
    /// ABGR2101010 (packed 10-bit per channel, 2-bit alpha).
    /// Maps to DRM_FORMAT_ABGR2101010 / VK_FORMAT_A2B10G10R10_UNORM_PACK32.
    ABGR2101010,
    /// RGBA16F (64-bit, 16-bit float per channel).
    /// Maps to DRM_FORMAT_ABGR16161616F / VK_FORMAT_R16G16B16A16_SFLOAT.
    ///
    /// The converter treats FP16 data the same as other formats: the
    /// [`ColorSpec`](crate::converter::ColorSpec) says what the samples mean, not
    /// the pixel format. `Bt709Linear` is the natural pairing for FP16 from an
    /// `EXTENDED_SRGB_LINEAR_EXT` swapchain; FP16 that is already PQ-encoded
    /// (via the gamescope WSI layer, say) is `Bt2020Pq`.
    RGBA16F,
}

impl InputFormat {
    /// The shader's number for this format.
    pub open spec fn number(self) -> u32 {
        match self {
            InputFormat::BGRx => 0,
            InputFormat::RGBx => 1,
            InputFormat::BGRA => 2,
            InputFormat::RGBA => 3,
            InputFormat::ABGR2101010 => 4,
            InputFormat::RGBA16F => 5,
        }
    }

    /// Bytes per pixel for this format.
    pub fn bytes_per_pixel(&self) -> (bytes: usize)
        ensures
            bytes == if self is RGBA16F {
                8int
            } else {
                4int
            },
    {
        match *self {
            InputFormat::BGRx
            | InputFormat::RGBx
            | InputFormat::BGRA
            | InputFormat::RGBA
            | InputFormat::ABGR2101010 => 4,
            InputFormat::RGBA16F => 8,
        }
    }

    /// Vulkan format for creating image views of this input format.
    pub fn vk_format(&self) -> (format: i32)
        ensures
            format == match *self {
                InputFormat::BGRx | InputFormat::BGRA => FORMAT_B8G8R8A8_UNORM,
                InputFormat::RGBx | InputFormat::RGBA => FORMAT_R8G8B8A8_UNORM,
                InputFormat::ABGR2101010 => FORMAT_A2B10G10R10_UNORM,
                InputFormat::RGBA16F => FORMAT_R16G16B16A16_SFLOAT,
            },
    {
        match *self {
            InputFormat::BGRx | InputFormat::BGRA => FORMAT_B8G8R8A8_UNORM,
            InputFormat::RGBx | InputFormat::RGBA => FORMAT_R8G8B8A8_UNORM,
            InputFormat::ABGR2101010 => FORMAT_A2B10G10R10_UNORM,
            InputFormat::RGBA16F => FORMAT_R16G16B16A16_SFLOAT,
        }
    }

    /// The shader's number for this format.
    pub fn code(&self) -> (code: u32)
        ensures
            code == self.number(),
    {
        match *self {
            InputFormat::BGRx => 0,
            InputFormat::RGBx => 1,
            InputFormat::BGRA => 2,
            InputFormat::RGBA => 3,
            InputFormat::ABGR2101010 => 4,
            InputFormat::RGBA16F => 5,
        }
    }
}

/// Supported output YUV formats.
#[derive(Debug, Clone, Copy, PartialEq, Eq, Structural)]
pub enum OutputFormat {
    /// NV12: Y plane followed by interleaved UV (4:2:0), 8-bit.
    NV12,
    /// I420: Y plane, U plane, V plane (4:2:0), 8-bit.
    I420,
    /// YUV444 8-bit: 2-plane semi-planar (Y plane + interleaved UV) at full resolution.
    YUV444,
    /// P010: Y plane followed by interleaved UV (4:2:0), 10-bit in 16-bit words.
    P010,
    /// YUV444 10-bit: 2-plane semi-planar (Y plane + interleaved UV) in 16-bit words.
    YUV444P10,
}

impl OutputFormat {
    /// The shader's number for this format.
    pub open spec fn number(self) -> u32 {
        match self {
            OutputFormat::NV12 => 0,
            OutputFormat::I420 => 1,
            OutputFormat::YUV444 => 2,
            OutputFormat::P010 => 3,
            OutputFormat::YUV444P10 => 4,
        }
    }

    /// Whether samples have ten bits.
    pub open spec fn ten_bit(self) -> bool {
        self is P010 || self is YUV444P10
    }

    /// Bytes per sample.
    pub open spec fn sample_bytes(self) -> int {
        if self.ten_bit() {
            2
        } else {
            1
        }
    }

    /// Bytes of a picture of the given number of pixels: the luma plane, and the
    /// chroma samples behind it. At full chroma resolution the luma plane is
    /// padded to four bytes.
    pub open spec fn picture_bytes(self, pixels: int) -> int {
        match self {
            OutputFormat::NV12 | OutputFormat::I420 => pixels * 3 / 2,
            OutputFormat::YUV444 => aligned(pixels, 4) + pixels * 2,
            OutputFormat::P010 => pixels * 3,
            OutputFormat::YUV444P10 => aligned(pixels * 2, 4) + pixels * 4,
        }
    }

    /// Bytes of the output buffer for a picture of the given size.
    pub open spec fn size(self, width: int, height: int) -> int {
        aligned(self.picture_bytes(width * height), 4)
    }

    /// Whether a picture of the given size can be addressed: its pixel count, and
    /// its bytes.
    pub open spec fn addressable(self, width: int, height: int) -> bool {
        width * height * self.sample_bytes() <= u32::MAX && self.size(width, height) <= usize::MAX
    }

    /// Whether a picture of the given size can be addressed.
    pub fn size_fits(&self, width: u32, height: u32) -> (fits: bool)
        ensures
            fits == self.addressable(width as int, height as int),
    {
        assert(0 <= width * height <= u32::MAX * u32::MAX) by (nonlinear_arith)
            requires
                0 <= width <= u32::MAX,
                0 <= height <= u32::MAX,
        ;
        let pixels: u128 = width as u128 * height as u128;
        let luma: u128 = if self.is_10bit() {
            pixels * 2
        } else {
            pixels
        };
        let bytes: u128 = match *self {
            OutputFormat::NV12 | OutputFormat::I420 => pixels * 3 / 2,
            OutputFormat::YUV444 => (pixels + 3) / 4 * 4 + pixels * 2,
            OutputFormat::P010 => pixels * 3,
            OutputFormat::YUV444P10 => (pixels * 2 + 3) / 4 * 4 + pixels * 4,
        };
        luma <= u32::MAX as u128 && (bytes + 3) / 4 * 4 <= usize::MAX as u128
    }

    /// Calculate output size in bytes for given dimensions.
    ///
    /// The returned size is always a multiple of 4, since the compute shader writes
    /// to a `uint[]` buffer and `vkCmdFillBuffer` requires 4-byte aligned sizes.
    pub fn output_size(&self, width: u32, height: u32) -> (size: usize)
        requires
            width * height <= u32::MAX,
            self.size(width as int, height as int) <= usize::MAX,
        ensures
            size == self.size(width as int, height as int),
            size % 4 == 0,
    {
        assert(0 <= width * height) by (nonlinear_arith)
            requires
                0 <= width,
                0 <= height,
        ;
        let pixel_count: usize = (width * height) as usize;
        // A picture of at most 2^32 pixels has at most 3 * 2^33 bytes.
        let raw: u64 = match *self {
            OutputFormat::NV12 | OutputFormat::I420 => pixel_count as u64 * 3 / 2,
            OutputFormat::YUV444 => {
                // Y plane (aligned to 4 bytes) + UV interleaved plane.
                align4(pixel_count) as u64 + pixel_count as u64 * 2
            },
            // 10-bit formats use 2 bytes per sample.
            OutputFormat::P010 => pixel_count as u64 * 3,
            OutputFormat::YUV444P10 => {
                // Y plane (2 bytes/sample, aligned to 4 bytes) + UV interleaved (4 bytes/pixel).
                align4(pixel_count * 2) as u64 + pixel_count as u64 * 4
            },
        };
        align4(raw as usize)
    }

    /// Get the Vulkan format for this output format.
    pub fn vulkan_format(&self) -> (format: i32)
        ensures
            format == match *self {
                OutputFormat::NV12 => FORMAT_2PLANE_420_8BIT,
                OutputFormat::I420 => FORMAT_3PLANE_420_8BIT,
                OutputFormat::YUV444 => FORMAT_2PLANE_444_8BIT,
                OutputFormat::P010 => FORMAT_2PLANE_420_10BIT,
                OutputFormat::YUV444P10 => FORMAT_2PLANE_444_10BIT,
            },
    {
        match *self {
            OutputFormat::NV12 => FORMAT_2PLANE_420_8BIT,
            OutputFormat::I420 => FORMAT_3PLANE_420_8BIT,
            OutputFormat::YUV444 => FORMAT_2PLANE_444_8BIT,
            OutputFormat::P010 => FORMAT_2PLANE_420_10BIT,
            OutputFormat::YUV444P10 => FORMAT_2PLANE_444_10BIT,
        }
    }

    /// Returns true if this is a 10-bit format.
    pub fn is_10bit(&self) -> (ten_bit: bool)
        ensures
            ten_bit == self.ten_bit(),
    {
        match *self {
            OutputFormat::P010 | OutputFormat::YUV444P10 => true,
            OutputFormat::NV12 | OutputFormat::I420 | OutputFormat::YUV444 => false,
        }
    }

    /// Bytes per sample for this format.
    pub fn bytes_per_sample(&self) -> (bytes: usize)
        ensures
            bytes == self.sample_bytes(),
    {
        if self.is_10bit() {
            2
        } else {
            1
        }
    }

    /// The shader's number for this format.
    pub fn code(&self) -> (code: u32)
        ensures
            code == self.number(),
    {
        match *self {
            OutputFormat::NV12 => 0,
            OutputFormat::I420 => 1,
            OutputFormat::YUV444 => 2,
            OutputFormat::P010 => 3,
            OutputFormat::YUV444P10 => 4,
        }
    }
}

} // verus!
