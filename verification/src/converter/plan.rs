//! What one conversion asks of the device.

use crate::converter::color::{ColorRange, ColorSpec};
use crate::converter::config::{ColorConverter, ColorConverterConfig};
use crate::converter::format::{InputFormat, OutputFormat};
use crate::error::{Lacking, PixelForgeError};
use crate::video::{align4, aligned};
use vstd::prelude::*;

verus! {

/// A copy of one plane from the output buffer to the target image.
#[derive(Clone, Copy, Debug, PartialEq, Eq, Structural)]
pub struct CopyRegion {
    /// Byte offset of the plane in the buffer. Its rows follow each other without
    /// padding.
    pub buffer_offset: u64,
    /// Index of the plane in the image.
    pub plane: u32,
    /// Texels of the plane.
    pub width: u32,
    pub height: u32,
}

impl OutputFormat {
    /// Byte offset of the first chroma plane.
    pub open spec fn chroma_offset(self, pixels: int) -> int {
        match self {
            OutputFormat::NV12 | OutputFormat::I420 => pixels,
            OutputFormat::YUV444 => aligned(pixels, 4),
            OutputFormat::P010 => pixels * 2,
            OutputFormat::YUV444P10 => aligned(pixels * 2, 4),
        }
    }

    /// Bytes of one texel of a plane. The chroma samples are interleaved, but for
    /// I420, which has a plane for each.
    pub open spec fn texel_bytes(self, plane: u32) -> int {
        if plane == 0 || self is I420 {
            self.sample_bytes()
        } else {
            2 * self.sample_bytes()
        }
    }

    /// Texels of a chroma plane: one for each pixel, or for each square of four.
    pub open spec fn chroma_extent(self, width: u32, height: u32) -> (u32, u32) {
        match self {
            OutputFormat::YUV444 | OutputFormat::YUV444P10 => (width, height),
            _ => (width / 2, height / 2),
        }
    }

    /// The copies of the planes of a picture of the given size.
    pub open spec fn regions(self, width: u32, height: u32) -> Seq<CopyRegion> {
        let pixels = width * height;
        let (chroma_width, chroma_height) = self.chroma_extent(width, height);
        let luma = CopyRegion { buffer_offset: 0, plane: 0, width, height };
        let chroma = CopyRegion {
            buffer_offset: self.chroma_offset(pixels) as u64,
            plane: 1,
            width: chroma_width,
            height: chroma_height,
        };
        if self is I420 {
            seq![
                luma,
                chroma,
                CopyRegion {
                    buffer_offset: (pixels + pixels / 4) as u64,
                    plane: 2,
                    width: chroma_width,
                    height: chroma_height,
                },
            ]
        } else {
            seq![luma, chroma]
        }
    }
}

/// The first byte behind a region.
pub open spec fn region_end(format: OutputFormat, region: CopyRegion) -> int {
    region.buffer_offset + region.width * region.height * format.texel_bytes(region.plane)
}

proof fn lemma_halves(width: u32, height: u32)
    ensures
        0 <= (width / 2) * (height / 2),
        4 * ((width / 2) * (height / 2)) <= width * height,
{
    assert(0 <= (width / 2) * (height / 2) && 4 * ((width / 2) * (height / 2)) <= width * height)
        by (nonlinear_arith)
        requires
            0 <= 2 * (width / 2) <= width,
            0 <= 2 * (height / 2) <= height,
    ;
}

/// The copies stay inside the output buffer, and each begins where the plane
/// before it has ended: no byte of the buffer belongs to two planes.
pub proof fn law_regions_fit(format: OutputFormat, width: u32, height: u32)
    requires
        format.addressable(width as int, height as int),
    ensures
        ({
            let regions = format.regions(width, height);
            &&& forall|i: int|
                0 <= i < regions.len() ==> region_end(format, #[trigger] regions[i])
                    <= format.size(width as int, height as int)
            &&& forall|i: int, j: int|
                0 <= i < j < regions.len() ==> region_end(format, #[trigger] regions[i]) <= (
                #[trigger] regions[j]).buffer_offset
        }),
{
    let pixels = width * height;
    assert(0 <= pixels) by (nonlinear_arith)
        requires
            0 <= width,
            0 <= height,
            pixels == width * height,
    ;
    lemma_halves(width, height);
    let (chroma_width, chroma_height) = format.chroma_extent(width, height);
    let area = chroma_width * chroma_height;
    let regions = format.regions(width, height);
    let bytes = format.sample_bytes();
    assert(region_end(format, regions[0]) == pixels * bytes);
    if format is I420 {
        assert(area * 1 == area);
        assert(region_end(format, regions[1]) == pixels + area);
        assert(region_end(format, regions[2]) == pixels + pixels / 4 + area);
    } else if format.ten_bit() {
        assert(area * 4 == 4 * area);
        assert(region_end(format, regions[1]) == format.chroma_offset(pixels) + 4 * area);
    } else {
        assert(area * 2 == 2 * area);
        assert(region_end(format, regions[1]) == format.chroma_offset(pixels) + 2 * area);
    }
}

/// Where the chroma samples have the resolution of the luma samples, each plane
/// begins at a multiple of four bytes, as a copy from a buffer demands.
pub proof fn law_full_chroma_is_aligned(format: OutputFormat, width: u32, height: u32, i: int)
    requires
        format is YUV444 || format is YUV444P10,
        format.addressable(width as int, height as int),
        0 <= i < format.regions(width, height).len(),
    ensures
        format.regions(width, height)[i].buffer_offset % 4 == 0,
{
    assert(0 <= width * height) by (nonlinear_arith)
        requires
            0 <= width,
            0 <= height,
    ;
}

/// The output buffer is no larger than it has to be: for pictures with even sides it
/// ends less than four bytes behind its last plane, and fewer than four bytes stand
/// between two planes.
pub proof fn law_buffer_is_as_large_as_its_planes(format: OutputFormat, width: u32, height: u32)
    requires
        format.addressable(width as int, height as int),
        width % 2 == 0 && height % 2 == 0,
    ensures
        ({
            let regions = format.regions(width, height);
            &&& regions.len() == if format is I420 {
                3nat
            } else {
                2nat
            }
            &&& format.size(width as int, height as int) < region_end(format, regions.last()) + 4
            &&& regions[0].buffer_offset == 0
            &&& regions[0].width == width && regions[0].height == height
            &&& forall|i: int|
                0 <= i < regions.len() - 1 ==> (#[trigger] regions[i + 1]).buffer_offset
                    < region_end(format, regions[i]) + 4
            &&& forall|i: int|
                0 <= i < regions.len() ==> (#[trigger] regions[i]).plane == i
        }),
{
    let pixels = width * height;
    let w = width as int / 2;
    let h = height as int / 2;
    assert(0 <= pixels) by (nonlinear_arith)
        requires
            0 <= width,
            0 <= height,
            pixels == width * height,
    ;
    assert(pixels == 4 * (w * h)) by (nonlinear_arith)
        requires
            pixels == width * height,
            width == 2 * w,
            height == 2 * h,
    ;
    let (chroma_width, chroma_height) = format.chroma_extent(width, height);
    let area = chroma_width * chroma_height;
    let regions = format.regions(width, height);
    let bytes = format.sample_bytes();
    assert(region_end(format, regions[0]) == pixels * bytes);
    if format is I420 {
        assert(area * 1 == area);
        assert(region_end(format, regions[1]) == pixels + area);
        assert(region_end(format, regions[2]) == pixels + pixels / 4 + area);
    } else if format.ten_bit() {
        assert(area * 4 == 4 * area);
        assert(region_end(format, regions[1]) == format.chroma_offset(pixels) + 4 * area);
    } else {
        assert(area * 2 == 2 * area);
        assert(region_end(format, regions[1]) == format.chroma_offset(pixels) + 2 * area);
    }
    assert forall|i: int| 0 <= i < regions.len() - 1 implies (
    #[trigger] regions[i + 1]).buffer_offset < region_end(format, regions[i]) + 4 by {
        assert(i == 0 || i == 1);
    }
}

/// Chroma planes have a sample for each pixel, or for each square of four, as the
/// name of their format says, and ten bits take twice the room of eight.
pub proof fn law_planes_have_their_extent(format: OutputFormat, width: u32, height: u32, i: int)
    requires
        0 < i < format.regions(width, height).len(),
    ensures
        format is YUV444 || format is YUV444P10 ==> format.regions(width, height)[i].width == width
            && format.regions(width, height)[i].height == height,
        format is NV12 || format is I420 || format is P010 ==> format.regions(
            width,
            height,
        )[i].width == width / 2 && format.regions(width, height)[i].height == height / 2,
        format is P010 || format is YUV444P10 ==> format.texel_bytes(0) == 2 && format.texel_bytes(
            1,
        ) == 4,
        format is NV12 || format is YUV444 ==> format.texel_bytes(0) == 1 && format.texel_bytes(1)
            == 2,
        format is I420 ==> format.texel_bytes(0) == 1 && format.texel_bytes(1) == 1
            && format.texel_bytes(2) == 1,
{
    assert(i == 1 || i == 2);
}

/// An image that comes from outside is taken over by the family that converts it,
/// and any other is only waited for.
pub proof fn law_only_outside_images_change_hands(src_layout: i32, compute_family: u32)
    ensures
        ({
            let barrier = barrier_of(src_layout, compute_family);
            &&& src_layout == LAYOUT_UNDEFINED ==> barrier.src_queue_family
                == QUEUE_FAMILY_EXTERNAL && barrier.dst_queue_family == compute_family
                && barrier.src_access == 0
            &&& src_layout != LAYOUT_UNDEFINED ==> barrier.src_queue_family
                == barrier.dst_queue_family && barrier.src_queue_family == QUEUE_FAMILY_IGNORED
                && barrier.src_access == ACCESS_MEMORY
        }),
{
}

/// Side of the square of pixels that one workgroup of the shader converts.
pub const WORKGROUP_SIDE: u32 = 8;

/// The workgroups that cover `length` pixels.
pub open spec fn groups_for(length: u32) -> int {
    (length + 7) / 8
}

/// Every pixel is in a workgroup, and every workgroup has a pixel.
pub proof fn law_workgroups_cover(length: u32)
    ensures
        length <= groups_for(length) * WORKGROUP_SIDE,
        length > 0 ==> (groups_for(length) - 1) * WORKGROUP_SIDE < length,
        length == 0 ==> groups_for(length) == 0,
{
}

/// The number of workgroups that cover `length` pixels.
fn workgroups(length: u32) -> (groups: u32)
    ensures
        groups == groups_for(length),
{
    let whole: u32 = length / WORKGROUP_SIDE;
    if length % WORKGROUP_SIDE == 0 {
        whole
    } else {
        whole + 1
    }
}

/// `VK_IMAGE_LAYOUT_UNDEFINED`.
pub const LAYOUT_UNDEFINED: i32 = 0;

/// `VK_QUEUE_FAMILY_IGNORED`.
pub const QUEUE_FAMILY_IGNORED: u32 = 0xFFFF_FFFF;

/// `VK_QUEUE_FAMILY_EXTERNAL`.
pub const QUEUE_FAMILY_EXTERNAL: u32 = 0xFFFF_FFFE;

/// `VK_ACCESS_MEMORY_READ_BIT` and `VK_ACCESS_MEMORY_WRITE_BIT`.
pub const ACCESS_MEMORY: u32 = 0x18000;

/// How the source image comes to the shader.
#[derive(Clone, Copy, Debug, PartialEq, Eq, Structural)]
pub struct SourceBarrier {
    /// The queue families that ownership moves from and to.
    pub src_queue_family: u32,
    pub dst_queue_family: u32,
    /// The accesses that have to be over before the shader reads.
    pub src_access: u32,
}

/// How a source image in the given layout comes to the shader.
pub open spec fn barrier_of(src_layout: i32, compute_family: u32) -> SourceBarrier {
    if src_layout == LAYOUT_UNDEFINED {
        SourceBarrier {
            src_queue_family: QUEUE_FAMILY_EXTERNAL,
            dst_queue_family: compute_family,
            src_access: 0,
        }
    } else {
        SourceBarrier {
            src_queue_family: QUEUE_FAMILY_IGNORED,
            dst_queue_family: QUEUE_FAMILY_IGNORED,
            src_access: ACCESS_MEMORY,
        }
    }
}

/// Everything that one conversion asks of the device.
#[derive(Debug)]
pub struct ConvertPlan {
    pub source_barrier: SourceBarrier,
    /// Bytes of the output buffer to clear before the shader runs.
    pub output_size: usize,
    /// Width, height, input format, output format, source, target, range,
    /// reference white.
    pub push_constants: [u32; 8],
    pub workgroups_x: u32,
    pub workgroups_y: u32,
    /// Copies from the output buffer to the target image.
    pub copy_regions: Vec<CopyRegion>,
}

/// What the shader is told about a conversion.
pub open spec fn constants_of(config: ColorConverterConfig) -> Seq<u32> {
    seq![
        config.width,
        config.height,
        config.input_format.number(),
        config.output_format.number(),
        config.source.number(),
        config.target.number(),
        if config.range is Full {
            1
        } else {
            0
        },
        config.white().0,
    ]
}

/// What the shader is told and what the stream is described as agree: the range
/// constant is one exactly where the description says full range, and zero exactly
/// where it says limited range.
pub proof fn law_range_constant_matches_description(config: ColorConverterConfig)
    requires
        config.supported(),
    ensures
        config.description() is Some,
        constants_of(config).len() == 8,
        constants_of(config)[6] == 1 <==> (config.description()->0).full_range,
        constants_of(config)[6] == 0 <==> !(config.description()->0).full_range,
{
}

/// The shader is told everything that it needs: where two conversions get the same
/// constants, they agree in size, formats, colours and range, and in how bright
/// white is.
pub proof fn law_constants_tell_conversions_apart(
    first: ColorConverterConfig,
    second: ColorConverterConfig,
)
    requires
        constants_of(first) == constants_of(second),
    ensures
        first.width == second.width && first.height == second.height,
        first.input_format == second.input_format,
        first.output_format == second.output_format,
        first.source == second.source && first.target == second.target,
        first.range == second.range,
        first.white() == second.white(),
{
    let a = constants_of(first);
    let b = constants_of(second);
    assert(a[0] == b[0] && a[1] == b[1] && a[2] == b[2] && a[3] == b[3] && a[4] == b[4] && a[5]
        == b[5] && a[6] == b[6] && a[7] == b[7]);
}

/// A change of the range, the target or the source of a converter changes the
/// constant for it and no other, but for the brightness of white, which follows the
/// source where it was not overridden.
pub proof fn law_changes_reach_their_constants(
    config: ColorConverterConfig,
    range: ColorRange,
    source: ColorSpec,
    target: ColorSpec,
    i: int,
)
    requires
        0 <= i < 8,
    ensures
        i != 6 ==> constants_of(ColorConverterConfig { range, ..config })[i] == constants_of(
            config,
        )[i],
        i != 5 ==> constants_of(ColorConverterConfig { target, ..config })[i] == constants_of(
            config,
        )[i],
        i != 4 && i != 7 ==> constants_of(ColorConverterConfig { source, ..config })[i]
            == constants_of(config)[i],
        config.reference_white_nits is Some ==> constants_of(
            ColorConverterConfig { source, ..config },
        )[7] == constants_of(config)[7],
        config.reference_white_nits matches Some(nits) ==> nits.0 == constants_of(config)[7],
        config.reference_white_nits is None ==> (source.white() matches Some(nits) ==> nits.0
            == constants_of(ColorConverterConfig { source, ..config })[7]),
{
}

/// The shader writes the size that is copied: the first two constants are the width
/// and the height of the first plane.
pub proof fn law_constants_count_the_luma_plane(config: ColorConverterConfig)
    ensures
        constants_of(config)[0] == config.output_format.regions(
            config.width,
            config.height,
        )[0].width,
        constants_of(config)[1] == config.output_format.regions(
            config.width,
            config.height,
        )[0].height,
{
}

impl ColorConverter {
    /// Build buffer-to-image copy regions for multi-planar YUV formats.
    ///
    /// For multi-planar formats like NV12, I420, and YUV444, we need separate
    /// copy regions for each plane.
    pub fn build_buffer_to_image_copy_regions(&self) -> (regions: Vec<CopyRegion>)
        requires
            self@.output_format.addressable(self@.width as int, self@.height as int),
        ensures
            regions@ == self@.output_format.regions(self@.width, self@.height),
    {
        let config = self.config();
        let width: u32 = config.width;
        let height: u32 = config.height;
        assert(0 <= width * height) by (nonlinear_arith)
            requires
                0 <= width,
                0 <= height,
        ;
        let ghost pixels = width * height;
        let luma = CopyRegion { buffer_offset: 0, plane: 0, width, height };
        let regions: Vec<CopyRegion> = match config.output_format {
            OutputFormat::NV12 => {
                // NV12: Y plane followed by interleaved UV plane, half resolution.
                let y_size: u64 = (width * height) as u64;
                vec![
                    luma,
                    CopyRegion {
                        buffer_offset: y_size,
                        plane: 1,
                        width: width / 2,
                        height: height / 2,
                    },
                ]
            },
            OutputFormat::I420 => {
                // I420: Y plane, U plane, V plane (all separate).
                let y_size: u64 = (width * height) as u64;
                let uv_size: u64 = y_size / 4;
                vec![
                    luma,
                    CopyRegion {
                        buffer_offset: y_size,
                        plane: 1,
                        width: width / 2,
                        height: height / 2,
                    },
                    CopyRegion {
                        buffer_offset: y_size + uv_size,
                        plane: 2,
                        width: width / 2,
                        height: height / 2,
                    },
                ]
            },
            OutputFormat::YUV444 => {
                // Align Y plane size to 4 bytes for VkBufferImageCopy::bufferOffset compliance.
                let y_size: u64 = align4((width * height) as usize) as u64;
                vec![luma, CopyRegion { buffer_offset: y_size, plane: 1, width, height }]
            },
            OutputFormat::P010 => {
                // Y plane: full resolution, 2 bytes per sample.
                // UV plane: half resolution, interleaved, 2 bytes per component.
                let y_size: u64 = (width * height) as u64 * 2;
                vec![
                    luma,
                    CopyRegion {
                        buffer_offset: y_size,
                        plane: 1,
                        width: width / 2,
                        height: height / 2,
                    },
                ]
            },
            OutputFormat::YUV444P10 => {
                // Align Y plane size to 4 bytes for VkBufferImageCopy::bufferOffset compliance.
                let y_size: u64 = align4((width * height) as usize * 2) as u64;
                vec![luma, CopyRegion { buffer_offset: y_size, plane: 1, width, height }]
            },
        };
        assert(regions@ =~= self@.output_format.regions(self@.width, self@.height));
        regions
    }

    /// Plan the conversion of a source image, which is in the given layout.
    ///
    /// For external memory (DMA-BUF) imports with EXCLUSIVE sharing, the first use
    /// must include a queue family acquire operation: an image in the undefined
    /// layout is taken over from outside. Any other is waited for.
    pub fn convert(&self, src_layout: i32, compute_family: u32) -> (plan: ConvertPlan)
        requires
            self@.output_format.addressable(self@.width as int, self@.height as int),
        ensures
            plan.source_barrier == barrier_of(src_layout, compute_family),
            plan.output_size == self@.output_format.size(self@.width as int, self@.height as int),
            plan.push_constants@ == constants_of(self@),
            plan.workgroups_x == groups_for(self@.width),
            plan.workgroups_y == groups_for(self@.height),
            plan.copy_regions@ == self@.output_format.regions(self@.width, self@.height),
    {
        let config = self.config();
        proof {
            let pixels = config.width * config.height;
            assert(pixels <= pixels * config.output_format.sample_bytes()) by (nonlinear_arith)
                requires
                    pixels == config.width * config.height,
                    0 <= config.width,
                    0 <= config.height,
                    config.output_format.sample_bytes() >= 1,
            ;
        }
        let source_barrier = if src_layout == LAYOUT_UNDEFINED {
            SourceBarrier {
                src_queue_family: QUEUE_FAMILY_EXTERNAL,
                dst_queue_family: compute_family,
                src_access: 0,
            }
        } else {
            SourceBarrier {
                src_queue_family: QUEUE_FAMILY_IGNORED,
                dst_queue_family: QUEUE_FAMILY_IGNORED,
                src_access: ACCESS_MEMORY,
            }
        };
        let range: u32 = if config.range.is_full() {
            1
        } else {
            0
        };
        let push_constants: [u32; 8] = [
            config.width,
            config.height,
            config.input_format.code(),
            config.output_format.code(),
            config.source.code(),
            config.target.code(),
            range,
            config.effective_reference_white_nits().0,
        ];
        assert(push_constants@ =~= constants_of(self@));
        ConvertPlan {
            source_barrier,
            output_size: config.output_format.output_size(config.width, config.height),
            push_constants,
            workgroups_x: workgroups(config.width),
            workgroups_y: workgroups(config.height),
            copy_regions: self.build_buffer_to_image_copy_regions(),
        }
    }
}

/// The view of the last source image, kept so that it is not made anew for every
/// frame. Images and views go by their handles.
#[derive(Clone, Copy, Debug, PartialEq, Eq, Structural)]
pub struct CachedView {
    pub image: u64,
    pub view: u64,
}

/// What to do for the view of a source image.
#[derive(Clone, Copy, Debug, PartialEq, Eq, Structural)]
pub enum ViewStep {
    /// Use this view.
    Use(u64),
    /// Destroy the old view, if any, and create one for the image.
    Create { stale: Option<u64> },
}

/// What to do for the view of a source image, and what stays in the cache.
pub open spec fn view_step(cached: Option<CachedView>, image: u64) -> (
    ViewStep,
    Option<CachedView>,
) {
    if cached is Some && (cached->0).image == image {
        (ViewStep::Use((cached->0).view), cached)
    } else {
        (
            ViewStep::Create {
                stale: match cached {
                    Some(entry) => Some(entry.view),
                    None => None,
                },
            },
            None,
        )
    }
}

/// A view is made once for as long as its image is converted: it is used again for
/// that image and for no other. Where another takes its place it is destroyed, and
/// no longer used.
pub proof fn law_views_are_made_once(entry: CachedView, image: u64)
    ensures
        view_step(Some(entry), entry.image) == (ViewStep::Use(entry.view), Some(entry)),
        image != entry.image ==> view_step(Some(entry), image) == (
            ViewStep::Create { stale: Some(entry.view) },
            None::<CachedView>,
        ),
        view_step(None, image) == (ViewStep::Create { stale: None }, None::<CachedView>),
{
}

/// Look for the view of a source image. A view of another image leaves the cache,
/// since it is to be destroyed.
pub fn source_view(cached: &mut Option<CachedView>, image: u64) -> (step: ViewStep)
    ensures
        match *old(cached) {
            Some(entry) => if entry.image == image {
                step == ViewStep::Use(entry.view) && *final(cached) == *old(cached)
            } else {
                step == (ViewStep::Create { stale: Some(entry.view) }) && *final(cached) is None
            },
            None => step == (ViewStep::Create { stale: None }) && *final(cached) is None,
        },
        (step, *final(cached)) == view_step(*old(cached), image),
{
    match *cached {
        Some(entry) => {
            if entry.image == image {
                return ViewStep::Use(entry.view);
            }
            // Different image: the old view goes.
            *cached = None;
            ViewStep::Create { stale: Some(entry.view) }
        },
        None => ViewStep::Create { stale: None },
    }
}

/// Whether a converter can be made on a device: its descriptors are pushed into
/// the command buffer.
pub fn check_device(has_push_descriptor: bool) -> (result: Result<(), PixelForgeError>)
    ensures
        match result {
            Ok(()) => has_push_descriptor,
            Err(error) => !has_push_descriptor && error == PixelForgeError::NoSuitableDevice(
                Lacking::PushDescriptor,
            ),
        },
{
    if !has_push_descriptor {
        return Err(PixelForgeError::NoSuitableDevice(Lacking::PushDescriptor));
    }
    Ok(())
}

/// The word that four bytes make, the lowest byte first.
pub open spec fn word_of(bytes: Seq<u8>, at: int) -> int {
    bytes[at] + bytes[at + 1] * 0x100 + bytes[at + 2] * 0x1_0000 + bytes[at + 3] * 0x100_0000
}

/// The words of a SPIR-V module, from its bytes. Bytes that make no whole word at
/// the end are left out.
///
/// The color conversion shader expects:
/// - Push constants: width, height, input_format, output_format, source, target,
///   range, reference_white_nits (8 x u32)
/// - Binding 0: Input image (sampler2D)
/// - Binding 1: Output buffer (YUV data)
///
/// Workgroup size: 8x8x1.
pub fn get_spirv_code(bytes: &[u8]) -> (words: Vec<u32>)
    ensures
        words@.len() == bytes@.len() / 4,
        forall|i: int| 0 <= i < words@.len() ==> #[trigger] words@[i] == word_of(bytes@, 4 * i),
{
    let mut words: Vec<u32> = Vec::new();
    let mut at: usize = 0;
    while bytes.len() - at >= 4
        invariant
            at <= bytes@.len(),
            at == 4 * words@.len(),
            forall|i: int|
                0 <= i < words@.len() ==> #[trigger] words@[i] == word_of(bytes@, 4 * i),
        decreases bytes@.len() - at,
    {
        let word: u32 = bytes[at] as u32 + bytes[at + 1] as u32 * 0x100 + bytes[at + 2] as u32
            * 0x1_0000 + bytes[at + 3] as u32 * 0x100_0000;
        words.push(word);
        at = at + 4;
    }
    words
}

/// A word is made of four bytes, the first of them being its lowest.
pub proof fn law_words_start_with_their_lowest_byte(bytes: Seq<u8>, at: int)
    requires
        0 <= at && at + 4 <= bytes.len(),
    ensures
        word_of(bytes, at) % 0x100 == bytes[at],
        word_of(bytes, at) / 0x100 % 0x100 == bytes[at + 1],
        word_of(bytes, at) / 0x1_0000 % 0x100 == bytes[at + 2],
        word_of(bytes, at) / 0x100_0000 == bytes[at + 3],
        0 <= word_of(bytes, at) <= u32::MAX,
{
}

/// The shader knows formats and colour spaces by numbers of its own, each counted
/// from zero in the order in which they are declared.
pub proof fn law_shader_numbers(config: ColorConverterConfig)
    ensures
        constants_of(config)[2] == match config.input_format {
            InputFormat::BGRx => 0u32,
            InputFormat::RGBx => 1u32,
            InputFormat::BGRA => 2u32,
            InputFormat::RGBA => 3u32,
            InputFormat::ABGR2101010 => 4u32,
            InputFormat::RGBA16F => 5u32,
        },
        constants_of(config)[3] == match config.output_format {
            OutputFormat::NV12 => 0u32,
            OutputFormat::I420 => 1u32,
            OutputFormat::YUV444 => 2u32,
            OutputFormat::P010 => 3u32,
            OutputFormat::YUV444P10 => 4u32,
        },
        constants_of(config)[4] == match config.source {
            ColorSpec::Srgb => 0u32,
            ColorSpec::Bt709Linear => 1u32,
            ColorSpec::Bt2020Linear => 2u32,
            ColorSpec::Bt2020Pq => 3u32,
        },
        constants_of(config)[5] == match config.target {
            ColorSpec::Srgb => 0u32,
            ColorSpec::Bt709Linear => 1u32,
            ColorSpec::Bt2020Linear => 2u32,
            ColorSpec::Bt2020Pq => 3u32,
        },
{
}

/// A picture of up to 16383 pixels in either direction can be converted.
pub proof fn law_ordinary_pictures_are_addressable(format: OutputFormat, width: u32, height: u32)
    requires
        width <= 0x3fff && height <= 0x3fff,
    ensures
        format.addressable(width as int, height as int),
{
    let pixels = width * height;
    assert(0 <= pixels <= 0x3fff * 0x3fff) by (nonlinear_arith)
        requires
            0 <= width <= 0x3fff,
            0 <= height <= 0x3fff,
            pixels == width * height,
    ;
}

} // verus!
