//! What an H.264 stream asks of a decode session, in plain values.

use crate::decoder::frames::SlotPins;
use crate::decoder::h264::dpb::{
    ended, holds_slot, tidy, DecodeDpb, DpbView, PictureState, PictureView, RefPicture,
    MAX_DPB_SLOTS,
};
use crate::decoder::h264::parser::{Pps, Sps};
use crate::decoder::h264::syntax::SpsView;
use crate::error::{InvalidInput, PixelForgeError, Unsupported};
use crate::video::{align_up, aligned, law_aligned, BitDepth, PixelFormat};
use vstd::prelude::*;

verus! {

/// The number that Vulkan Video gives to a profile.
pub open spec fn profile_number(profile_idc: u8) -> Option<u32> {
    if profile_idc == 66 || profile_idc == 77 || profile_idc == 100 || profile_idc == 244 {
        Some(profile_idc as u32)
    } else {
        None
    }
}

/// Map `profile_idc` onto the StdVideo enum.
pub fn std_profile_idc(profile_idc: u8) -> (result: Result<u32, PixelForgeError>)
    ensures
        match profile_number(profile_idc) {
            Some(number) => result == Ok::<u32, PixelForgeError>(number),
            None => result == Err::<u32, PixelForgeError>(
                PixelForgeError::InvalidInput(InvalidInput::UnsupportedProfile(profile_idc)),
            ),
        },
{
    match profile_idc {
        66 => Ok(66),
        77 => Ok(77),
        100 => Ok(100),
        244 => Ok(244),
        other => Err(PixelForgeError::InvalidInput(InvalidInput::UnsupportedProfile(other))),
    }
}

/// Map `chroma_format_idc` onto the StdVideo enum.
pub fn std_chroma_format_idc(idc: u8) -> (result: Result<u32, PixelForgeError>)
    ensures
        idc <= 3 ==> result == Ok::<u32, PixelForgeError>(idc as u32),
        idc > 3 ==> result == Err::<u32, PixelForgeError>(
            PixelForgeError::InvalidInput(InvalidInput::ChromaFormat(idc)),
        ),
{
    match idc {
        0 => Ok(0),
        1 => Ok(1),
        2 => Ok(2),
        3 => Ok(3),
        other => Err(PixelForgeError::InvalidInput(InvalidInput::ChromaFormat(other))),
    }
}

/// The number that Vulkan Video gives to a level: the levels that have one are
/// counted up from 1.0, and any other counts as the last, 6.2.
pub open spec fn level_number(level_idc: u8) -> u32 {
    match level_idc {
        10 => 0,
        11 => 1,
        12 => 2,
        13 => 3,
        20 => 4,
        21 => 5,
        22 => 6,
        30 => 7,
        31 => 8,
        32 => 9,
        40 => 10,
        41 => 11,
        42 => 12,
        50 => 13,
        51 => 14,
        52 => 15,
        60 => 16,
        61 => 17,
        _ => 18,
    }
}

/// Map `level_idc` (10 * level) onto the StdVideo enum.
pub fn std_level_idc(level_idc: u8) -> (number: u32)
    ensures
        number == level_number(level_idc),
{
    match level_idc {
        10 => 0,
        11 => 1,
        12 => 2,
        13 => 3,
        20 => 4,
        21 => 5,
        22 => 6,
        30 => 7,
        31 => 8,
        32 => 9,
        40 => 10,
        41 => 11,
        42 => 12,
        50 => 13,
        51 => 14,
        52 => 15,
        60 => 16,
        61 => 17,
        _ => 18,
    }
}

/// The decode profile that a stream needs.
#[derive(Clone, Copy, Debug, PartialEq, Eq, Structural)]
pub struct DecodeProfile {
    /// The StdVideo profile number.
    pub std_profile_idc: u32,
    pub pixel_format: PixelFormat,
    pub bit_depth: BitDepth,
}

/// The decode profile for an SPS, or why there is none.
pub open spec fn profile_of(sps: SpsView) -> Result<DecodeProfile, InvalidInput> {
    let chroma = sps.chroma;
    if chroma.chroma_format_idc != 1 && chroma.chroma_format_idc != 3 {
        Err(InvalidInput::UnsupportedChromaFormat(chroma.chroma_format_idc))
    } else if chroma.bit_depth_luma_minus8 != 0 && chroma.bit_depth_luma_minus8 != 2 {
        Err(InvalidInput::UnsupportedLumaDepth((chroma.bit_depth_luma_minus8 + 8) as u32))
    } else if chroma.seq_scaling_matrix_present_flag {
        Err(InvalidInput::ScalingMatrices)
    } else {
        match profile_number(sps.profile_idc) {
            Some(std_profile_idc) => Ok(
                DecodeProfile {
                    std_profile_idc,
                    pixel_format: if chroma.chroma_format_idc == 1 {
                        PixelFormat::Yuv420
                    } else {
                        PixelFormat::Yuv444
                    },
                    bit_depth: if chroma.bit_depth_luma_minus8 == 0 {
                        BitDepth::Eight
                    } else {
                        BitDepth::Ten
                    },
                },
            ),
            None => Err(InvalidInput::UnsupportedProfile(sps.profile_idc)),
        }
    }
}

/// A refusal of the input, as an error of the library.
pub open spec fn refused<T>(result: Result<T, InvalidInput>) -> Result<T, PixelForgeError> {
    match result {
        Ok(value) => Ok(value),
        Err(reason) => Err(PixelForgeError::InvalidInput(reason)),
    }
}

/// Build the H.264 decode profile for a parsed SPS.
pub fn profile_for(sps: &Sps) -> (result: Result<DecodeProfile, PixelForgeError>)
    ensures
        result == refused(profile_of(sps@)),
{
    let pixel_format = match sps.chroma_format_idc {
        1 => PixelFormat::Yuv420,
        3 => PixelFormat::Yuv444,
        other => {
            return Err(
                PixelForgeError::InvalidInput(InvalidInput::UnsupportedChromaFormat(other)),
            );
        },
    };
    let bit_depth = match sps.bit_depth_luma_minus8 {
        0 => BitDepth::Eight,
        2 => BitDepth::Ten,
        other => {
            return Err(
                PixelForgeError::InvalidInput(
                    InvalidInput::UnsupportedLumaDepth(other as u32 + 8),
                ),
            );
        },
    };
    if sps.seq_scaling_matrix_present_flag {
        return Err(PixelForgeError::InvalidInput(InvalidInput::ScalingMatrices));
    }
    let std_profile_idc: u32 = std_profile_idc(sps.profile_idc)?;
    Ok(DecodeProfile { std_profile_idc, pixel_format, bit_depth })
}

/// The decode profile of a session for the given parameter sets.
pub fn session_profile(sps: &Sps, pps: &Pps) -> (result: Result<DecodeProfile, PixelForgeError>)
    ensures
        result == if pps.pic_scaling_matrix_present_flag {
            Err::<DecodeProfile, PixelForgeError>(
                PixelForgeError::InvalidInput(InvalidInput::ScalingMatrices),
            )
        } else {
            refused(profile_of(sps@))
        },
{
    // `profile_for` rejects scaling matrices in the SPS; a PPS can carry its
    // own, and those are just as unsupported. Without this the session would
    // report pic_scaling_matrix_present_flag = 0 with null scaling lists, and
    // the driver would silently dequantise with a flat matrix.
    if pps.pic_scaling_matrix_present_flag {
        return Err(PixelForgeError::InvalidInput(InvalidInput::ScalingMatrices));
    }
    profile_for(sps)
}

/// `VK_VIDEO_CAPABILITY_SEPARATE_REFERENCE_IMAGES_BIT_KHR`.
pub const SEPARATE_REFERENCE_IMAGES: u32 = 0x2;

/// `VK_VIDEO_DECODE_CAPABILITY_DPB_AND_OUTPUT_COINCIDE_BIT_KHR`.
pub const DPB_AND_OUTPUT_COINCIDE: u32 = 0x1;

/// What a device can do with a decode profile.
#[derive(Clone, Copy, Debug, PartialEq, Eq, Structural)]
pub struct DecodeCaps {
    pub max_coded_width: u32,
    pub max_coded_height: u32,
    pub granularity_width: u32,
    pub granularity_height: u32,
    pub max_dpb_slots: u32,
    pub max_active_reference_pictures: u32,
    /// `VkVideoCapabilityFlagsKHR`.
    pub flags: u32,
    /// `VkVideoDecodeCapabilityFlagsKHR`.
    pub decode_flags: u32,
    pub min_bitstream_buffer_offset_alignment: u64,
    pub min_bitstream_buffer_size_alignment: u64,
}

/// Everything about a session that follows from the stream, the device and the
/// configuration, but for the picture format.
#[derive(Clone, Copy, Debug, PartialEq, Eq, Structural)]
pub struct StreamPlan {
    pub profile: DecodeProfile,
    /// Picture size, rounded up to what the device can address.
    pub coded_width: u32,
    pub coded_height: u32,
    /// DPB slots of the session.
    pub slot_count: usize,
    /// DPB slots beyond what the stream itself needs.
    pub spare_slots: usize,
    pub max_active_references: u32,
    /// How many pictures may wait for their turn in display order.
    pub reorder_depth: usize,
    /// Whether the driver decodes straight into the DPB.
    pub coincide: bool,
    /// Whether pictures can be handed out where they were decoded.
    pub pinnable: bool,
    /// Whether the DPB is one image with a layer for each slot.
    pub use_layered_dpb: bool,
    pub bitstream_offset_alignment: u64,
    pub bitstream_size_alignment: u64,
}

/// At least one.
pub open spec fn at_least_one(x: int) -> int {
    if x < 1 {
        1
    } else {
        x
    }
}

/// The DPB slots that a stream needs: its references and the current picture.
pub open spec fn slots_needed(sps: SpsView) -> int {
    if sps.frame.max_num_ref_frames + 1 < 2 {
        2
    } else {
        sps.frame.max_num_ref_frames + 1
    }
}

/// The DPB slots that a session can have at most.
pub open spec fn slot_limit(caps: DecodeCaps) -> int {
    vstd::math::min(caps.max_dpb_slots as int, MAX_DPB_SLOTS as int)
}

/// How many pictures may wait for their turn in display order: what the stream
/// signals, or else its reference count.
pub open spec fn reorder_depth_of(sps: SpsView) -> int {
    match sps.max_num_reorder_frames {
        Some(depth) => depth as int,
        None => sps.frame.max_num_ref_frames as int,
    }
}

/// Whether the driver decodes straight into the DPB.
pub open spec fn coincides(caps: DecodeCaps) -> bool {
    caps.decode_flags & DPB_AND_OUTPUT_COINCIDE == DPB_AND_OUTPUT_COINCIDE
}

/// The spare slots that a session asks for: one for each picture that waits its
/// turn and each frame that the caller may hold. Without pinning they would buy
/// nothing.
pub open spec fn spare_wanted(sps: SpsView, output_depth: usize, pinnable: bool) -> int {
    if pinnable {
        reorder_depth_of(sps) + output_depth
    } else {
        0
    }
}

/// The plan for a stream, or why it cannot be decoded.
pub open spec fn plan_of(
    sps: SpsView,
    pps: Pps,
    caps: DecodeCaps,
    output_depth: usize,
    unified_layouts: bool,
) -> Result<StreamPlan, InvalidInput> {
    let width = aligned(sps.coded_width(), at_least_one(caps.granularity_width as int));
    let height = aligned(sps.coded_height(), at_least_one(caps.granularity_height as int));
    let needed = slots_needed(sps);
    let coincide = coincides(caps);
    let pinnable = coincide && unified_layouts;
    let wanted = spare_wanted(sps, output_depth, pinnable);
    let slot_count = vstd::math::min(needed + wanted, slot_limit(caps));
    if pps.pic_scaling_matrix_present_flag {
        Err(InvalidInput::ScalingMatrices)
    } else {
        match profile_of(sps) {
            Err(reason) => Err(reason),
            Ok(profile) => {
                if width > caps.max_coded_width || height > caps.max_coded_height {
                    Err(
                        InvalidInput::PictureSize {
                            width: width as u32,
                            height: height as u32,
                            max_width: caps.max_coded_width,
                            max_height: caps.max_coded_height,
                        },
                    )
                } else if needed > slot_limit(caps) {
                    Err(
                        InvalidInput::DpbSlots {
                            needed: needed as u32,
                            supported: caps.max_dpb_slots,
                        },
                    )
                } else if caps.max_active_reference_pictures < needed - 1 {
                    Err(
                        InvalidInput::ActiveReferences {
                            needed: (needed - 1) as u32,
                            supported: caps.max_active_reference_pictures,
                        },
                    )
                } else {
                    Ok(
                        StreamPlan {
                            profile,
                            coded_width: width as u32,
                            coded_height: height as u32,
                            slot_count: slot_count as usize,
                            spare_slots: (slot_count - needed) as usize,
                            max_active_references: (needed - 1) as u32,
                            reorder_depth: reorder_depth_of(sps) as usize,
                            coincide,
                            pinnable,
                            use_layered_dpb: caps.flags & SEPARATE_REFERENCE_IMAGES
                                != SEPARATE_REFERENCE_IMAGES,
                            bitstream_offset_alignment: at_least_one(
                                caps.min_bitstream_buffer_offset_alignment as int,
                            ) as u64,
                            bitstream_size_alignment: at_least_one(
                                caps.min_bitstream_buffer_size_alignment as int,
                            ) as u64,
                        },
                    )
                }
            },
        }
    }
}

/// Whether the picture size of a plan fits in machine integers.
pub open spec fn plan_fits(sps: SpsView, caps: DecodeCaps) -> bool {
    &&& aligned(sps.coded_width(), at_least_one(caps.granularity_width as int)) <= u32::MAX
    &&& aligned(sps.coded_height(), at_least_one(caps.granularity_height as int)) <= u32::MAX
}

proof fn lemma_plan_fits(sps: SpsView, caps: DecodeCaps)
    ensures
        sps.coded_width() <= aligned(
            sps.coded_width(),
            at_least_one(caps.granularity_width as int),
        ),
        sps.coded_height() <= aligned(
            sps.coded_height(),
            at_least_one(caps.granularity_height as int),
        ),
{
    law_aligned(sps.coded_width(), at_least_one(caps.granularity_width as int));
    law_aligned(sps.coded_height(), at_least_one(caps.granularity_height as int));
}

/// Whether the picture size of a stream fits in machine integers, which
/// [`plan_session`] needs.
pub fn sizes_fit(sps: &Sps, caps: &DecodeCaps) -> (fit: bool)
    ensures
        fit == plan_fits(sps@, *caps),
{
    let width: u64 = (sps.pic_width_in_mbs_minus1 as u64 + 1) * 16;
    let rows: u64 = if sps.frame_mbs_only_flag { 16 } else { 32 };
    assert(rows * (sps.pic_height_in_map_units_minus1 + 1) <= 32 * 0x1_0000_0000)
        by (nonlinear_arith)
        requires
            rows == 16 || rows == 32,
            sps.pic_height_in_map_units_minus1 <= 0xffff_ffff,
    ;
    let height: u64 = (sps.pic_height_in_map_units_minus1 as u64 + 1) * rows;
    aligned_fits(width, caps.granularity_width) && aligned_fits(height, caps.granularity_height)
}

/// Whether a size rounded up to a granularity of at least one fits in a `u32`.
fn aligned_fits(size: u64, granularity: u32) -> (fits: bool)
    requires
        size <= 0x40_0000_0000,
    ensures
        fits == (aligned(size as int, at_least_one(granularity as int)) <= u32::MAX),
{
    let step: u64 = if granularity < 1 { 1 } else { granularity as u64 };
    proof {
        law_aligned(size as int, step as int);
    }
    (size + (step - 1)) / step * step <= u32::MAX as u64
}

/// Plan the session for the given parameter sets.
///
/// The stream needs `max_num_ref_frames` references plus the current picture. On
/// top of that come the spare slots, which is what lets a picture stay pinned in
/// place past the decode that produced it instead of being copied out: one for
/// each picture waiting its turn in display order, and `output_depth` for frames
/// the caller is holding. The device caps bound the total.
pub fn plan_session(
    sps: &Sps,
    pps: &Pps,
    caps: &DecodeCaps,
    output_depth: usize,
    unified_layouts: bool,
) -> (result: Result<StreamPlan, PixelForgeError>)
    requires
        plan_fits(sps@, *caps),
    ensures
        result == refused(plan_of(sps@, *pps, *caps, output_depth, unified_layouts)),
{
    let profile = session_profile(sps, pps)?;
    proof {
        lemma_plan_fits(sps@, *caps);
    }
    let coded_width: u32 = align_up(
        sps.coded_width(),
        if caps.granularity_width < 1 { 1 } else { caps.granularity_width },
    );
    let coded_height: u32 = align_up(
        sps.coded_height(),
        if caps.granularity_height < 1 { 1 } else { caps.granularity_height },
    );
    if coded_width > caps.max_coded_width || coded_height > caps.max_coded_height {
        return Err(
            PixelForgeError::InvalidInput(
                InvalidInput::PictureSize {
                    width: coded_width,
                    height: coded_height,
                    max_width: caps.max_coded_width,
                    max_height: caps.max_coded_height,
                },
            ),
        );
    }
    let coincide = caps.decode_flags & DPB_AND_OUTPUT_COINCIDE == DPB_AND_OUTPUT_COINCIDE;
    let use_layered_dpb = caps.flags & SEPARATE_REFERENCE_IMAGES != SEPARATE_REFERENCE_IMAGES;
    let needed: u32 = if sps.max_num_ref_frames < 1 {
        2
    } else {
        sps.max_num_ref_frames as u32 + 1
    };
    let slot_limit: u32 = if caps.max_dpb_slots < MAX_DPB_SLOTS as u32 {
        caps.max_dpb_slots
    } else {
        MAX_DPB_SLOTS as u32
    };
    if needed > slot_limit {
        return Err(
            PixelForgeError::InvalidInput(
                InvalidInput::DpbSlots { needed, supported: caps.max_dpb_slots },
            ),
        );
    }
    // Reorder depth comes from the stream (VUI); without it, bound by the
    // reference count, which is never smaller than the reorder depth in
    // practice.
    let reorder_depth: usize = match sps.max_num_reorder_frames {
        Some(depth) => depth as usize,
        None => sps.max_num_ref_frames as usize,
    };
    // Spare slots only buy something when pictures can be pinned. Without that
    // they are handed out as copies, which needs no DPB slot at all, so asking
    // for spares would just reserve memory nothing uses.
    let pinnable = coincide && unified_layouts;
    let wanted: usize = if pinnable {
        reorder_depth.saturating_add(output_depth)
    } else {
        0
    };
    let available: u32 = slot_limit - needed;
    let spare: u32 = if wanted < available as usize {
        wanted as u32
    } else {
        available
    };
    let slot_count: u32 = needed + spare;
    // Only the reference pictures are ever active at once: the current picture
    // and the output reservation are not references.
    if caps.max_active_reference_pictures < needed - 1 {
        return Err(
            PixelForgeError::InvalidInput(
                InvalidInput::ActiveReferences {
                    needed: needed - 1,
                    supported: caps.max_active_reference_pictures,
                },
            ),
        );
    }
    Ok(
        StreamPlan {
            profile,
            coded_width,
            coded_height,
            slot_count: slot_count as usize,
            spare_slots: spare as usize,
            max_active_references: needed - 1,
            reorder_depth,
            coincide,
            pinnable,
            use_layered_dpb,
            bitstream_offset_alignment: if caps.min_bitstream_buffer_offset_alignment < 1 {
                1
            } else {
                caps.min_bitstream_buffer_offset_alignment
            },
            bitstream_size_alignment: if caps.min_bitstream_buffer_size_alignment < 1 {
                1
            } else {
                caps.min_bitstream_buffer_size_alignment
            },
        },
    )
}

/// A plan never asks for more DPB slots than the device has or the standard can
/// address, and always covers the stream's references and the current picture.
/// The spare slots are all that are wanted, or all that are left.
pub proof fn law_plan_is_bounded(
    sps: SpsView,
    pps: Pps,
    caps: DecodeCaps,
    output_depth: usize,
    unified_layouts: bool,
)
    requires
        plan_fits(sps, caps),
        plan_of(sps, pps, caps, output_depth, unified_layouts) is Ok,
    ensures
        ({
            let plan = plan_of(sps, pps, caps, output_depth, unified_layouts)->Ok_0;
            let wanted = spare_wanted(sps, output_depth, plan.pinnable);
            &&& plan.slot_count <= caps.max_dpb_slots
            &&& plan.slot_count <= MAX_DPB_SLOTS
            &&& plan.slot_count > sps.frame.max_num_ref_frames
            &&& plan.slot_count == slots_needed(sps) + plan.spare_slots
            &&& plan.spare_slots == wanted || (plan.spare_slots < wanted && plan.slot_count
                == slot_limit(caps))
            &&& plan.max_active_references <= caps.max_active_reference_pictures
            &&& sps.coded_width() <= plan.coded_width <= caps.max_coded_width
            &&& sps.coded_height() <= plan.coded_height <= caps.max_coded_height
        }),
{
    lemma_plan_fits(sps, caps);
}

/// `VK_IMAGE_USAGE_TRANSFER_SRC_BIT`.
pub const USAGE_TRANSFER_SRC: u32 = 0x1;

/// `VK_IMAGE_USAGE_SAMPLED_BIT`.
pub const USAGE_SAMPLED: u32 = 0x4;

/// `VK_IMAGE_USAGE_VIDEO_DECODE_DST_BIT_KHR`.
pub const USAGE_VIDEO_DECODE_DST: u32 = 0x400;

/// `VK_IMAGE_USAGE_VIDEO_DECODE_DPB_BIT_KHR`.
pub const USAGE_VIDEO_DECODE_DPB: u32 = 0x1000;

/// `VK_IMAGE_CREATE_MUTABLE_FORMAT_BIT`.
pub const CREATE_MUTABLE_FORMAT: u32 = 0x8;

/// The usage of the DPB images. Where the driver decodes straight into them they
/// are also what the caller reads.
pub fn dpb_usage(coincide: bool, sampled: bool) -> (usage: u32)
    ensures
        usage & USAGE_VIDEO_DECODE_DPB != 0,
        (usage & USAGE_VIDEO_DECODE_DST != 0) == coincide,
        (usage & USAGE_TRANSFER_SRC != 0) == coincide,
        (usage & USAGE_SAMPLED != 0) == sampled,
        usage & !(USAGE_VIDEO_DECODE_DPB | USAGE_VIDEO_DECODE_DST | USAGE_TRANSFER_SRC
            | USAGE_SAMPLED) == 0,
{
    let base: u32 = if coincide {
        USAGE_VIDEO_DECODE_DPB | USAGE_VIDEO_DECODE_DST | USAGE_TRANSFER_SRC
    } else {
        USAGE_VIDEO_DECODE_DPB
    };
    let usage: u32 = if sampled { base | USAGE_SAMPLED } else { base };
    assert(0x1000u32 & 0x1000u32 != 0 && 0x1000u32 & 0x400u32 == 0 && 0x1000u32 & 0x1u32 == 0
        && 0x1000u32 & 0x4u32 == 0 && 0x1000u32 & !(0x1000u32 | 0x400u32 | 0x1u32 | 0x4u32) == 0)
        by (bit_vector);
    assert(({
        let u = 0x1000u32 | 0x400u32 | 0x1u32;
        u & 0x1000u32 != 0 && u & 0x400u32 != 0 && u & 0x1u32 != 0 && u & 0x4u32 == 0 && u & !(
        0x1000u32 | 0x400u32 | 0x1u32 | 0x4u32) == 0
    })) by (bit_vector);
    assert(({
        let u = 0x1000u32 | 0x4u32;
        u & 0x1000u32 != 0 && u & 0x400u32 == 0 && u & 0x1u32 == 0 && u & 0x4u32 != 0 && u & !(
        0x1000u32 | 0x400u32 | 0x1u32 | 0x4u32) == 0
    })) by (bit_vector);
    assert(({
        let u = 0x1000u32 | 0x400u32 | 0x1u32 | 0x4u32;
        u & 0x1000u32 != 0 && u & 0x400u32 != 0 && u & 0x1u32 != 0 && u & 0x4u32 != 0 && u & !(
        0x1000u32 | 0x400u32 | 0x1u32 | 0x4u32) == 0
    })) by (bit_vector);
    usage
}

/// A picture format that a device offers for a profile and usage.
#[derive(Clone, Copy, Debug, PartialEq, Eq, Structural)]
pub struct VideoFormat {
    /// `VkFormat`.
    pub format: i32,
    /// `VkImageCreateFlags` that the driver accepts with it.
    pub create_flags: u32,
}

/// The picture format of a session.
#[derive(Clone, Copy, Debug, PartialEq, Eq, Structural)]
pub struct FormatPlan {
    /// `VkFormat`.
    pub picture_format: i32,
    /// Whether a shader can read the pictures without a copy.
    pub sampleable: bool,
    /// Whether the planes of the pictures can be viewed separately.
    pub plane_views: bool,
}

/// The format that is picked among those offered: the preferred one, else the
/// first.
pub open spec fn picked(offered: Seq<VideoFormat>, preferred: i32) -> VideoFormat {
    let first = first_with(offered, preferred);
    if first < offered.len() {
        offered[first]
    } else {
        offered[0]
    }
}

/// The index of the first offered format that is the preferred one, or the number
/// of offers where none is.
pub open spec fn first_with(offered: Seq<VideoFormat>, preferred: i32) -> int
    decreases offered.len(),
{
    if offered.len() == 0 || offered[0].format == preferred {
        0
    } else {
        1 + first_with(offered.skip(1), preferred)
    }
}

proof fn lemma_first_with(offered: Seq<VideoFormat>, preferred: i32, n: int)
    requires
        0 <= n <= offered.len(),
        forall|i: int| 0 <= i < n ==> (#[trigger] offered[i]).format != preferred,
        n < offered.len() ==> offered[n].format == preferred,
    ensures
        first_with(offered, preferred) == n,
    decreases offered.len(),
{
    if n > 0 {
        lemma_first_with(offered.skip(1), preferred, n - 1);
    }
}

/// The picture format of a session that is offered these formats, where there is one.
pub open spec fn chosen(
    sampled: Seq<VideoFormat>,
    plain: Seq<VideoFormat>,
    preferred: i32,
) -> Option<FormatPlan> {
    let offered = if sampled.len() > 0 {
        sampled
    } else {
        plain
    };
    if offered.len() == 0 {
        None
    } else {
        let format = picked(offered, preferred);
        Some(
            FormatPlan {
                picture_format: format.format,
                sampleable: sampled.len() > 0,
                plane_views: format.create_flags & CREATE_MUTABLE_FORMAT == CREATE_MUTABLE_FORMAT,
            },
        )
    }
}

/// Pick a picture format that the device supports for decode.
///
/// Sampleable formats are asked for first: a coincident DPB image is what the
/// caller receives, and sampling is what lets them read it in a shader instead of
/// copying it out first. The plain ones are the fallback, which costs the caller
/// a copy but keeps decoding working. `plain` is read only where `sampled` is
/// empty.
pub fn choose_format(
    sampled: &Vec<VideoFormat>,
    plain: &Vec<VideoFormat>,
    preferred: i32,
) -> (result: Result<FormatPlan, PixelForgeError>)
    ensures
        ({
            let offered = if sampled@.len() > 0 { sampled@ } else { plain@ };
            if offered.len() == 0 {
                result == Err::<FormatPlan, PixelForgeError>(
                    PixelForgeError::CodecNotSupported(Unsupported::NoPictureFormat),
                )
            } else {
                result == Ok::<FormatPlan, PixelForgeError>(
                    FormatPlan {
                        picture_format: picked(offered, preferred).format,
                        sampleable: sampled@.len() > 0,
                        plane_views: picked(offered, preferred).create_flags & CREATE_MUTABLE_FORMAT
                            == CREATE_MUTABLE_FORMAT,
                    },
                )
            }
        }),
        match result {
            Ok(plan) => chosen(sampled@, plain@, preferred) == Some(plan),
            Err(_) => chosen(sampled@, plain@, preferred) is None,
        },
{
    let sampleable = sampled.len() > 0;
    let offered: &Vec<VideoFormat> = if sampleable { sampled } else { plain };
    if offered.len() == 0 {
        return Err(PixelForgeError::CodecNotSupported(Unsupported::NoPictureFormat));
    }
    let mut i: usize = 0;
    while i < offered.len() && offered[i].format != preferred
        invariant
            i <= offered@.len(),
            forall|k: int| 0 <= k < i ==> (#[trigger] offered@[k]).format != preferred,
        decreases offered@.len() - i,
    {
        i = i + 1;
    }
    proof {
        lemma_first_with(offered@, preferred, i as int);
    }
    let chosen: VideoFormat = if i < offered.len() { offered[i] } else { offered[0] };
    Ok(
        FormatPlan {
            picture_format: chosen.format,
            sampleable,
            plane_views: chosen.create_flags & CREATE_MUTABLE_FORMAT == CREATE_MUTABLE_FORMAT,
        },
    )
}

/// A sequence parameter set as Vulkan Video takes it
/// (`StdVideoH264SequenceParameterSet`), without its pointers.
#[derive(Clone, Copy, Debug, PartialEq, Eq, Structural)]
pub struct StdSps {
    pub constraint_set0_flag: bool,
    pub constraint_set1_flag: bool,
    pub constraint_set2_flag: bool,
    pub constraint_set3_flag: bool,
    pub constraint_set4_flag: bool,
    pub constraint_set5_flag: bool,
    pub direct_8x8_inference_flag: bool,
    pub mb_adaptive_frame_field_flag: bool,
    pub frame_mbs_only_flag: bool,
    pub delta_pic_order_always_zero_flag: bool,
    pub separate_colour_plane_flag: bool,
    pub gaps_in_frame_num_value_allowed_flag: bool,
    pub qpprime_y_zero_transform_bypass_flag: bool,
    pub frame_cropping_flag: bool,
    pub seq_scaling_matrix_present_flag: bool,
    pub vui_parameters_present_flag: bool,
    pub profile_idc: u32,
    pub level_idc: u32,
    pub chroma_format_idc: u32,
    pub seq_parameter_set_id: u8,
    pub bit_depth_luma_minus8: u8,
    pub bit_depth_chroma_minus8: u8,
    pub log2_max_frame_num_minus4: u8,
    pub pic_order_cnt_type: u32,
    pub offset_for_non_ref_pic: i32,
    pub offset_for_top_to_bottom_field: i32,
    pub log2_max_pic_order_cnt_lsb_minus4: u8,
    pub num_ref_frames_in_pic_order_cnt_cycle: u8,
    pub max_num_ref_frames: u8,
    pub pic_width_in_mbs_minus1: u32,
    pub pic_height_in_map_units_minus1: u32,
    pub frame_crop_left_offset: u32,
    pub frame_crop_right_offset: u32,
    pub frame_crop_top_offset: u32,
    pub frame_crop_bottom_offset: u32,
}

/// A picture parameter set as Vulkan Video takes it
/// (`StdVideoH264PictureParameterSet`), without its pointer.
#[derive(Clone, Copy, Debug, PartialEq, Eq, Structural)]
pub struct StdPps {
    pub transform_8x8_mode_flag: bool,
    pub redundant_pic_cnt_present_flag: bool,
    pub constrained_intra_pred_flag: bool,
    pub deblocking_filter_control_present_flag: bool,
    pub weighted_pred_flag: bool,
    pub bottom_field_pic_order_in_frame_present_flag: bool,
    pub entropy_coding_mode_flag: bool,
    pub pic_scaling_matrix_present_flag: bool,
    pub seq_parameter_set_id: u8,
    pub pic_parameter_set_id: u8,
    pub num_ref_idx_l0_default_active_minus1: u8,
    pub num_ref_idx_l1_default_active_minus1: u8,
    pub weighted_bipred_idc: u32,
    pub pic_init_qp_minus26: i8,
    pub pic_init_qs_minus26: i8,
    pub chroma_qp_index_offset: i8,
    pub second_chroma_qp_index_offset: i8,
}

/// Bit `n` of a byte, counted from the least significant one.
pub open spec fn bit_of(byte: u8, n: u8) -> bool {
    (byte >> n) & 1 == 1
}

/// An SPS as Vulkan Video takes it. Scaling matrices and the VUI are left out.
pub open spec fn std_sps_of(sps: SpsView) -> Result<StdSps, InvalidInput> {
    match profile_number(sps.profile_idc) {
        None => Err(InvalidInput::UnsupportedProfile(sps.profile_idc)),
        Some(profile_idc) => if sps.chroma.chroma_format_idc > 3 {
            Err(InvalidInput::ChromaFormat(sps.chroma.chroma_format_idc))
        } else {
            Ok(
                StdSps {
                    constraint_set0_flag: bit_of(sps.constraint_set_flags, 7),
                    constraint_set1_flag: bit_of(sps.constraint_set_flags, 6),
                    constraint_set2_flag: bit_of(sps.constraint_set_flags, 5),
                    constraint_set3_flag: bit_of(sps.constraint_set_flags, 4),
                    constraint_set4_flag: bit_of(sps.constraint_set_flags, 3),
                    constraint_set5_flag: bit_of(sps.constraint_set_flags, 2),
                    direct_8x8_inference_flag: sps.frame.direct_8x8_inference_flag,
                    mb_adaptive_frame_field_flag: sps.frame.mb_adaptive_frame_field_flag,
                    frame_mbs_only_flag: sps.frame.frame_mbs_only_flag,
                    delta_pic_order_always_zero_flag: sps.poc.delta_pic_order_always_zero_flag,
                    separate_colour_plane_flag: sps.chroma.separate_colour_plane_flag,
                    gaps_in_frame_num_value_allowed_flag:
                        sps.frame.gaps_in_frame_num_value_allowed_flag,
                    qpprime_y_zero_transform_bypass_flag:
                        sps.chroma.qpprime_y_zero_transform_bypass_flag,
                    frame_cropping_flag: sps.frame.frame_cropping_flag,
                    seq_scaling_matrix_present_flag: false,
                    vui_parameters_present_flag: false,
                    profile_idc,
                    level_idc: level_number(sps.level_idc),
                    chroma_format_idc: sps.chroma.chroma_format_idc as u32,
                    seq_parameter_set_id: sps.sps_id,
                    bit_depth_luma_minus8: sps.chroma.bit_depth_luma_minus8,
                    bit_depth_chroma_minus8: sps.chroma.bit_depth_chroma_minus8,
                    log2_max_frame_num_minus4: sps.log2_max_frame_num_minus4,
                    pic_order_cnt_type: sps.poc.pic_order_cnt_type as u32,
                    offset_for_non_ref_pic: sps.poc.offset_for_non_ref_pic,
                    offset_for_top_to_bottom_field: sps.poc.offset_for_top_to_bottom_field,
                    log2_max_pic_order_cnt_lsb_minus4: sps.poc.log2_max_pic_order_cnt_lsb_minus4,
                    num_ref_frames_in_pic_order_cnt_cycle:
                        sps.poc.offsets_for_ref_frame.len() as u8,
                    max_num_ref_frames: sps.frame.max_num_ref_frames,
                    pic_width_in_mbs_minus1: sps.frame.pic_width_in_mbs_minus1,
                    pic_height_in_map_units_minus1: sps.frame.pic_height_in_map_units_minus1,
                    frame_crop_left_offset: sps.frame.frame_crop_left_offset,
                    frame_crop_right_offset: sps.frame.frame_crop_right_offset,
                    frame_crop_top_offset: sps.frame.frame_crop_top_offset,
                    frame_crop_bottom_offset: sps.frame.frame_crop_bottom_offset,
                },
            )
        },
    }
}

/// A PPS as Vulkan Video takes it. Scaling matrices are left out.
pub open spec fn std_pps_of(pps: Pps) -> StdPps {
    StdPps {
        transform_8x8_mode_flag: pps.transform_8x8_mode_flag,
        redundant_pic_cnt_present_flag: pps.redundant_pic_cnt_present_flag,
        constrained_intra_pred_flag: pps.constrained_intra_pred_flag,
        deblocking_filter_control_present_flag: pps.deblocking_filter_control_present_flag,
        weighted_pred_flag: pps.weighted_pred_flag,
        bottom_field_pic_order_in_frame_present_flag:
            pps.bottom_field_pic_order_in_frame_present_flag,
        entropy_coding_mode_flag: pps.entropy_coding_mode_flag,
        pic_scaling_matrix_present_flag: false,
        seq_parameter_set_id: pps.sps_id,
        pic_parameter_set_id: pps.pps_id,
        num_ref_idx_l0_default_active_minus1: pps.num_ref_idx_l0_default_active_minus1,
        num_ref_idx_l1_default_active_minus1: pps.num_ref_idx_l1_default_active_minus1,
        weighted_bipred_idc: pps.weighted_bipred_idc as u32,
        pic_init_qp_minus26: pps.pic_init_qp_minus26,
        pic_init_qs_minus26: pps.pic_init_qs_minus26,
        chroma_qp_index_offset: pps.chroma_qp_index_offset,
        second_chroma_qp_index_offset: pps.second_chroma_qp_index_offset,
    }
}

/// Translate the parsed SPS/PPS into what session parameters are created from.
pub fn build_session_params(sps: &Sps, pps: &Pps) -> (result: Result<
    (StdSps, StdPps),
    PixelForgeError,
>)
    ensures
        match std_sps_of(sps@) {
            Ok(std_sps) => result == Ok::<(StdSps, StdPps), PixelForgeError>(
                (std_sps, std_pps_of(*pps)),
            ),
            Err(reason) => result == Err::<(StdSps, StdPps), PixelForgeError>(
                PixelForgeError::InvalidInput(reason),
            ),
        },
{
    let flags: u8 = sps.constraint_set_flags;
    let profile_idc: u32 = std_profile_idc(sps.profile_idc)?;
    let chroma_format_idc: u32 = std_chroma_format_idc(sps.chroma_format_idc)?;
    let std_sps = StdSps {
        constraint_set0_flag: (flags >> 7u8) & 1 == 1,
        constraint_set1_flag: (flags >> 6u8) & 1 == 1,
        constraint_set2_flag: (flags >> 5u8) & 1 == 1,
        constraint_set3_flag: (flags >> 4u8) & 1 == 1,
        constraint_set4_flag: (flags >> 3u8) & 1 == 1,
        constraint_set5_flag: (flags >> 2u8) & 1 == 1,
        direct_8x8_inference_flag: sps.direct_8x8_inference_flag,
        mb_adaptive_frame_field_flag: sps.mb_adaptive_frame_field_flag,
        frame_mbs_only_flag: sps.frame_mbs_only_flag,
        delta_pic_order_always_zero_flag: sps.delta_pic_order_always_zero_flag,
        separate_colour_plane_flag: sps.separate_colour_plane_flag,
        gaps_in_frame_num_value_allowed_flag: sps.gaps_in_frame_num_value_allowed_flag,
        qpprime_y_zero_transform_bypass_flag: sps.qpprime_y_zero_transform_bypass_flag,
        frame_cropping_flag: sps.frame_cropping_flag,
        seq_scaling_matrix_present_flag: false,
        vui_parameters_present_flag: false,
        profile_idc,
        level_idc: std_level_idc(sps.level_idc),
        chroma_format_idc,
        seq_parameter_set_id: sps.sps_id,
        bit_depth_luma_minus8: sps.bit_depth_luma_minus8,
        bit_depth_chroma_minus8: sps.bit_depth_chroma_minus8,
        log2_max_frame_num_minus4: sps.log2_max_frame_num_minus4,
        pic_order_cnt_type: sps.pic_order_cnt_type as u32,
        offset_for_non_ref_pic: sps.offset_for_non_ref_pic,
        offset_for_top_to_bottom_field: sps.offset_for_top_to_bottom_field,
        log2_max_pic_order_cnt_lsb_minus4: sps.log2_max_pic_order_cnt_lsb_minus4,
        num_ref_frames_in_pic_order_cnt_cycle: sps.offsets_for_ref_frame.len() as u8,
        max_num_ref_frames: sps.max_num_ref_frames,
        pic_width_in_mbs_minus1: sps.pic_width_in_mbs_minus1,
        pic_height_in_map_units_minus1: sps.pic_height_in_map_units_minus1,
        frame_crop_left_offset: sps.frame_crop_left_offset,
        frame_crop_right_offset: sps.frame_crop_right_offset,
        frame_crop_top_offset: sps.frame_crop_top_offset,
        frame_crop_bottom_offset: sps.frame_crop_bottom_offset,
    };
    let std_pps = StdPps {
        transform_8x8_mode_flag: pps.transform_8x8_mode_flag,
        redundant_pic_cnt_present_flag: pps.redundant_pic_cnt_present_flag,
        constrained_intra_pred_flag: pps.constrained_intra_pred_flag,
        deblocking_filter_control_present_flag: pps.deblocking_filter_control_present_flag,
        weighted_pred_flag: pps.weighted_pred_flag,
        bottom_field_pic_order_in_frame_present_flag:
            pps.bottom_field_pic_order_in_frame_present_flag,
        entropy_coding_mode_flag: pps.entropy_coding_mode_flag,
        pic_scaling_matrix_present_flag: false,
        seq_parameter_set_id: pps.sps_id,
        pic_parameter_set_id: pps.pps_id,
        num_ref_idx_l0_default_active_minus1: pps.num_ref_idx_l0_default_active_minus1,
        num_ref_idx_l1_default_active_minus1: pps.num_ref_idx_l1_default_active_minus1,
        weighted_bipred_idc: pps.weighted_bipred_idc as u32,
        pic_init_qp_minus26: pps.pic_init_qp_minus26,
        pic_init_qs_minus26: pps.pic_init_qs_minus26,
        chroma_qp_index_offset: pps.chroma_qp_index_offset,
        second_chroma_qp_index_offset: pps.second_chroma_qp_index_offset,
    };
    Ok((std_sps, std_pps))
}

/// A reference as the driver is told of it.
#[derive(Clone, Copy, Debug, PartialEq, Eq)]
pub struct ReferenceInfo {
    pub slot: u8,
    pub used_for_long_term_reference: bool,
    /// `frame_num`, or `LongTermFrameIdx` for a long-term reference: that is how
    /// the driver identifies it when building the reference lists.
    pub frame_num: u16,
    pub poc: (i32, i32),
}

/// The current picture as the driver is told of it.
#[derive(Clone, Copy, Debug, PartialEq, Eq)]
pub struct PictureInfo {
    pub is_intra: bool,
    pub idr_pic_flag: bool,
    pub is_reference: bool,
    pub seq_parameter_set_id: u8,
    pub pic_parameter_set_id: u8,
    pub frame_num: u16,
    pub idr_pic_id: u16,
    pub poc: (i32, i32),
}

/// What is recorded to decode one picture.
#[derive(Debug)]
pub struct DecodePlan {
    /// The references the driver may use.
    pub references: Vec<ReferenceInfo>,
    /// The slot indices that video coding begins with: all references, then the
    /// slot that is reconstructed into. The latter is not active yet, so it is
    /// listed as -1, which still binds its picture resource.
    pub begin_slots: Vec<i32>,
    /// The slot that is reconstructed into.
    pub setup: ReferenceInfo,
    /// Whether the DPB slots must be reset first: on the first use of a session.
    pub reset: bool,
    pub picture: PictureInfo,
}

/// How the driver is told of a reference.
pub open spec fn reference_info(r: RefPicture) -> ReferenceInfo {
    ReferenceInfo {
        slot: r.slot,
        used_for_long_term_reference: r.long_term,
        frame_num: if r.long_term { r.long_term_frame_idx as u16 } else { r.frame_num },
        poc: r.poc,
    }
}

/// The slots that video coding begins with: those of the references, and one that is
/// not active yet.
pub open spec fn coding_slots(refs: Seq<RefPicture>) -> Seq<i32> {
    Seq::new(
        refs.len() + 1,
        |i: int|
            if i < refs.len() {
                refs[i].slot as i32
            } else {
                -1i32
            },
    )
}

/// How the driver is told of the slot that is reconstructed into.
pub open spec fn setup_info(state: PictureView, slot: u8) -> ReferenceInfo {
    ReferenceInfo {
        slot,
        used_for_long_term_reference: false,
        frame_num: state.frame_num,
        poc: (state.poc, state.poc),
    }
}

/// How the driver is told of the current picture.
pub open spec fn picture_info(state: PictureView, sps_id: u8, pps_id: u8) -> PictureInfo {
    PictureInfo {
        is_intra: state.is_intra,
        idr_pic_flag: state.is_idr,
        is_reference: state.is_reference,
        seq_parameter_set_id: sps_id,
        pic_parameter_set_id: pps_id,
        frame_num: state.frame_num,
        idr_pic_id: state.idr_pic_id,
        poc: (state.poc, state.poc),
    }
}

/// Plan the decode of a picture into `slot`.
pub fn plan_decode(
    refs: &[RefPicture],
    state: &PictureState,
    slot: u8,
    slot_active: &[bool],
    sps_id: u8,
    pps_id: u8,
) -> (plan: DecodePlan)
    ensures
        plan.references@ == Seq::new(refs@.len(), |i: int| reference_info(refs@[i])),
        plan.begin_slots@ == Seq::new(refs@.len(), |i: int| refs@[i].slot as i32).push(-1i32),
        plan.setup == (ReferenceInfo {
            slot,
            used_for_long_term_reference: false,
            frame_num: state.frame_num,
            poc: (state.poc, state.poc),
        }),
        plan.reset == !slot_active@.contains(true),
        plan.picture == (PictureInfo {
            is_intra: state.is_intra,
            idr_pic_flag: state.is_idr,
            is_reference: state.is_reference,
            seq_parameter_set_id: sps_id,
            pic_parameter_set_id: pps_id,
            frame_num: state.frame_num,
            idr_pic_id: state.idr_pic_id,
            poc: (state.poc, state.poc),
        }),
        plan.begin_slots@ == coding_slots(refs@),
        plan.setup == setup_info(state@, slot),
        plan.picture == picture_info(state@, sps_id, pps_id),
{
    let mut references: Vec<ReferenceInfo> = Vec::new();
    let mut begin_slots: Vec<i32> = Vec::new();
    let mut i: usize = 0;
    while i < refs.len()
        invariant
            i <= refs@.len(),
            references@ == Seq::new(i as nat, |k: int| reference_info(refs@[k])),
            begin_slots@ == Seq::new(i as nat, |k: int| refs@[k].slot as i32),
        decreases refs@.len() - i,
    {
        let r: RefPicture = refs[i];
        references.push(
            ReferenceInfo {
                slot: r.slot,
                used_for_long_term_reference: r.long_term,
                frame_num: if r.long_term { r.long_term_frame_idx as u16 } else { r.frame_num },
                poc: r.poc,
            },
        );
        begin_slots.push(r.slot as i32);
        i = i + 1;
    }
    begin_slots.push(-1);
    assert(begin_slots@ =~= coding_slots(refs@));
    DecodePlan {
        references,
        begin_slots,
        setup: ReferenceInfo {
            slot,
            used_for_long_term_reference: false,
            frame_num: state.frame_num,
            poc: (state.poc, state.poc),
        },
        reset: !any_active(slot_active),
        picture: PictureInfo {
            is_intra: state.is_intra,
            idr_pic_flag: state.is_idr,
            is_reference: state.is_reference,
            seq_parameter_set_id: sps_id,
            pic_parameter_set_id: pps_id,
            frame_num: state.frame_num,
            idr_pic_id: state.idr_pic_id,
            poc: (state.poc, state.poc),
        },
    }
}

/// Whether any slot is active.
fn any_active(slot_active: &[bool]) -> (any: bool)
    ensures
        any == slot_active@.contains(true),
{
    let mut i: usize = 0;
    while i < slot_active.len()
        invariant
            i <= slot_active@.len(),
            forall|k: int| 0 <= k < i ==> !slot_active@[k],
        decreases slot_active@.len() - i,
    {
        if slot_active[i] {
            return true;
        }
        i = i + 1;
    }
    false
}

/// What a decoder does about a slot for the current picture.
#[derive(Clone, Copy, Debug, PartialEq, Eq, Structural)]
pub enum SlotStep {
    /// Decode into this slot.
    Use(u8),
    /// Wait for the caller to drop a frame, then ask again.
    Wait,
}

/// Find a slot for the current picture.
///
/// Every slot can be busy for two reasons: the stream keeps that many references
/// (a hard error), or a frame the caller still holds pins one (wait for them to
/// drop it).
pub fn find_slot(dpb: &mut DecodeDpb, pins: &SlotPins) -> (result: Result<
    SlotStep,
    PixelForgeError,
>)
    requires
        old(dpb)@.wf(),
    ensures
        final(dpb)@.wf(),
        match result {
            Ok(SlotStep::Use(slot)) => {
                &&& slot < old(dpb)@.slot_count
                &&& !old(dpb)@.used[slot as int] && !pins@.contains(slot)
                &&& forall|s: u8|
                    s < slot ==> old(dpb)@.used[s as int] || #[trigger] pins@.contains(s)
                &&& final(dpb)@ == (DpbView {
                    used: old(dpb)@.used.update(slot as int, true),
                    ..old(dpb)@
                })
            },
            Ok(SlotStep::Wait) => {
                &&& no_free_slot(old(dpb)@, pins@)
                &&& pins@ != Set::<u8>::empty()
                &&& final(dpb)@ == old(dpb)@
            },
            Err(error) => {
                &&& no_free_slot(old(dpb)@, pins@)
                &&& pins@ == Set::<u8>::empty()
                &&& error == PixelForgeError::InvalidInput(InvalidInput::NoFreeSlot)
                &&& final(dpb)@ == old(dpb)@
            },
        },
{
    if let Some(slot) = dpb.try_allocate_slot(pins) {
        return Ok(SlotStep::Use(slot));
    }
    if dpb.has_pinned_slots(pins) {
        Ok(SlotStep::Wait)
    } else {
        Err(PixelForgeError::InvalidInput(InvalidInput::NoFreeSlot))
    }
}

/// Whether every slot is occupied or pinned.
pub open spec fn no_free_slot(dpb: DpbView, pins: Set<u8>) -> bool {
    forall|s: u8| s < dpb.slot_count ==> dpb.used[s as int] || #[trigger] pins.contains(s)
}

proof fn lemma_reference_slots(refs: Seq<RefPicture>) -> (slots: Set<u8>)
    ensures
        slots.finite(),
        slots.len() <= refs.len(),
        forall|s: u8| #[trigger] slots.contains(s) <==> holds_slot(refs, s as int),
    decreases refs.len(),
{
    if refs.len() == 0 {
        Set::empty()
    } else {
        let init = refs.drop_last();
        let rest = lemma_reference_slots(init);
        let slots = rest.insert(refs.last().slot);
        assert forall|s: u8| #[trigger] slots.contains(s) <==> holds_slot(refs, s as int) by {
            if holds_slot(init, s as int) {
                let i = choose|i: int| 0 <= i < init.len() && #[trigger] init[i].slot == s;
                assert(refs[i].slot == s);
            }
            if holds_slot(refs, s as int) {
                let i = choose|i: int| 0 <= i < refs.len() && #[trigger] refs[i].slot == s;
                if i < init.len() {
                    assert(init[i].slot == s);
                } else {
                    assert(refs.last().slot == s);
                }
            }
            if s == refs.last().slot {
                assert(refs[refs.len() - 1].slot == s);
            }
        }
        slots
    }
}

proof fn lemma_slots_below(n: u8) -> (slots: Set<u8>)
    ensures
        slots.finite(),
        slots.len() == n,
        forall|s: u8| #[trigger] slots.contains(s) <==> s < n,
    decreases n,
{
    if n == 0 {
        Set::empty()
    } else {
        let rest = lemma_slots_below((n - 1) as u8);
        rest.insert((n - 1) as u8)
    }
}

/// The decoder can always proceed: while frames pin no more slots than the session
/// has to spare, and the stream keeps no more references than it said it would,
/// there is a slot to decode the next picture into.
pub proof fn law_slot_is_always_available(dpb: DpbView, pins: Set<u8>, sps: SpsView, spare: nat)
    requires
        tidy(dpb, None),
        dpb.slot_count == slots_needed(sps) + spare,
        dpb.refs.len() < slots_needed(sps),
        pins.finite(),
        pins.len() <= spare,
    ensures
        !no_free_slot(dpb, pins),
{
    let held = lemma_reference_slots(dpb.refs);
    let all = lemma_slots_below(dpb.slot_count as u8);
    if no_free_slot(dpb, pins) {
        let taken = held.union(pins);
        assert forall|s: u8| #[trigger] all.contains(s) implies taken.contains(s) by {
            if !pins.contains(s) {
                assert(dpb.used[s as int]);
                assert(holds_slot(dpb.refs, s as int));
            }
        }
        assert(all.subset_of(taken));
        vstd::set_lib::lemma_len_subset(all, taken);
        vstd::set_lib::lemma_len_union(held, pins);
    }
}

/// The levels that Vulkan Video numbers, in its order.
pub open spec fn numbered_levels() -> Seq<u8> {
    seq![10, 11, 12, 13, 20, 21, 22, 30, 31, 32, 40, 41, 42, 50, 51, 52, 60, 61, 62]
}

/// Levels are numbered in their order, and a level without a number counts as the
/// highest.
pub proof fn law_levels_are_numbered_in_order(i: int, level_idc: u8)
    requires
        0 <= i < numbered_levels().len(),
    ensures
        level_number(numbered_levels()[i]) == i,
        !numbered_levels().contains(level_idc) ==> level_number(level_idc) == level_number(62),
{
    let levels = numbered_levels();
    assert(levels.len() == 19);
    if !levels.contains(level_idc) {
        assert(levels[0] == 10 && levels[1] == 11 && levels[2] == 12 && levels[3] == 13);
        assert(levels[4] == 20 && levels[5] == 21 && levels[6] == 22 && levels[7] == 30);
        assert(levels[8] == 31 && levels[9] == 32 && levels[10] == 40 && levels[11] == 41);
        assert(levels[12] == 42 && levels[13] == 50 && levels[14] == 51 && levels[15] == 52);
        assert(levels[16] == 60 && levels[17] == 61);
    }
}

/// A profile is that of the stream: its number is the stream's own, its chroma
/// samples cover as many luma samples, and its samples have as many bits. There is
/// one for every stream of a known profile with 4:2:0 or 4:4:4 samples of eight or
/// ten bits that brings no scaling matrices, and for no other.
pub proof fn law_profile_is_that_of_the_stream(sps: SpsView)
    ensures
        profile_of(sps) matches Ok(profile) ==> {
            &&& profile.std_profile_idc == sps.profile_idc
            &&& sps.chroma.chroma_format_idc == 1 ==> profile.pixel_format.divisors() == (
                2u32,
                2u32,
            )
            &&& sps.chroma.chroma_format_idc == 3 ==> profile.pixel_format.divisors() == (
                1u32,
                1u32,
            )
            &&& profile.bit_depth is Eight <==> sps.chroma.bit_depth_luma_minus8 + 8 == 8
            &&& profile.bit_depth is Ten <==> sps.chroma.bit_depth_luma_minus8 + 8 == 10
        },
        profile_of(sps) is Ok <==> {
            &&& sps.chroma.chroma_format_idc == 1 || sps.chroma.chroma_format_idc == 3
            &&& sps.chroma.bit_depth_luma_minus8 == 0 || sps.chroma.bit_depth_luma_minus8 == 2
            &&& !sps.chroma.seq_scaling_matrix_present_flag
            &&& sps.profile_idc == 66 || sps.profile_idc == 77 || sps.profile_idc == 100
                || sps.profile_idc == 244
        },
        profile_of(sps) matches Err(InvalidInput::UnsupportedChromaFormat(idc)) ==> idc
            == sps.chroma.chroma_format_idc && idc != 1 && idc != 3,
        profile_of(sps) matches Err(InvalidInput::UnsupportedLumaDepth(depth)) ==> depth
            == sps.chroma.bit_depth_luma_minus8 + 8 && depth != 8 && depth != 10,
        profile_of(sps) matches Err(InvalidInput::UnsupportedProfile(idc)) ==> idc
            == sps.profile_idc && profile_number(idc) is None,
        profile_of(sps) == Err::<DecodeProfile, InvalidInput>(InvalidInput::ScalingMatrices)
            ==> sps.chroma.seq_scaling_matrix_present_flag,
{
}

/// There is a plan for a stream exactly where its profile is known, no scaling
/// matrices are brought, its pictures are no larger than the device allows once they
/// are rounded up, and its references and the current picture find room.
pub proof fn law_plan_exists_where_it_can(
    sps: SpsView,
    pps: Pps,
    caps: DecodeCaps,
    output_depth: usize,
    unified_layouts: bool,
    refs: int,
)
    requires
        refs == sps.frame.max_num_ref_frames || refs == 1 && sps.frame.max_num_ref_frames == 0,
        refs > 0,
    ensures
        plan_of(sps, pps, caps, output_depth, unified_layouts) is Ok <==> {
            &&& !pps.pic_scaling_matrix_present_flag
            &&& profile_of(sps) is Ok
            &&& aligned(sps.coded_width(), at_least_one(caps.granularity_width as int))
                <= caps.max_coded_width
            &&& aligned(sps.coded_height(), at_least_one(caps.granularity_height as int))
                <= caps.max_coded_height
            &&& refs + 1 <= caps.max_dpb_slots
            &&& refs + 1 <= 17
            &&& refs <= caps.max_active_reference_pictures
        },
{
}

/// A plan follows the device and the stream: pictures are rounded up by less than
/// one step of the device, and alignments are at least one. The device says whether
/// it decodes straight into the DPB, and whether each slot has an image of its own.
/// Slots are spared only where pictures are handed out in place.
pub proof fn law_plan_follows_the_device(
    sps: SpsView,
    pps: Pps,
    caps: DecodeCaps,
    output_depth: usize,
    unified_layouts: bool,
)
    requires
        plan_fits(sps, caps),
        plan_of(sps, pps, caps, output_depth, unified_layouts) is Ok,
    ensures
        ({
            let plan = plan_of(sps, pps, caps, output_depth, unified_layouts)->Ok_0;
            &&& Ok::<DecodeProfile, InvalidInput>(plan.profile) == profile_of(sps)
            &&& plan.coded_width < sps.coded_width() + at_least_one(
                caps.granularity_width as int,
            )
            &&& plan.coded_height < sps.coded_height() + at_least_one(
                caps.granularity_height as int,
            )
            &&& caps.granularity_width > 0 ==> plan.coded_width % caps.granularity_width == 0
            &&& caps.granularity_height > 0 ==> plan.coded_height % caps.granularity_height == 0
            &&& plan.coincide <==> caps.decode_flags % 2 == 1
            &&& plan.pinnable <==> plan.coincide && unified_layouts
            &&& plan.use_layered_dpb <==> (caps.flags / 2) % 2 == 0
            &&& plan.bitstream_offset_alignment >= 1
            &&& plan.bitstream_size_alignment >= 1
            &&& caps.min_bitstream_buffer_offset_alignment > 0 ==> plan.bitstream_offset_alignment
                == caps.min_bitstream_buffer_offset_alignment
            &&& caps.min_bitstream_buffer_size_alignment > 0 ==> plan.bitstream_size_alignment
                == caps.min_bitstream_buffer_size_alignment
            &&& plan.max_active_references + 1 + plan.spare_slots == plan.slot_count
            &&& !plan.pinnable ==> plan.spare_slots == 0
            &&& plan.spare_slots <= plan.reorder_depth + output_depth
            &&& plan.pinnable ==> plan.spare_slots == plan.reorder_depth + output_depth
                || plan.slot_count == caps.max_dpb_slots || plan.slot_count == 17
            &&& match sps.max_num_reorder_frames {
                Some(depth) => plan.reorder_depth == depth,
                None => plan.reorder_depth == sps.frame.max_num_ref_frames,
            }
        }),
{
    lemma_plan_fits(sps, caps);
    law_aligned(sps.coded_width(), at_least_one(caps.granularity_width as int));
    law_aligned(sps.coded_height(), at_least_one(caps.granularity_height as int));
    let decode_flags = caps.decode_flags;
    let flags = caps.flags;
    assert(decode_flags & 0x1 == 0x1 <==> decode_flags % 2 == 1) by (bit_vector);
    assert(flags & 0x2 != 0x2 <==> (flags / 2) % 2 == 0) by (bit_vector);
}

/// A flag as a number.
pub open spec fn flag_value(flag: bool) -> int {
    if flag {
        1
    } else {
        0
    }
}

/// The driver is told of a sequence parameter set what was sent: its constraint
/// flags are the bits of their byte from the highest down, and every other field
/// has the value it had.
pub proof fn law_driver_gets_the_sps(sps: SpsView, std: StdSps)
    requires
        std_sps_of(sps) == Ok::<StdSps, InvalidInput>(std),
        sps.poc.offsets_for_ref_frame.len() <= 255,
    ensures
        sps.constraint_set_flags == 128 * flag_value(std.constraint_set0_flag) + 64 * flag_value(
            std.constraint_set1_flag,
        ) + 32 * flag_value(std.constraint_set2_flag) + 16 * flag_value(std.constraint_set3_flag)
            + 8 * flag_value(std.constraint_set4_flag) + 4 * flag_value(std.constraint_set5_flag)
            + sps.constraint_set_flags % 4,
        std.profile_idc == sps.profile_idc,
        std.level_idc == level_number(sps.level_idc),
        std.seq_parameter_set_id == sps.sps_id,
        std.chroma_format_idc == sps.chroma.chroma_format_idc,
        std.separate_colour_plane_flag == sps.chroma.separate_colour_plane_flag,
        std.bit_depth_luma_minus8 == sps.chroma.bit_depth_luma_minus8,
        std.bit_depth_chroma_minus8 == sps.chroma.bit_depth_chroma_minus8,
        std.qpprime_y_zero_transform_bypass_flag
            == sps.chroma.qpprime_y_zero_transform_bypass_flag,
        !std.seq_scaling_matrix_present_flag && !std.vui_parameters_present_flag,
        std.log2_max_frame_num_minus4 == sps.log2_max_frame_num_minus4,
        std.pic_order_cnt_type == sps.poc.pic_order_cnt_type,
        std.log2_max_pic_order_cnt_lsb_minus4 == sps.poc.log2_max_pic_order_cnt_lsb_minus4,
        std.delta_pic_order_always_zero_flag == sps.poc.delta_pic_order_always_zero_flag,
        std.offset_for_non_ref_pic == sps.poc.offset_for_non_ref_pic,
        std.offset_for_top_to_bottom_field == sps.poc.offset_for_top_to_bottom_field,
        std.num_ref_frames_in_pic_order_cnt_cycle == sps.poc.offsets_for_ref_frame.len(),
        std.max_num_ref_frames == sps.frame.max_num_ref_frames,
        std.gaps_in_frame_num_value_allowed_flag
            == sps.frame.gaps_in_frame_num_value_allowed_flag,
        std.pic_width_in_mbs_minus1 == sps.frame.pic_width_in_mbs_minus1,
        std.pic_height_in_map_units_minus1 == sps.frame.pic_height_in_map_units_minus1,
        std.frame_mbs_only_flag == sps.frame.frame_mbs_only_flag,
        std.mb_adaptive_frame_field_flag == sps.frame.mb_adaptive_frame_field_flag,
        std.direct_8x8_inference_flag == sps.frame.direct_8x8_inference_flag,
        std.frame_cropping_flag == sps.frame.frame_cropping_flag,
        std.frame_crop_left_offset == sps.frame.frame_crop_left_offset,
        std.frame_crop_right_offset == sps.frame.frame_crop_right_offset,
        std.frame_crop_top_offset == sps.frame.frame_crop_top_offset,
        std.frame_crop_bottom_offset == sps.frame.frame_crop_bottom_offset,
{
    let b = sps.constraint_set_flags;
    assert(b == 128 * ((b >> 7) & 1) + 64 * ((b >> 6) & 1) + 32 * ((b >> 5) & 1) + 16 * ((b >> 4)
        & 1) + 8 * ((b >> 3) & 1) + 4 * ((b >> 2) & 1) + b % 4 && (b >> 7) & 1 <= 1 && (b >> 6) & 1
        <= 1 && (b >> 5) & 1 <= 1 && (b >> 4) & 1 <= 1 && (b >> 3) & 1 <= 1 && (b >> 2) & 1 <= 1)
        by (bit_vector);
}

/// The driver is told of a picture parameter set what was sent.
pub proof fn law_driver_gets_the_pps(pps: Pps)
    ensures
        ({
            let std = std_pps_of(pps);
            &&& std.pic_parameter_set_id == pps.pps_id
            &&& std.seq_parameter_set_id == pps.sps_id
            &&& std.entropy_coding_mode_flag == pps.entropy_coding_mode_flag
            &&& std.bottom_field_pic_order_in_frame_present_flag
                == pps.bottom_field_pic_order_in_frame_present_flag
            &&& std.num_ref_idx_l0_default_active_minus1
                == pps.num_ref_idx_l0_default_active_minus1
            &&& std.num_ref_idx_l1_default_active_minus1
                == pps.num_ref_idx_l1_default_active_minus1
            &&& std.weighted_pred_flag == pps.weighted_pred_flag
            &&& std.weighted_bipred_idc == pps.weighted_bipred_idc
            &&& std.pic_init_qp_minus26 == pps.pic_init_qp_minus26
            &&& std.pic_init_qs_minus26 == pps.pic_init_qs_minus26
            &&& std.chroma_qp_index_offset == pps.chroma_qp_index_offset
            &&& std.second_chroma_qp_index_offset == pps.second_chroma_qp_index_offset
            &&& std.deblocking_filter_control_present_flag
                == pps.deblocking_filter_control_present_flag
            &&& std.constrained_intra_pred_flag == pps.constrained_intra_pred_flag
            &&& std.redundant_pic_cnt_present_flag == pps.redundant_pic_cnt_present_flag
            &&& std.transform_8x8_mode_flag == pps.transform_8x8_mode_flag
            &&& !std.pic_scaling_matrix_present_flag
        }),
{
}

/// The driver finds a reference where it lies, and by what it is known by: a
/// long-term reference by its index, a short-term one by its frame number.
pub proof fn law_driver_finds_references(r: RefPicture)
    requires
        r.long_term_frame_idx <= u16::MAX,
    ensures
        reference_info(r).slot == r.slot,
        reference_info(r).poc == r.poc,
        reference_info(r).used_for_long_term_reference <==> r.long_term,
        r.long_term ==> reference_info(r).frame_num == r.long_term_frame_idx,
        !r.long_term ==> reference_info(r).frame_num == r.frame_num,
{
}

/// The preferred format is picked wherever it is offered, as it is first offered;
/// the first offer is picked only where it is not.
pub proof fn law_preferred_format_is_picked(
    offered: Seq<VideoFormat>,
    preferred: i32,
    i: int,
)
    requires
        0 <= i < offered.len(),
    ensures
        offered.contains(picked(offered, preferred)),
        offered[i].format == preferred ==> picked(offered, preferred).format == preferred,
        offered[i].format == preferred && (forall|k: int|
            0 <= k < i ==> (#[trigger] offered[k]).format != preferred) ==> picked(
            offered,
            preferred,
        ) == offered[i],
        (forall|k: int| 0 <= k < offered.len() ==> (#[trigger] offered[k]).format != preferred)
            ==> picked(offered, preferred) == offered[0],
{
    let n = lemma_first_with_exists(offered, preferred);
    if n < offered.len() {
        assert(offered.contains(offered[n]));
    } else {
        assert(offered.contains(offered[0]));
    }
}

proof fn lemma_first_with_exists(offered: Seq<VideoFormat>, preferred: i32) -> (n: int)
    ensures
        n == first_with(offered, preferred),
        0 <= n <= offered.len(),
        forall|i: int| 0 <= i < n ==> (#[trigger] offered[i]).format != preferred,
        n < offered.len() ==> offered[n].format == preferred,
    decreases offered.len(),
{
    if offered.len() == 0 || offered[0].format == preferred {
        0
    } else {
        let rest = offered.skip(1);
        let k = lemma_first_with_exists(rest, preferred);
        assert forall|i: int| 0 <= i < k + 1 implies (#[trigger] offered[i]).format
            != preferred by {
            if i > 0 {
                assert(rest[i - 1] == offered[i]);
            }
        }
        k + 1
    }
}

/// Pictures of any size that leaves room for rounding up can be planned for.
pub proof fn law_ordinary_sizes_fit(sps: SpsView, caps: DecodeCaps)
    requires
        sps.coded_width() + caps.granularity_width <= u32::MAX,
        sps.coded_height() + caps.granularity_height <= u32::MAX,
        sps.coded_width() < u32::MAX && sps.coded_height() < u32::MAX,
    ensures
        plan_fits(sps, caps),
{
    law_aligned(sps.coded_width(), at_least_one(caps.granularity_width as int));
    law_aligned(sps.coded_height(), at_least_one(caps.granularity_height as int));
}

/// Whether a plan is one of the offers. Planes can be viewed where the driver lets
/// an image have another format.
pub open spec fn is_offered(offered: Seq<VideoFormat>, plan: FormatPlan) -> bool {
    exists|i: int|
        0 <= i < offered.len() && (#[trigger] offered[i]).format == plan.picture_format && (
        plan.plane_views <==> (offered[i].create_flags / 8) % 2 == 1)
}

/// Whether a format is offered.
pub open spec fn has_format(offered: Seq<VideoFormat>, format: i32) -> bool {
    exists|i: int| 0 <= i < offered.len() && (#[trigger] offered[i]).format == format
}

proof fn lemma_chosen(offered: Seq<VideoFormat>, preferred: i32, plan: FormatPlan)
    requires
        offered.len() > 0,
        plan.picture_format == picked(offered, preferred).format,
        plan.plane_views == (picked(offered, preferred).create_flags & CREATE_MUTABLE_FORMAT
            == CREATE_MUTABLE_FORMAT),
    ensures
        is_offered(offered, plan),
        has_format(offered, preferred) ==> plan.picture_format == preferred,
{
    let n = lemma_first_with_exists(offered, preferred);
    let at = if n < offered.len() {
        n
    } else {
        0
    };
    assert(picked(offered, preferred) == offered[at]);
    let flags = offered[at].create_flags;
    assert(flags & 0x8 == 0x8 <==> (flags / 8) % 2 == 1) by (bit_vector);
}

/// Formats that can be sampled are taken over those that cannot, which are taken
/// over none, and the preferred one among them over the others.
pub proof fn law_sampled_formats_come_first(
    sampled: Seq<VideoFormat>,
    plain: Seq<VideoFormat>,
    preferred: i32,
)
    ensures
        chosen(sampled, plain, preferred) is None <==> sampled.len() == 0 && plain.len() == 0,
        chosen(sampled, plain, preferred) matches Some(plan) ==> {
            &&& plan.sampleable <==> sampled.len() > 0
            &&& plan.sampleable ==> is_offered(sampled, plan)
            &&& plan.sampleable && has_format(sampled, preferred) ==> plan.picture_format
                == preferred
            &&& !plan.sampleable ==> is_offered(plain, plan)
            &&& !plan.sampleable && has_format(plain, preferred) ==> plan.picture_format
                == preferred
        },
{
    if let Some(plan) = chosen(sampled, plain, preferred) {
        if sampled.len() > 0 {
            lemma_chosen(sampled, preferred, plan);
        } else {
            lemma_chosen(plain, preferred, plan);
        }
    }
}

/// The driver is told of a picture what later pictures will be told of it: a picture
/// that stays a short-term reference is set up as the reference that it becomes. The
/// same holds of its own description, and every reference has its slot bound, with
/// one more for the picture itself.
pub proof fn law_driver_is_told_the_same_of_a_picture(
    dpb: DpbView,
    slot: u8,
    state: PictureView,
    sps: SpsView,
    sps_id: u8,
    pps_id: u8,
    i: int,
)
    requires
        state.is_reference,
        0 <= i < dpb.refs.len(),
    ensures
        ({
            let reference = ended(dpb, slot, state, sps).refs.last();
            let picture = picture_info(state, sps_id, pps_id);
            &&& !reference.long_term ==> reference_info(reference) == setup_info(state, slot)
            &&& !setup_info(state, slot).used_for_long_term_reference
            &&& picture.frame_num == setup_info(state, slot).frame_num
            &&& picture.poc == setup_info(state, slot).poc
            &&& picture.is_reference && picture.idr_pic_flag == state.is_idr
            &&& picture.is_intra == state.is_intra
            &&& picture.idr_pic_id == state.idr_pic_id
            &&& picture.seq_parameter_set_id == sps_id
            &&& picture.pic_parameter_set_id == pps_id
            &&& coding_slots(dpb.refs).len() == dpb.refs.len() + 1
            &&& coding_slots(dpb.refs)[i] == dpb.refs[i].slot
            &&& coding_slots(dpb.refs).last() == -1
        }),
{
}

/// A refusal names what was asked and what there is: the size of the pictures, the
/// slots or the references that the stream needs, and the limit of the device that
/// they exceed.
pub proof fn law_refusal_names_the_limit(
    sps: SpsView,
    pps: Pps,
    caps: DecodeCaps,
    output_depth: usize,
    unified_layouts: bool,
)
    requires
        plan_fits(sps, caps),
    ensures
        plan_of(sps, pps, caps, output_depth, unified_layouts) matches Err(
            InvalidInput::PictureSize { width, height, max_width, max_height },
        ) ==> {
            &&& sps.coded_width() <= width && sps.coded_height() <= height
            &&& width > max_width || height > max_height
            &&& max_width == caps.max_coded_width && max_height == caps.max_coded_height
        },
        plan_of(sps, pps, caps, output_depth, unified_layouts) matches Err(
            InvalidInput::DpbSlots { needed, supported },
        ) ==> {
            &&& needed == sps.frame.max_num_ref_frames + 1 || needed == 2
            &&& needed > sps.frame.max_num_ref_frames
            &&& supported == caps.max_dpb_slots
            &&& needed > supported || needed > 17
        },
        plan_of(sps, pps, caps, output_depth, unified_layouts) matches Err(
            InvalidInput::ActiveReferences { needed, supported },
        ) ==> {
            &&& needed == sps.frame.max_num_ref_frames || needed == 1
            &&& supported == caps.max_active_reference_pictures
            &&& needed > supported
        },
        pps.pic_scaling_matrix_present_flag ==> plan_of(
            sps,
            pps,
            caps,
            output_depth,
            unified_layouts,
        ) == Err::<StreamPlan, InvalidInput>(InvalidInput::ScalingMatrices),
        !pps.pic_scaling_matrix_present_flag ==> (profile_of(sps) matches Err(reason) ==> plan_of(
            sps,
            pps,
            caps,
            output_depth,
            unified_layouts,
        ) == Err::<StreamPlan, InvalidInput>(reason)),
{
    lemma_plan_fits(sps, caps);
}

} // verus!
