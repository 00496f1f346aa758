//! Minimal H.264 parsing: SPS, PPS and slice-header syntax.

use crate::decoder::bitreader::{cursor, payload_bits, reads, BitReader, Cursor};
use crate::decoder::h264::nal::{NalType, NalUnit};
use crate::decoder::h264::syntax::{
    chroma_info, dec_ref_pic_marking, frame_info, hrd, hrd_entries, lemma_error_stays,
    list_modification, list_modifications, marking_ops, mmco, no_marking, poc_info,
    pps_asks_chroma, pps_head, pps_second_offset, pps_syntax, pps_tail_flags, pred_weight_table,
    pred_weights, ref_pic_list_modification, scaling_list, scaling_lists, signed_values,
    slice_header, slice_identity, slice_marking, slice_order, slice_ref_counts, sps_syntax,
    vui_description, vui_reorder, vui_timing, ChromaInfo, FrameInfo, MarkingView, PocView,
    SliceHeaderView, SpsView,
};
pub use crate::decoder::h264::syntax::{Mmco, Pps, SliceType};
use crate::error::{InvalidInput, PixelForgeError};
use vstd::arithmetic::power2::{lemma2_to64, lemma_pow2_strictly_increases, pow2};
use vstd::prelude::*;

verus! {

/// Whether a parse that returned `result` and left the bits `after` unread did
/// what `want`, the place that the syntax says is reached, says.
pub open spec fn skips(
    result: Result<(), PixelForgeError>,
    after: Seq<bool>,
    want: Cursor,
) -> bool {
    reads(result, after, ((), want))
}

/// Whether a parse of a whole payload that returned `result` did what the syntax
/// says, `want` being the value and the place behind it.
pub open spec fn parses<T>(result: Result<T, PixelForgeError>, want: (T, Cursor)) -> bool {
    match result {
        Ok(value) => want.1.error is None && value == want.0,
        Err(error) => want.1.error == Some(error),
    }
}

proof fn lemma_scale(sum: int)
    ensures
        (sum + 0x1_0000_0000) % 256 == (sum + 256) % 256,
{
}

/// Skip a `scaling_list()` of `size` entries.
fn skip_scaling_list(r: &mut BitReader, size: usize) -> (result: Result<(), PixelForgeError>)
    ensures
        skips(result, final(r)@, scaling_list(cursor(old(r)@), size as nat, 8, 8)),
{
    let ghost start = cursor(r@);
    let mut last_scale: i64 = 8;
    let mut next_scale: i64 = 8;
    let mut i: usize = 0;
    while i < size
        invariant
            i <= size,
            0 < last_scale < 256,
            0 <= next_scale < 256,
            start == cursor(old(r)@),
            scaling_list(start, size as nat, 8, 8) == scaling_list(
                cursor(r@),
                (size - i) as nat,
                last_scale as int,
                next_scale as int,
            ),
        decreases size - i,
    {
        proof {
            reveal_with_fuel(scaling_list, 2);
        }
        if next_scale != 0 {
            let delta: i32 = r.se()?;
            // A multiple of 256 large enough for the sum not to be negative.
            next_scale = (last_scale + delta as i64 + 0x1_0000_0000) % 256;
            proof {
                lemma_scale(last_scale + delta);
            }
        }
        if next_scale != 0 {
            last_scale = next_scale;
        }
        i = i + 1;
    }
    Ok(())
}

/// Skip `count` scaling lists, each preceded by its present flag.
fn skip_scaling_lists(r: &mut BitReader, count: usize) -> (result: Result<(), PixelForgeError>)
    ensures
        skips(result, final(r)@, scaling_lists(cursor(old(r)@), 0, count as nat)),
{
    let ghost start = cursor(r@);
    let mut i: usize = 0;
    while i < count
        invariant
            i <= count,
            start == cursor(old(r)@),
            scaling_lists(start, 0, count as nat) == scaling_lists(
                cursor(r@),
                i as nat,
                count as nat,
            ),
        decreases count - i,
    {
        proof {
            reveal_with_fuel(scaling_lists, 2);
        }
        if r.flag()? {
            skip_scaling_list(r, if i < 6 { 16 } else { 64 })?;
        }
        i = i + 1;
    }
    Ok(())
}

/// Parsed H.264 sequence parameter set (the subset Vulkan decode needs).
#[derive(Debug, PartialEq, Eq)]
pub struct Sps {
    pub profile_idc: u8,
    pub constraint_set_flags: u8,
    pub level_idc: u8,
    pub sps_id: u8,
    pub chroma_format_idc: u8,
    pub separate_colour_plane_flag: bool,
    pub bit_depth_luma_minus8: u8,
    pub bit_depth_chroma_minus8: u8,
    pub qpprime_y_zero_transform_bypass_flag: bool,
    pub seq_scaling_matrix_present_flag: bool,
    pub log2_max_frame_num_minus4: u8,
    pub pic_order_cnt_type: u8,
    pub log2_max_pic_order_cnt_lsb_minus4: u8,
    pub delta_pic_order_always_zero_flag: bool,
    pub offset_for_non_ref_pic: i32,
    pub offset_for_top_to_bottom_field: i32,
    pub offsets_for_ref_frame: Vec<i32>,
    pub max_num_ref_frames: u8,
    pub gaps_in_frame_num_value_allowed_flag: bool,
    pub pic_width_in_mbs_minus1: u32,
    pub pic_height_in_map_units_minus1: u32,
    pub frame_mbs_only_flag: bool,
    pub mb_adaptive_frame_field_flag: bool,
    pub direct_8x8_inference_flag: bool,
    pub frame_cropping_flag: bool,
    pub frame_crop_left_offset: u32,
    pub frame_crop_right_offset: u32,
    pub frame_crop_top_offset: u32,
    pub frame_crop_bottom_offset: u32,
    /// `max_num_reorder_frames` from the VUI bitstream restriction, if present.
    ///
    /// The number of frames that may precede any frame in decode order yet
    /// follow it in display order, i.e. the reorder buffer depth. `None` when
    /// the stream does not signal it, in which case the decoder falls back to a
    /// conservative bound.
    pub max_num_reorder_frames: Option<u32>,
}

impl View for Sps {
    type V = SpsView;

    open spec fn view(&self) -> SpsView {
        SpsView {
            profile_idc: self.profile_idc,
            constraint_set_flags: self.constraint_set_flags,
            level_idc: self.level_idc,
            sps_id: self.sps_id,
            chroma: ChromaInfo {
                chroma_format_idc: self.chroma_format_idc,
                separate_colour_plane_flag: self.separate_colour_plane_flag,
                bit_depth_luma_minus8: self.bit_depth_luma_minus8,
                bit_depth_chroma_minus8: self.bit_depth_chroma_minus8,
                qpprime_y_zero_transform_bypass_flag: self.qpprime_y_zero_transform_bypass_flag,
                seq_scaling_matrix_present_flag: self.seq_scaling_matrix_present_flag,
            },
            log2_max_frame_num_minus4: self.log2_max_frame_num_minus4,
            poc: PocView {
                pic_order_cnt_type: self.pic_order_cnt_type,
                log2_max_pic_order_cnt_lsb_minus4: self.log2_max_pic_order_cnt_lsb_minus4,
                delta_pic_order_always_zero_flag: self.delta_pic_order_always_zero_flag,
                offset_for_non_ref_pic: self.offset_for_non_ref_pic,
                offset_for_top_to_bottom_field: self.offset_for_top_to_bottom_field,
                offsets_for_ref_frame: self.offsets_for_ref_frame@,
            },
            frame: FrameInfo {
                max_num_ref_frames: self.max_num_ref_frames,
                gaps_in_frame_num_value_allowed_flag: self.gaps_in_frame_num_value_allowed_flag,
                pic_width_in_mbs_minus1: self.pic_width_in_mbs_minus1,
                pic_height_in_map_units_minus1: self.pic_height_in_map_units_minus1,
                frame_mbs_only_flag: self.frame_mbs_only_flag,
                mb_adaptive_frame_field_flag: self.mb_adaptive_frame_field_flag,
                direct_8x8_inference_flag: self.direct_8x8_inference_flag,
                frame_cropping_flag: self.frame_cropping_flag,
                frame_crop_left_offset: self.frame_crop_left_offset,
                frame_crop_right_offset: self.frame_crop_right_offset,
                frame_crop_top_offset: self.frame_crop_top_offset,
                frame_crop_bottom_offset: self.frame_crop_bottom_offset,
            },
            max_num_reorder_frames: self.max_num_reorder_frames,
        }
    }
}

impl Clone for Sps {
    fn clone(&self) -> (copy: Self)
        ensures
            copy@ == self@,
    {
        Sps {
            profile_idc: self.profile_idc,
            constraint_set_flags: self.constraint_set_flags,
            level_idc: self.level_idc,
            sps_id: self.sps_id,
            chroma_format_idc: self.chroma_format_idc,
            separate_colour_plane_flag: self.separate_colour_plane_flag,
            bit_depth_luma_minus8: self.bit_depth_luma_minus8,
            bit_depth_chroma_minus8: self.bit_depth_chroma_minus8,
            qpprime_y_zero_transform_bypass_flag: self.qpprime_y_zero_transform_bypass_flag,
            seq_scaling_matrix_present_flag: self.seq_scaling_matrix_present_flag,
            log2_max_frame_num_minus4: self.log2_max_frame_num_minus4,
            pic_order_cnt_type: self.pic_order_cnt_type,
            log2_max_pic_order_cnt_lsb_minus4: self.log2_max_pic_order_cnt_lsb_minus4,
            delta_pic_order_always_zero_flag: self.delta_pic_order_always_zero_flag,
            offset_for_non_ref_pic: self.offset_for_non_ref_pic,
            offset_for_top_to_bottom_field: self.offset_for_top_to_bottom_field,
            offsets_for_ref_frame: self.offsets_for_ref_frame.clone(),
            max_num_ref_frames: self.max_num_ref_frames,
            gaps_in_frame_num_value_allowed_flag: self.gaps_in_frame_num_value_allowed_flag,
            pic_width_in_mbs_minus1: self.pic_width_in_mbs_minus1,
            pic_height_in_map_units_minus1: self.pic_height_in_map_units_minus1,
            frame_mbs_only_flag: self.frame_mbs_only_flag,
            mb_adaptive_frame_field_flag: self.mb_adaptive_frame_field_flag,
            direct_8x8_inference_flag: self.direct_8x8_inference_flag,
            frame_cropping_flag: self.frame_cropping_flag,
            frame_crop_left_offset: self.frame_crop_left_offset,
            frame_crop_right_offset: self.frame_crop_right_offset,
            frame_crop_top_offset: self.frame_crop_top_offset,
            frame_crop_bottom_offset: self.frame_crop_bottom_offset,
            max_num_reorder_frames: self.max_num_reorder_frames,
        }
    }
}

impl Default for Sps {
    /// An SPS with every field zero, false or empty.
    fn default() -> (sps: Self)
        ensures
            sps@ == (SpsView {
                profile_idc: 0,
                constraint_set_flags: 0,
                level_idc: 0,
                sps_id: 0,
                chroma: ChromaInfo {
                    chroma_format_idc: 0,
                    separate_colour_plane_flag: false,
                    bit_depth_luma_minus8: 0,
                    bit_depth_chroma_minus8: 0,
                    qpprime_y_zero_transform_bypass_flag: false,
                    seq_scaling_matrix_present_flag: false,
                },
                log2_max_frame_num_minus4: 0,
                poc: PocView {
                    pic_order_cnt_type: 0,
                    log2_max_pic_order_cnt_lsb_minus4: 0,
                    delta_pic_order_always_zero_flag: false,
                    offset_for_non_ref_pic: 0,
                    offset_for_top_to_bottom_field: 0,
                    offsets_for_ref_frame: Seq::empty(),
                },
                frame: FrameInfo {
                    max_num_ref_frames: 0,
                    gaps_in_frame_num_value_allowed_flag: false,
                    pic_width_in_mbs_minus1: 0,
                    pic_height_in_map_units_minus1: 0,
                    frame_mbs_only_flag: false,
                    mb_adaptive_frame_field_flag: false,
                    direct_8x8_inference_flag: false,
                    frame_cropping_flag: false,
                    frame_crop_left_offset: 0,
                    frame_crop_right_offset: 0,
                    frame_crop_top_offset: 0,
                    frame_crop_bottom_offset: 0,
                },
                max_num_reorder_frames: None,
            }),
    {
        Sps {
            profile_idc: 0,
            constraint_set_flags: 0,
            level_idc: 0,
            sps_id: 0,
            chroma_format_idc: 0,
            separate_colour_plane_flag: false,
            bit_depth_luma_minus8: 0,
            bit_depth_chroma_minus8: 0,
            qpprime_y_zero_transform_bypass_flag: false,
            seq_scaling_matrix_present_flag: false,
            log2_max_frame_num_minus4: 0,
            pic_order_cnt_type: 0,
            log2_max_pic_order_cnt_lsb_minus4: 0,
            delta_pic_order_always_zero_flag: false,
            offset_for_non_ref_pic: 0,
            offset_for_top_to_bottom_field: 0,
            offsets_for_ref_frame: Vec::new(),
            max_num_ref_frames: 0,
            gaps_in_frame_num_value_allowed_flag: false,
            pic_width_in_mbs_minus1: 0,
            pic_height_in_map_units_minus1: 0,
            frame_mbs_only_flag: false,
            mb_adaptive_frame_field_flag: false,
            direct_8x8_inference_flag: false,
            frame_cropping_flag: false,
            frame_crop_left_offset: 0,
            frame_crop_right_offset: 0,
            frame_crop_top_offset: 0,
            frame_crop_bottom_offset: 0,
            max_num_reorder_frames: None,
        }
    }
}

/// One shifted left by `n` places.
fn power_of_two(n: u32) -> (power: u32)
    requires
        n < 32,
    ensures
        power == pow2(n as nat),
{
    proof {
        lemma2_to64();
        if n < 31 {
            lemma_pow2_strictly_increases(n as nat, 31);
        }
        vstd::bits::lemma_u32_shl_is_mul(1, n);
    }
    1 << n
}

impl Sps {
    /// Coded width in pixels (before cropping).
    pub fn coded_width(&self) -> (width: u32)
        requires
            self@.coded_width() <= u32::MAX,
        ensures
            width == self@.coded_width(),
    {
        (self.pic_width_in_mbs_minus1 + 1) * 16
    }

    /// Coded height in pixels (before cropping).
    pub fn coded_height(&self) -> (height: u32)
        requires
            self@.coded_height() <= u32::MAX,
        ensures
            height == self@.coded_height(),
    {
        let map_units: u32 = self.pic_height_in_map_units_minus1 + 1;
        let frame_height_in_mbs: u32 = if self.frame_mbs_only_flag {
            map_units
        } else {
            map_units * 2
        };
        frame_height_in_mbs * 16
    }

    /// Whether the picture size and what is cropped from it fit in a `u32`, which
    /// [`Self::display_dimensions`] needs.
    pub fn dimensions_fit(&self) -> (fit: bool)
        ensures
            fit == (self@.coded_width() <= u32::MAX && self@.coded_height() <= u32::MAX
                && self@.cropped_columns() <= u32::MAX && self@.cropped_rows() <= u32::MAX),
    {
        let max: u64 = u32::MAX as u64;
        let width: u64 = (self.pic_width_in_mbs_minus1 as u64 + 1) * 16;
        let fields: u64 = if self.frame_mbs_only_flag {
            1
        } else {
            2
        };
        let height: u64 = (self.pic_height_in_map_units_minus1 as u64 + 1) * 16 * fields;
        let (crop_x, crop_y): (u64, u64) = match self.chroma_format_idc {
            0 => (1, 1),
            1 => (2, 2),
            2 => (2, 1),
            _ => (1, 1),
        };
        let across: u64 = self.frame_crop_left_offset as u64 + self.frame_crop_right_offset as u64;
        let down: u64 = self.frame_crop_top_offset as u64 + self.frame_crop_bottom_offset as u64;
        let unit: u64 = crop_y * fields;
        assert(crop_x * across <= 2 * across && unit * down <= 4 * down) by (nonlinear_arith)
            requires
                crop_x <= 2,
                unit <= 4,
        ;
        let columns: u64 = if self.frame_cropping_flag {
            crop_x * across
        } else {
            0
        };
        let rows: u64 = if self.frame_cropping_flag {
            unit * down
        } else {
            0
        };
        width <= max && height <= max && columns <= max && rows <= max
    }

    /// Display (cropped) dimensions.
    pub fn display_dimensions(&self) -> (dimensions: (u32, u32))
        requires
            self@.coded_width() <= u32::MAX,
            self@.coded_height() <= u32::MAX,
            self@.cropped_columns() <= u32::MAX,
            self@.cropped_rows() <= u32::MAX,
        ensures
            dimensions.0 == vstd::math::max(self@.coded_width() - self@.cropped_columns(), 0),
            dimensions.1 == vstd::math::max(self@.coded_height() - self@.cropped_rows(), 0),
    {
        let mut width: u32 = self.coded_width();
        let mut height: u32 = self.coded_height();
        if self.frame_cropping_flag {
            let (crop_x, crop_y): (u32, u32) = match self.chroma_format_idc {
                0 => (1, 1),
                1 => (2, 2),
                2 => (2, 1),
                _ => (1, 1),
            };
            let crop_y: u32 = crop_y * if self.frame_mbs_only_flag { 1 } else { 2 };
            width = width.saturating_sub(
                crop_x * (self.frame_crop_left_offset + self.frame_crop_right_offset),
            );
            height = height.saturating_sub(
                crop_y * (self.frame_crop_top_offset + self.frame_crop_bottom_offset),
            );
        }
        (width, height)
    }

    /// `MaxFrameNum`: `frame_num` counts modulo this.
    pub fn max_frame_num(&self) -> (max: u32)
        requires
            self.log2_max_frame_num_minus4 < 28,
        ensures
            max == self@.max_frame_num(),
    {
        power_of_two(self.log2_max_frame_num_minus4 as u32 + 4)
    }

    /// `MaxPicOrderCntLsb`: `pic_order_cnt_lsb` counts modulo this.
    pub fn max_pic_order_cnt_lsb(&self) -> (max: u32)
        requires
            self.log2_max_pic_order_cnt_lsb_minus4 < 28,
        ensures
            max == self@.max_pic_order_cnt_lsb(),
    {
        power_of_two(self.log2_max_pic_order_cnt_lsb_minus4 as u32 + 4)
    }
}

/// Parse the sample format of a sequence of the given profile.
fn parse_chroma_info(r: &mut BitReader, profile_idc: u8) -> (result: Result<
    ChromaInfo,
    PixelForgeError,
>)
    ensures
        reads(result, final(r)@, chroma_info(cursor(old(r)@), profile_idc)),
{
    let mut info = ChromaInfo {
        chroma_format_idc: 1,
        separate_colour_plane_flag: false,
        bit_depth_luma_minus8: 0,
        bit_depth_chroma_minus8: 0,
        qpprime_y_zero_transform_bypass_flag: false,
        seq_scaling_matrix_present_flag: false,
    };
    // High-profile family carries chroma/bit-depth syntax.
    if matches!(
        profile_idc,
        100 | 110 | 122 | 244 | 44 | 83 | 86 | 118 | 128 | 138 | 139 | 134 | 135
    ) {
        info.chroma_format_idc = r.ue()? as u8;
        if info.chroma_format_idc == 3 {
            info.separate_colour_plane_flag = r.flag()?;
        }
        info.bit_depth_luma_minus8 = r.ue()? as u8;
        info.bit_depth_chroma_minus8 = r.ue()? as u8;
        info.qpprime_y_zero_transform_bypass_flag = r.flag()?;
        info.seq_scaling_matrix_present_flag = r.flag()?;
        if info.seq_scaling_matrix_present_flag {
            skip_scaling_lists(r, if info.chroma_format_idc == 3 { 12 } else { 8 })?;
        }
    }
    Ok(info)
}

/// How a sequence codes picture order counts.
struct PocInfo {
    pic_order_cnt_type: u8,
    log2_max_pic_order_cnt_lsb_minus4: u8,
    delta_pic_order_always_zero_flag: bool,
    offset_for_non_ref_pic: i32,
    offset_for_top_to_bottom_field: i32,
    offsets_for_ref_frame: Vec<i32>,
}

impl View for PocInfo {
    type V = PocView;

    closed spec fn view(&self) -> PocView {
        PocView {
            pic_order_cnt_type: self.pic_order_cnt_type,
            log2_max_pic_order_cnt_lsb_minus4: self.log2_max_pic_order_cnt_lsb_minus4,
            delta_pic_order_always_zero_flag: self.delta_pic_order_always_zero_flag,
            offset_for_non_ref_pic: self.offset_for_non_ref_pic,
            offset_for_top_to_bottom_field: self.offset_for_top_to_bottom_field,
            offsets_for_ref_frame: self.offsets_for_ref_frame@,
        }
    }
}

/// The outcome of a parse, with the value that it returned replaced by its view.
pub open spec fn viewed<T: View>(result: Result<T, PixelForgeError>) -> Result<
    T::V,
    PixelForgeError,
> {
    match result {
        Ok(value) => Ok(value@),
        Err(error) => Err(error),
    }
}

/// Parse how a sequence codes picture order counts.
fn parse_poc_info(r: &mut BitReader) -> (result: Result<PocInfo, PixelForgeError>)
    ensures
        reads(viewed(result), final(r)@, poc_info(cursor(old(r)@))),
{
    let mut info = PocInfo {
        pic_order_cnt_type: r.ue()? as u8,
        log2_max_pic_order_cnt_lsb_minus4: 0,
        delta_pic_order_always_zero_flag: false,
        offset_for_non_ref_pic: 0,
        offset_for_top_to_bottom_field: 0,
        offsets_for_ref_frame: Vec::new(),
    };
    match info.pic_order_cnt_type {
        0 => {
            info.log2_max_pic_order_cnt_lsb_minus4 = r.ue()? as u8;
        },
        1 => {
            info.delta_pic_order_always_zero_flag = r.flag()?;
            info.offset_for_non_ref_pic = r.se()?;
            info.offset_for_top_to_bottom_field = r.se()?;
            let num: u32 = r.ue()?;
            info.offsets_for_ref_frame = parse_signed_values(r, num)?;
        },
        2 => {},
        other => {
            return Err(PixelForgeError::InvalidInput(InvalidInput::PicOrderCntType(other)));
        },
    }
    Ok(info)
}

/// Parse `n` signed values.
fn parse_signed_values(r: &mut BitReader, n: u32) -> (result: Result<Vec<i32>, PixelForgeError>)
    ensures
        reads(viewed(result), final(r)@, signed_values(cursor(old(r)@), n as nat, Seq::empty())),
{
    let ghost start = cursor(r@);
    let mut values: Vec<i32> = Vec::new();
    let mut i: u32 = 0;
    while i < n
        invariant
            i <= n,
            start == cursor(old(r)@),
            signed_values(start, n as nat, Seq::empty()) == signed_values(
                cursor(r@),
                (n - i) as nat,
                values@,
            ),
        decreases n - i,
    {
        proof {
            reveal_with_fuel(signed_values, 2);
        }
        values.push(r.se()?);
        i = i + 1;
    }
    Ok(values)
}

/// Parse the picture geometry and reference count of a sequence.
fn parse_frame_info(r: &mut BitReader) -> (result: Result<FrameInfo, PixelForgeError>)
    ensures
        reads(result, final(r)@, frame_info(cursor(old(r)@))),
{
    let max_num_ref_frames: u8 = r.ue()? as u8;
    let gaps_in_frame_num_value_allowed_flag = r.flag()?;
    let pic_width_in_mbs_minus1: u32 = r.ue()?;
    let pic_height_in_map_units_minus1: u32 = r.ue()?;
    let frame_mbs_only_flag = r.flag()?;
    let mut mb_adaptive_frame_field_flag = false;
    if !frame_mbs_only_flag {
        mb_adaptive_frame_field_flag = r.flag()?;
    }
    let direct_8x8_inference_flag = r.flag()?;
    let frame_cropping_flag = r.flag()?;
    let mut frame_crop_left_offset: u32 = 0;
    let mut frame_crop_right_offset: u32 = 0;
    let mut frame_crop_top_offset: u32 = 0;
    let mut frame_crop_bottom_offset: u32 = 0;
    if frame_cropping_flag {
        frame_crop_left_offset = r.ue()?;
        frame_crop_right_offset = r.ue()?;
        frame_crop_top_offset = r.ue()?;
        frame_crop_bottom_offset = r.ue()?;
    }
    Ok(
        FrameInfo {
            max_num_ref_frames,
            gaps_in_frame_num_value_allowed_flag,
            pic_width_in_mbs_minus1,
            pic_height_in_map_units_minus1,
            frame_mbs_only_flag,
            mb_adaptive_frame_field_flag,
            direct_8x8_inference_flag,
            frame_cropping_flag,
            frame_crop_left_offset,
            frame_crop_right_offset,
            frame_crop_top_offset,
            frame_crop_bottom_offset,
        },
    )
}

/// Parse `hrd_parameters()` (Annex E.1.2). Consumed only to advance past it.
fn parse_hrd(r: &mut BitReader) -> (result: Result<(), PixelForgeError>)
    ensures
        skips(result, final(r)@, hrd(cursor(old(r)@))),
{
    let cpb_cnt_minus1: u32 = r.ue()?;
    let _bit_rate_scale: u32 = r.bits(4)?;
    let _cpb_size_scale: u32 = r.bits(4)?;
    skip_hrd_entries(r, cpb_cnt_minus1 as u64 + 1)?;
    let _initial_cpb_removal_delay_length_minus1: u32 = r.bits(5)?;
    let _cpb_removal_delay_length_minus1: u32 = r.bits(5)?;
    let _dpb_output_delay_length_minus1: u32 = r.bits(5)?;
    let _time_offset_length: u32 = r.bits(5)?;
    Ok(())
}

/// Skip `n` entries of `hrd_parameters()`.
fn skip_hrd_entries(r: &mut BitReader, n: u64) -> (result: Result<(), PixelForgeError>)
    ensures
        skips(result, final(r)@, hrd_entries(cursor(old(r)@), n as nat)),
{
    let ghost start = cursor(r@);
    let mut i: u64 = 0;
    while i < n
        invariant
            i <= n,
            start == cursor(old(r)@),
            hrd_entries(start, n as nat) == hrd_entries(cursor(r@), (n - i) as nat),
        decreases n - i,
    {
        proof {
            reveal_with_fuel(hrd_entries, 2);
        }
        let _bit_rate_value_minus1: u32 = r.ue()?;
        let _cpb_size_value_minus1: u32 = r.ue()?;
        let _cbr_flag = r.flag()?;
        i = i + 1;
    }
    Ok(())
}

/// Skip the picture description at the head of `vui_parameters()`.
fn skip_vui_description(r: &mut BitReader) -> (result: Result<(), PixelForgeError>)
    ensures
        skips(result, final(r)@, vui_description(cursor(old(r)@))),
{
    if r.flag()? {
        // aspect_ratio_info_present_flag
        let aspect_ratio_idc: u32 = r.bits(8)?;
        // Extended_SAR
        if aspect_ratio_idc == 255 {
            let _sar_width: u32 = r.bits(16)?;
            let _sar_height: u32 = r.bits(16)?;
        }
    }
    if r.flag()? {
        // overscan_appropriate_flag
        let _overscan_appropriate_flag = r.flag()?;
    }
    if r.flag()? {
        // video_signal_type_present_flag
        let _video_format: u32 = r.bits(3)?;
        let _video_full_range_flag = r.flag()?;
        if r.flag()? {
            // colour_description_present_flag
            let _colour_primaries: u32 = r.bits(8)?;
            let _transfer_characteristics: u32 = r.bits(8)?;
            let _matrix_coefficients: u32 = r.bits(8)?;
        }
    }
    Ok(())
}

/// Skip the location and timing part of `vui_parameters()`.
fn skip_vui_timing(r: &mut BitReader) -> (result: Result<(), PixelForgeError>)
    ensures
        skips(result, final(r)@, vui_timing(cursor(old(r)@))),
{
    if r.flag()? {
        // chroma_loc_info_present_flag
        let _top: u32 = r.ue()?;
        let _bottom: u32 = r.ue()?;
    }
    if r.flag()? {
        // timing_info_present_flag
        let _num_units_in_tick: u32 = r.bits(32)?;
        let _time_scale: u32 = r.bits(32)?;
        let _fixed_frame_rate_flag = r.flag()?;
    }
    let nal_hrd = r.flag()?;
    if nal_hrd {
        parse_hrd(r)?;
    }
    let vcl_hrd = r.flag()?;
    if vcl_hrd {
        parse_hrd(r)?;
    }
    if nal_hrd || vcl_hrd {
        let _low_delay_hrd_flag = r.flag()?;
    }
    let _pic_struct_present_flag = r.flag()?;
    Ok(())
}

/// Parse `vui_parameters()` (Annex E.1.1) far enough to recover
/// `max_num_reorder_frames`. Every field before it is parsed only to advance.
fn parse_vui_reorder(r: &mut BitReader) -> (result: Result<Option<u32>, PixelForgeError>)
    ensures
        reads(result, final(r)@, vui_reorder(cursor(old(r)@))),
{
    skip_vui_description(r)?;
    skip_vui_timing(r)?;
    if r.flag()? {
        // bitstream_restriction_flag
        let _motion_vectors_over_pic_boundaries_flag = r.flag()?;
        let _max_bytes_per_pic_denom: u32 = r.ue()?;
        let _max_bits_per_mb_denom: u32 = r.ue()?;
        let _log2_max_mv_length_horizontal: u32 = r.ue()?;
        let _log2_max_mv_length_vertical: u32 = r.ue()?;
        let max_num_reorder_frames: u32 = r.ue()?;
        let _max_dec_frame_buffering: u32 = r.ue()?;
        return Ok(Some(max_num_reorder_frames));
    }
    Ok(None)
}

/// Parse an SPS NAL payload (EBSP, after the NAL header byte).
pub fn parse_sps(payload: &[u8]) -> (result: Result<Sps, PixelForgeError>)
    ensures
        parses(viewed(result), sps_syntax(cursor(payload_bits(payload@)))),
{
    proof {
        reveal(sps_syntax);
    }
    let mut r = BitReader::new(payload);
    let profile_idc: u8 = r.bits(8)? as u8;
    let constraint_set_flags: u8 = r.bits(8)? as u8;
    let level_idc: u8 = r.bits(8)? as u8;
    let sps_id: u8 = r.ue()? as u8;
    let chroma = parse_chroma_info(&mut r, profile_idc)?;
    let log2_max_frame_num_minus4: u8 = r.ue()? as u8;
    let poc = parse_poc_info(&mut r)?;
    let frame = parse_frame_info(&mut r)?;

    // The only VUI field the decoder needs is max_num_reorder_frames, which
    // sits at the very end (in the bitstream restriction). Everything before it
    // must be parsed to get there; a malformed/truncated VUI just leaves the
    // value unset and the decoder falls back to a conservative bound.
    let mut max_num_reorder_frames: Option<u32> = None;
    if let Ok(true) = r.flag() {
        if let Ok(reorder) = parse_vui_reorder(&mut r) {
            max_num_reorder_frames = reorder;
        }
    }
    Ok(
        Sps {
            profile_idc,
            constraint_set_flags,
            level_idc,
            sps_id,
            chroma_format_idc: chroma.chroma_format_idc,
            separate_colour_plane_flag: chroma.separate_colour_plane_flag,
            bit_depth_luma_minus8: chroma.bit_depth_luma_minus8,
            bit_depth_chroma_minus8: chroma.bit_depth_chroma_minus8,
            qpprime_y_zero_transform_bypass_flag: chroma.qpprime_y_zero_transform_bypass_flag,
            seq_scaling_matrix_present_flag: chroma.seq_scaling_matrix_present_flag,
            log2_max_frame_num_minus4,
            pic_order_cnt_type: poc.pic_order_cnt_type,
            log2_max_pic_order_cnt_lsb_minus4: poc.log2_max_pic_order_cnt_lsb_minus4,
            delta_pic_order_always_zero_flag: poc.delta_pic_order_always_zero_flag,
            offset_for_non_ref_pic: poc.offset_for_non_ref_pic,
            offset_for_top_to_bottom_field: poc.offset_for_top_to_bottom_field,
            offsets_for_ref_frame: poc.offsets_for_ref_frame,
            max_num_ref_frames: frame.max_num_ref_frames,
            gaps_in_frame_num_value_allowed_flag: frame.gaps_in_frame_num_value_allowed_flag,
            pic_width_in_mbs_minus1: frame.pic_width_in_mbs_minus1,
            pic_height_in_map_units_minus1: frame.pic_height_in_map_units_minus1,
            frame_mbs_only_flag: frame.frame_mbs_only_flag,
            mb_adaptive_frame_field_flag: frame.mb_adaptive_frame_field_flag,
            direct_8x8_inference_flag: frame.direct_8x8_inference_flag,
            frame_cropping_flag: frame.frame_cropping_flag,
            frame_crop_left_offset: frame.frame_crop_left_offset,
            frame_crop_right_offset: frame.frame_crop_right_offset,
            frame_crop_top_offset: frame.frame_crop_top_offset,
            frame_crop_bottom_offset: frame.frame_crop_bottom_offset,
            max_num_reorder_frames,
        },
    )
}

impl Default for Pps {
    /// A PPS with every field zero or false.
    fn default() -> (pps: Self)
        ensures
            pps == (Pps {
                pps_id: 0,
                sps_id: 0,
                entropy_coding_mode_flag: false,
                bottom_field_pic_order_in_frame_present_flag: false,
                num_slice_groups_minus1: 0,
                num_ref_idx_l0_default_active_minus1: 0,
                num_ref_idx_l1_default_active_minus1: 0,
                weighted_pred_flag: false,
                weighted_bipred_idc: 0,
                pic_init_qp_minus26: 0,
                pic_init_qs_minus26: 0,
                chroma_qp_index_offset: 0,
                deblocking_filter_control_present_flag: false,
                constrained_intra_pred_flag: false,
                redundant_pic_cnt_present_flag: false,
                transform_8x8_mode_flag: false,
                pic_scaling_matrix_present_flag: false,
                second_chroma_qp_index_offset: 0,
            }),
    {
        Pps {
            pps_id: 0,
            sps_id: 0,
            entropy_coding_mode_flag: false,
            bottom_field_pic_order_in_frame_present_flag: false,
            num_slice_groups_minus1: 0,
            num_ref_idx_l0_default_active_minus1: 0,
            num_ref_idx_l1_default_active_minus1: 0,
            weighted_pred_flag: false,
            weighted_bipred_idc: 0,
            pic_init_qp_minus26: 0,
            pic_init_qs_minus26: 0,
            chroma_qp_index_offset: 0,
            deblocking_filter_control_present_flag: false,
            constrained_intra_pred_flag: false,
            redundant_pic_cnt_present_flag: false,
            transform_8x8_mode_flag: false,
            pic_scaling_matrix_present_flag: false,
            second_chroma_qp_index_offset: 0,
        }
    }
}

/// Parse the mandatory fields of a PPS.
fn parse_pps_head(r: &mut BitReader) -> (result: Result<Pps, PixelForgeError>)
    ensures
        parses(result, pps_head(cursor(old(r)@))),
        result is Ok ==> final(r)@ == pps_head(cursor(old(r)@)).1.rest,
{
    let mut pps = Pps::default();
    pps.pps_id = r.ue()? as u8;
    pps.sps_id = r.ue()? as u8;
    pps.entropy_coding_mode_flag = r.flag()?;
    pps.bottom_field_pic_order_in_frame_present_flag = r.flag()?;
    pps.num_slice_groups_minus1 = r.ue()?;
    if pps.num_slice_groups_minus1 > 0 {
        // FMO is exotic and not supported by any Vulkan Video implementation.
        return Err(PixelForgeError::InvalidInput(InvalidInput::SliceGroups));
    }
    pps.num_ref_idx_l0_default_active_minus1 = r.ue()? as u8;
    pps.num_ref_idx_l1_default_active_minus1 = r.ue()? as u8;
    pps.weighted_pred_flag = r.flag()?;
    pps.weighted_bipred_idc = r.bits(2)? as u8;
    pps.pic_init_qp_minus26 = r.se()? as i8;
    pps.pic_init_qs_minus26 = r.se()? as i8;
    pps.chroma_qp_index_offset = r.se()? as i8;
    pps.deblocking_filter_control_present_flag = r.flag()?;
    pps.constrained_intra_pred_flag = r.flag()?;
    pps.redundant_pic_cnt_present_flag = r.flag()?;
    pps.second_chroma_qp_index_offset = pps.chroma_qp_index_offset;
    Ok(pps)
}

/// Parse the flags at the head of the optional part of a PPS.
fn parse_pps_tail_flags(r: &mut BitReader) -> (result: Result<(bool, bool), PixelForgeError>)
    ensures
        reads(result, final(r)@, pps_tail_flags(cursor(old(r)@))),
{
    let transform_8x8 = r.flag()?;
    let scaling = r.flag()?;
    Ok((transform_8x8, scaling))
}

/// Parse what follows the flags of the optional part of a PPS.
fn parse_pps_second_offset(
    r: &mut BitReader,
    scaling: bool,
    chroma_format_idc: Option<u8>,
) -> (result: Result<i8, PixelForgeError>)
    ensures
        reads(result, final(r)@, pps_second_offset(cursor(old(r)@), scaling, chroma_format_idc)),
{
    if scaling {
        let count: usize = match chroma_format_idc {
            Some(3) => 12,
            _ => 8,
        };
        skip_scaling_lists(r, count)?;
    }
    Ok(r.se()? as i8)
}

/// Parse a PPS NAL payload (EBSP, after the NAL header byte).
///
/// `sps_chroma_format_idc` gives the chroma format of the SPS with a given id,
/// where that is known. It is asked only for a PPS that carries scaling lists.
pub fn parse_pps(
    payload: &[u8],
    sps_chroma_format_idc: impl Fn(u8) -> Option<u8>,
) -> (result: Result<Pps, PixelForgeError>)
    requires
        forall|sps_id: u8| call_requires(sps_chroma_format_idc, (sps_id,)),
    ensures
        exists|chroma_format_idc: Option<u8>|
            {
                &&& #[trigger] parses(
                    result,
                    pps_syntax(cursor(payload_bits(payload@)), chroma_format_idc),
                )
                &&& pps_asks_chroma(cursor(payload_bits(payload@))) ==> call_ensures(
                    sps_chroma_format_idc,
                    (pps_head(cursor(payload_bits(payload@))).0.sps_id,),
                    chroma_format_idc,
                )
            },
{
    proof {
        reveal(pps_syntax);
    }
    let mut r = BitReader::new(payload);
    let ghost c = cursor(r@);
    let mut pps = match parse_pps_head(&mut r) {
        Ok(pps) => pps,
        Err(e) => {
            let result: Result<Pps, PixelForgeError> = Err(e);
            assert(parses(result, pps_syntax(c, None)));
            return result;
        },
    };

    // Optional trailing fields (present in High profile streams). Detect by
    // attempting to read; `more_rbsp_data` is approximated by whether reads
    // succeed and the stop bit hasn't been consumed. We conservatively try and
    // fall back to defaults on end-of-data.
    //
    // The RBSP stop bit is a `1` followed only by zero padding. If everything
    // after the first flag fails to parse, it was the stop bit.
    let flags = parse_pps_tail_flags(&mut r);
    let mut chroma_format_idc: Option<u8> = None;
    if let Ok((transform_8x8, scaling)) = flags {
        if scaling {
            chroma_format_idc = sps_chroma_format_idc(pps.sps_id);
        }
        if let Ok(second) = parse_pps_second_offset(&mut r, scaling, chroma_format_idc) {
            pps.transform_8x8_mode_flag = transform_8x8;
            pps.pic_scaling_matrix_present_flag = scaling;
            pps.second_chroma_qp_index_offset = second;
        }
    }
    let result: Result<Pps, PixelForgeError> = Ok(pps);
    assert(parses(result, pps_syntax(c, chroma_format_idc)));
    result
}

/// `dec_ref_pic_marking()` (clause 7.3.3.3).
///
/// Only present when `nal_ref_idc != 0`; a default value therefore means "this
/// picture is not a reference and marks nothing".
#[derive(Debug, PartialEq, Eq)]
pub struct RefPicMarking {
    /// IDR only: the IDR itself becomes a long-term reference.
    pub long_term_reference_flag: bool,
    /// IDR only. Retained for completeness; output order is not driven by it.
    pub no_output_of_prior_pics_flag: bool,
    /// Non-IDR: explicit marking is in use, so `ops` replaces the sliding
    /// window. When false the sliding-window process applies (clause 8.2.5.3).
    pub adaptive: bool,
    /// The MMCO ops, in bitstream order. Terminating op 0 is not stored.
    pub ops: Vec<Mmco>,
}

impl View for RefPicMarking {
    type V = MarkingView;

    open spec fn view(&self) -> MarkingView {
        MarkingView {
            long_term_reference_flag: self.long_term_reference_flag,
            no_output_of_prior_pics_flag: self.no_output_of_prior_pics_flag,
            adaptive: self.adaptive,
            ops: self.ops@,
        }
    }
}

impl Clone for RefPicMarking {
    fn clone(&self) -> (copy: Self)
        ensures
            copy@ == self@,
    {
        let copy = RefPicMarking {
            long_term_reference_flag: self.long_term_reference_flag,
            no_output_of_prior_pics_flag: self.no_output_of_prior_pics_flag,
            adaptive: self.adaptive,
            ops: self.ops.clone(),
        };
        assert(copy.ops@ =~= self.ops@);
        copy
    }
}

impl Default for RefPicMarking {
    /// A marking that marks nothing.
    fn default() -> (marking: Self)
        ensures
            marking@ == no_marking(),
    {
        RefPicMarking {
            long_term_reference_flag: false,
            no_output_of_prior_pics_flag: false,
            adaptive: false,
            ops: Vec::new(),
        }
    }
}

/// The slice-header fields needed for picture-level decode bookkeeping.
///
/// Parsing runs as far as `dec_ref_pic_marking()`, since reference marking is
/// the decoder's responsibility; the syntax in between is parsed only to reach
/// it. Everything after is consumed by the driver from the raw slice NAL.
#[derive(Debug)]
pub struct SliceHeader {
    pub first_mb_in_slice: u32,
    pub slice_type: SliceType,
    pub pps_id: u8,
    pub frame_num: u32,
    pub field_pic_flag: bool,
    pub idr_pic_id: u16,
    pub pic_order_cnt_lsb: u32,
    pub delta_pic_order_cnt: [i32; 2],
    pub marking: RefPicMarking,
}

impl View for SliceHeader {
    type V = SliceHeaderView;

    open spec fn view(&self) -> SliceHeaderView {
        SliceHeaderView {
            first_mb_in_slice: self.first_mb_in_slice,
            slice_type: self.slice_type,
            pps_id: self.pps_id,
            frame_num: self.frame_num,
            field_pic_flag: self.field_pic_flag,
            idr_pic_id: self.idr_pic_id,
            pic_order_cnt_lsb: self.pic_order_cnt_lsb,
            delta_pic_order_cnt: (self.delta_pic_order_cnt@[0], self.delta_pic_order_cnt@[1]),
            marking: self.marking@,
        }
    }
}

impl Clone for SliceHeader {
    fn clone(&self) -> (copy: Self)
        ensures
            copy@ == self@,
    {
        SliceHeader {
            first_mb_in_slice: self.first_mb_in_slice,
            slice_type: self.slice_type,
            pps_id: self.pps_id,
            frame_num: self.frame_num,
            field_pic_flag: self.field_pic_flag,
            idr_pic_id: self.idr_pic_id,
            pic_order_cnt_lsb: self.pic_order_cnt_lsb,
            delta_pic_order_cnt: self.delta_pic_order_cnt,
            marking: self.marking.clone(),
        }
    }
}

/// Parse the fields of a slice header up to and with `frame_num`.
fn parse_slice_identity(r: &mut BitReader, sps: &Sps) -> (result: Result<
    (u32, SliceType, u8, u32),
    PixelForgeError,
>)
    ensures
        reads(result, final(r)@, slice_identity(cursor(old(r)@), sps@)),
{
    proof {
        reveal(slice_identity);
    }
    let first_mb_in_slice: u32 = r.ue()?;
    let slice_type_raw: u32 = r.ue()?;
    let slice_type = match slice_type_raw % 5 {
        0 => SliceType::P,
        1 => SliceType::B,
        2 => SliceType::I,
        3 => SliceType::Sp,
        _ => SliceType::Si,
    };
    let pps_id: u8 = r.ue()? as u8;
    if sps.separate_colour_plane_flag {
        let _colour_plane_id: u32 = r.bits(2)?;
    }
    let frame_num: u32 = r.bits(sps.log2_max_frame_num_minus4 as u32 + 4)?;
    Ok((first_mb_in_slice, slice_type, pps_id, frame_num))
}

/// Parse the fields of a slice header that order its picture.
fn parse_slice_order(
    r: &mut BitReader,
    idr: bool,
    sps: &Sps,
    pps: &Pps,
) -> (result: Result<(bool, u16, u32, (i32, i32)), PixelForgeError>)
    ensures
        reads(result, final(r)@, slice_order(cursor(old(r)@), idr, sps@, *pps)),
{
    proof {
        reveal(slice_order);
    }
    // Field coding is rejected before decode; bottom_field_flag is parsed only
    // to stay bit-aligned, never stored.
    let mut field_pic_flag = false;
    if !sps.frame_mbs_only_flag {
        field_pic_flag = r.flag()?;
        if field_pic_flag {
            let _bottom_field_flag = r.flag()?;
        }
    }
    let mut idr_pic_id: u16 = 0;
    if idr {
        idr_pic_id = r.ue()? as u16;
    }
    let bottom = pps.bottom_field_pic_order_in_frame_present_flag && !field_pic_flag;
    let mut pic_order_cnt_lsb: u32 = 0;
    let mut delta: (i32, i32) = (0, 0);
    if sps.pic_order_cnt_type == 0 {
        pic_order_cnt_lsb = r.bits(sps.log2_max_pic_order_cnt_lsb_minus4 as u32 + 4)?;
        if bottom {
            // Bottom-field POC delta: parsed for alignment, unused for frames.
            let _delta_pic_order_cnt_bottom: i32 = r.se()?;
        }
    } else if sps.pic_order_cnt_type == 1 && !sps.delta_pic_order_always_zero_flag {
        delta.0 = r.se()?;
        if bottom {
            delta.1 = r.se()?;
        }
    }
    Ok((field_pic_flag, idr_pic_id, pic_order_cnt_lsb, delta))
}

/// Parse the highest reference index of each list.
fn parse_slice_ref_counts(r: &mut BitReader, slice_type: SliceType, pps: &Pps) -> (result: Result<
    (u32, u32),
    PixelForgeError,
>)
    ensures
        reads(result, final(r)@, slice_ref_counts(cursor(old(r)@), slice_type, *pps)),
{
    if pps.redundant_pic_cnt_present_flag {
        let _redundant_pic_cnt: u32 = r.ue()?;
    }
    if slice_type == SliceType::B {
        let _direct_spatial_mv_pred_flag = r.flag()?;
    }
    let mut num_ref_idx_l0_active_minus1: u32 = pps.num_ref_idx_l0_default_active_minus1 as u32;
    let mut num_ref_idx_l1_active_minus1: u32 = pps.num_ref_idx_l1_default_active_minus1 as u32;
    if matches!(slice_type, SliceType::P | SliceType::Sp | SliceType::B) {
        if r.flag()? {
            num_ref_idx_l0_active_minus1 = r.ue()?;
            if slice_type == SliceType::B {
                num_ref_idx_l1_active_minus1 = r.ue()?;
            }
        }
        // Clause 7.4.3: the value is at most 31. A larger one means we have
        // lost bit alignment, and would otherwise drive a huge parse loop.
        if num_ref_idx_l0_active_minus1 > 31 || num_ref_idx_l1_active_minus1 > 31 {
            return Err(PixelForgeError::InvalidInput(InvalidInput::NumRefIdxActive));
        }
    }
    Ok((num_ref_idx_l0_active_minus1, num_ref_idx_l1_active_minus1))
}

/// Skip one list of `ref_pic_list_modification()`.
fn skip_list_modification(r: &mut BitReader) -> (result: Result<(), PixelForgeError>)
    ensures
        skips(result, final(r)@, list_modification(cursor(old(r)@))),
{
    if !r.flag()? {
        return Ok(());
    }
    let ghost start = cursor(r@);
    loop
        invariant
            list_modification(cursor(old(r)@)) == list_modifications(start),
            list_modifications(start) == list_modifications(cursor(r@)),
        decreases r@.len(),
    {
        let idc: u32 = r.ue()?;
        if idc < 3 {
            // abs_diff_pic_num_minus1 / long_term_pic_num
            let _operand: u32 = r.ue()?;
        } else if idc == 3 {
            return Ok(());
        } else {
            return Err(PixelForgeError::InvalidInput(InvalidInput::ModificationOfPicNums(idc)));
        }
    }
}

/// `ref_pic_list_modification()` (clause 7.3.3.1).
///
/// The reordered lists themselves are rebuilt by the driver from the slice
/// data, so the syntax is parsed only to advance past it.
fn parse_ref_pic_list_modification(r: &mut BitReader, slice_type: SliceType) -> (result: Result<
    (),
    PixelForgeError,
>)
    ensures
        skips(result, final(r)@, ref_pic_list_modification(cursor(old(r)@), slice_type)),
{
    if !matches!(slice_type, SliceType::I | SliceType::Si) {
        skip_list_modification(r)?;
    }
    if slice_type == SliceType::B {
        skip_list_modification(r)?;
    }
    Ok(())
}

/// Skip the weights of one reference list with `n` entries.
fn skip_pred_weights(r: &mut BitReader, n: u64, chroma: bool) -> (result: Result<
    (),
    PixelForgeError,
>)
    ensures
        skips(result, final(r)@, pred_weights(cursor(old(r)@), n as nat, chroma)),
{
    let ghost start = cursor(r@);
    let mut i: u64 = 0;
    while i < n
        invariant
            i <= n,
            start == cursor(old(r)@),
            pred_weights(start, n as nat, chroma) == pred_weights(
                cursor(r@),
                (n - i) as nat,
                chroma,
            ),
        decreases n - i,
    {
        proof {
            reveal_with_fuel(pred_weights, 2);
        }
        if r.flag()? {
            let _luma_weight: i32 = r.se()?;
            let _luma_offset: i32 = r.se()?;
        }
        if chroma && r.flag()? {
            let _cb_weight: i32 = r.se()?;
            let _cb_offset: i32 = r.se()?;
            let _cr_weight: i32 = r.se()?;
            let _cr_offset: i32 = r.se()?;
        }
        i = i + 1;
    }
    Ok(())
}

/// `pred_weight_table()` (clause 7.3.3.2). Parsed only to advance past it.
fn parse_pred_weight_table(
    r: &mut BitReader,
    chroma_array_type: u8,
    num_ref_idx_l0_active_minus1: u32,
    num_ref_idx_l1_active_minus1: u32,
    is_b: bool,
) -> (result: Result<(), PixelForgeError>)
    ensures
        skips(
            result,
            final(r)@,
            pred_weight_table(
                cursor(old(r)@),
                chroma_array_type,
                num_ref_idx_l0_active_minus1,
                num_ref_idx_l1_active_minus1,
                is_b,
            ),
        ),
{
    let chroma = chroma_array_type != 0;
    let _luma_log2_weight_denom: u32 = r.ue()?;
    if chroma {
        let _chroma_log2_weight_denom: u32 = r.ue()?;
    }
    skip_pred_weights(r, num_ref_idx_l0_active_minus1 as u64 + 1, chroma)?;
    if is_b {
        skip_pred_weights(r, num_ref_idx_l1_active_minus1 as u64 + 1, chroma)?;
    }
    Ok(())
}

/// Parse the operands of the memory management control operation `op`.
fn parse_mmco(r: &mut BitReader, op: u32) -> (result: Result<Mmco, PixelForgeError>)
    ensures
        reads(result, final(r)@, mmco(cursor(old(r)@), op)),
{
    match op {
        1 => Ok(Mmco::ForgetShort { difference_of_pic_nums_minus1: r.ue()? }),
        2 => Ok(Mmco::ForgetLong { long_term_pic_num: r.ue()? }),
        3 => {
            let difference_of_pic_nums_minus1: u32 = r.ue()?;
            let long_term_frame_idx: u32 = r.ue()?;
            Ok(Mmco::ShortToLong { difference_of_pic_nums_minus1, long_term_frame_idx })
        },
        4 => Ok(Mmco::MaxLongTermIdx { max_long_term_frame_idx_plus1: r.ue()? }),
        5 => Ok(Mmco::ForgetAll),
        6 => Ok(Mmco::CurrentToLong { long_term_frame_idx: r.ue()? }),
        other => Err(PixelForgeError::InvalidInput(InvalidInput::MemoryManagementControl(other))),
    }
}

/// Parse the operations of a `dec_ref_pic_marking()`.
fn parse_marking_ops(r: &mut BitReader) -> (result: Result<Vec<Mmco>, PixelForgeError>)
    ensures
        reads(viewed(result), final(r)@, marking_ops(cursor(old(r)@), Seq::empty())),
{
    let ghost start = cursor(r@);
    let mut ops: Vec<Mmco> = Vec::new();
    loop
        invariant
            ops@.len() <= 64,
            start == cursor(old(r)@),
            marking_ops(start, Seq::empty()) == marking_ops(cursor(r@), ops@),
        decreases 65 - ops@.len(),
    {
        let op: u32 = r.ue()?;
        if op == 0 {
            return Ok(ops);
        }
        ops.push(parse_mmco(r, op)?);

        // A conforming stream cannot mark more pictures than the DPB can hold;
        // this bounds the loop if the bitstream is corrupt.
        if ops.len() > 64 {
            return Err(PixelForgeError::InvalidInput(InvalidInput::RunawayMarking));
        }
    }
}

/// `dec_ref_pic_marking()` (clause 7.3.3.3).
fn parse_dec_ref_pic_marking(r: &mut BitReader, is_idr: bool) -> (result: Result<
    RefPicMarking,
    PixelForgeError,
>)
    ensures
        reads(viewed(result), final(r)@, dec_ref_pic_marking(cursor(old(r)@), is_idr)),
{
    let mut marking = RefPicMarking::default();
    if is_idr {
        marking.no_output_of_prior_pics_flag = r.flag()?;
        marking.long_term_reference_flag = r.flag()?;
        return Ok(marking);
    }
    marking.adaptive = r.flag()?;
    if marking.adaptive {
        marking.ops = parse_marking_ops(r)?;
    }
    Ok(marking)
}

/// Parse the part of a slice header behind its ordering fields.
fn parse_slice_marking(
    r: &mut BitReader,
    slice_type: SliceType,
    idr: bool,
    ref_idc: u8,
    sps: &Sps,
    pps: &Pps,
) -> (result: Result<RefPicMarking, PixelForgeError>)
    ensures
        reads(
            viewed(result),
            final(r)@,
            slice_marking(cursor(old(r)@), slice_type, idr, ref_idc, sps@, *pps),
        ),
{
    proof {
        reveal(slice_marking);
    }
    let (num_ref_idx_l0_active_minus1, num_ref_idx_l1_active_minus1): (u32, u32) =
        parse_slice_ref_counts(r, slice_type, pps)?;
    parse_ref_pic_list_modification(r, slice_type)?;
    let chroma_array_type: u8 = if sps.separate_colour_plane_flag {
        0
    } else {
        sps.chroma_format_idc
    };
    let weighted = match slice_type {
        SliceType::P | SliceType::Sp => pps.weighted_pred_flag,
        SliceType::B => pps.weighted_bipred_idc == 1,
        _ => false,
    };
    if weighted {
        parse_pred_weight_table(
            r,
            chroma_array_type,
            num_ref_idx_l0_active_minus1,
            num_ref_idx_l1_active_minus1,
            slice_type == SliceType::B,
        )?;
    }
    if ref_idc != 0 {
        parse_dec_ref_pic_marking(r, idr)
    } else {
        Ok(RefPicMarking::default())
    }
}

/// Parse the leading portion of a slice header.
pub fn parse_slice_header(nal: &NalUnit, sps: &Sps, pps: &Pps) -> (result: Result<
    SliceHeader,
    PixelForgeError,
>)
    requires
        nal.data@.len() >= 1,
    ensures
        parses(
            viewed(result),
            slice_header(
                cursor(payload_bits(nal.data@.skip(1))),
                nal.nal_type == NalType::IdrSlice,
                nal.ref_idc,
                sps@,
                *pps,
            ),
        ),
{
    let idr = nal.nal_type == NalType::IdrSlice;
    let mut r = BitReader::new(nal.payload());
    proof {
        let (identity, c) = slice_identity(cursor(r@), sps@);
        let (order, next) = slice_order(c, idr, sps@, *pps);
        lemma_error_stays(c, identity.1, idr, nal.ref_idc, sps@, *pps);
        lemma_error_stays(next, identity.1, idr, nal.ref_idc, sps@, *pps);
    }
    let (first_mb_in_slice, slice_type, pps_id, frame_num): (u32, SliceType, u8, u32) =
        parse_slice_identity(&mut r, sps)?;
    let (field_pic_flag, idr_pic_id, pic_order_cnt_lsb, delta): (bool, u16, u32, (i32, i32)) =
        parse_slice_order(&mut r, idr, sps, pps)?;

    // From here the only field we need is dec_ref_pic_marking(), but it is not
    // at a fixed offset: everything before it must be parsed to find it.
    let marking = parse_slice_marking(&mut r, slice_type, idr, nal.ref_idc, sps, pps)?;
    Ok(
        SliceHeader {
            first_mb_in_slice,
            slice_type,
            pps_id,
            frame_num,
            field_pic_flag,
            idr_pic_id,
            pic_order_cnt_lsb,
            delta_pic_order_cnt: [delta.0, delta.1],
            marking,
        },
    )
}

} // verus!
