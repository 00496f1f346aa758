//! The syntax of H.264 parameter sets and slice headers, as mathematics.
//!
//! Each function here takes the place in the bitstream where a syntax structure
//! begins and gives the structure's value together with the place behind it.
//! The parser is proved against these functions. They read a structure's fields
//! in bitstream order; a read at a place that carries an error changes nothing,
//! so the error that comes out is the first one met.

use crate::decoder::bitreader::{lemma_uint_bound, uint, Cursor};
use crate::error::InvalidInput;
use vstd::arithmetic::power2::{
    lemma2_to64, lemma_pow2_pos, lemma_pow2_strictly_increases, pow2,
};
use vstd::prelude::*;

verus! {

/// The mathematical view of an [`Sps`](crate::decoder::h264::parser::Sps).
#[verifier::ext_equal]
pub struct SpsView {
    pub profile_idc: u8,
    pub constraint_set_flags: u8,
    pub level_idc: u8,
    pub sps_id: u8,
    pub chroma: ChromaInfo,
    pub log2_max_frame_num_minus4: u8,
    pub poc: PocView,
    pub frame: FrameInfo,
    pub max_num_reorder_frames: Option<u32>,
}

/// The sample format of a sequence.
#[derive(Clone, Copy, Debug, PartialEq, Eq, Structural)]
pub struct ChromaInfo {
    pub chroma_format_idc: u8,
    pub separate_colour_plane_flag: bool,
    pub bit_depth_luma_minus8: u8,
    pub bit_depth_chroma_minus8: u8,
    pub qpprime_y_zero_transform_bypass_flag: bool,
    pub seq_scaling_matrix_present_flag: bool,
}

/// How a sequence codes picture order counts.
#[verifier::ext_equal]
pub struct PocView {
    pub pic_order_cnt_type: u8,
    pub log2_max_pic_order_cnt_lsb_minus4: u8,
    pub delta_pic_order_always_zero_flag: bool,
    pub offset_for_non_ref_pic: i32,
    pub offset_for_top_to_bottom_field: i32,
    pub offsets_for_ref_frame: Seq<i32>,
}

/// The picture geometry and reference count of a sequence.
#[derive(Clone, Copy, Debug, PartialEq, Eq, Structural)]
pub struct FrameInfo {
    pub max_num_ref_frames: u8,
    pub gaps_in_frame_num_value_allowed_flag: bool,
    pub pic_width_in_mbs_minus1: u32,
    pub pic_height_in_map_units_minus1: u32,
    pub frame_mbs_only_flag: bool,
    pub mb_adaptive_frame_field_flag: bool,
    pub direct_8x8_inference_flag: bool,
    pub frame_cropping_flag: bool,
    pub frame_crop_left_offset: u32,
    pub frame_crop_right_offset: u32,
    pub frame_crop_top_offset: u32,
    pub frame_crop_bottom_offset: u32,
}

impl SpsView {
    /// Coded width in pixels.
    pub open spec fn coded_width(self) -> int {
        (self.frame.pic_width_in_mbs_minus1 + 1) * 16
    }

    /// Coded height in pixels. A map unit is a pair of macroblocks where a
    /// sequence may hold fields.
    pub open spec fn coded_height(self) -> int {
        (self.frame.pic_height_in_map_units_minus1 + 1) * (if self.frame.frame_mbs_only_flag {
            16int
        } else {
            32int
        })
    }

    /// Columns that cropping takes away.
    pub open spec fn cropped_columns(self) -> int {
        let unit: int = if self.chroma.chroma_format_idc == 1 || self.chroma.chroma_format_idc
            == 2 {
            2
        } else {
            1
        };
        if self.frame.frame_cropping_flag {
            unit * (self.frame.frame_crop_left_offset + self.frame.frame_crop_right_offset)
        } else {
            0
        }
    }

    /// Rows that cropping takes away.
    pub open spec fn cropped_rows(self) -> int {
        let unit: int = if self.chroma.chroma_format_idc == 1 {
            if self.frame.frame_mbs_only_flag { 2 } else { 4 }
        } else {
            if self.frame.frame_mbs_only_flag { 1 } else { 2 }
        };
        if self.frame.frame_cropping_flag {
            unit * (self.frame.frame_crop_top_offset + self.frame.frame_crop_bottom_offset)
        } else {
            0
        }
    }

    /// `MaxFrameNum`.
    pub open spec fn max_frame_num(self) -> nat {
        pow2((self.log2_max_frame_num_minus4 + 4) as nat)
    }

    /// `MaxPicOrderCntLsb`.
    pub open spec fn max_pic_order_cnt_lsb(self) -> nat {
        pow2((self.poc.log2_max_pic_order_cnt_lsb_minus4 + 4) as nat)
    }
}

/// The place behind the last `n` entries of a `scaling_list()`, `last` and
/// `next` being its running scales. A next scale of zero ends the coded part.
pub open spec fn scaling_list(c: Cursor, n: nat, last: int, next: int) -> Cursor
    decreases n,
{
    if n == 0 || next == 0 || c.error is Some {
        c
    } else {
        let (delta, c) = c.se();
        let scale = (last + delta + 256) % 256;
        scaling_list(c, (n - 1) as nat, if scale != 0 { scale } else { last }, scale)
    }
}

/// The place behind the scaling lists from index `i` up to `count`, each of
/// which is preceded by its present flag.
pub open spec fn scaling_lists(c: Cursor, i: nat, count: nat) -> Cursor
    decreases count - i,
{
    if i >= count || c.error is Some {
        c
    } else {
        let (present, c) = c.flag();
        let c = if present { scaling_list(c, if i < 6 { 16 } else { 64 }, 8, 8) } else { c };
        scaling_lists(c, i + 1, count)
    }
}

/// Whether a profile codes the chroma format and bit depths in its SPS.
pub open spec fn is_high_profile(profile_idc: u8) -> bool {
    profile_idc == 100 || profile_idc == 110 || profile_idc == 122 || profile_idc == 244
        || profile_idc == 44 || profile_idc == 83 || profile_idc == 86 || profile_idc == 118
        || profile_idc == 128 || profile_idc == 138 || profile_idc == 139 || profile_idc == 134
        || profile_idc == 135
}

/// The sample format of a sequence of the given profile; 8-bit 4:2:0 where the
/// profile does not code it.
pub open spec fn chroma_info(c: Cursor, profile_idc: u8) -> (ChromaInfo, Cursor) {
    if is_high_profile(profile_idc) {
        let (chroma_format_idc, c) = c.ue();
        let chroma_format_idc = chroma_format_idc as u8;
        let (separate_colour_plane_flag, c) = if chroma_format_idc == 3 {
            c.flag()
        } else {
            (false, c)
        };
        let (luma, c) = c.ue();
        let (chroma, c) = c.ue();
        let (qpprime_y_zero_transform_bypass_flag, c) = c.flag();
        let (seq_scaling_matrix_present_flag, c) = c.flag();
        let c = if seq_scaling_matrix_present_flag {
            scaling_lists(c, 0, if chroma_format_idc == 3 { 12 } else { 8 })
        } else {
            c
        };
        (
            ChromaInfo {
                chroma_format_idc,
                separate_colour_plane_flag,
                bit_depth_luma_minus8: luma as u8,
                bit_depth_chroma_minus8: chroma as u8,
                qpprime_y_zero_transform_bypass_flag,
                seq_scaling_matrix_present_flag,
            },
            c,
        )
    } else {
        (
            ChromaInfo {
                chroma_format_idc: 1,
                separate_colour_plane_flag: false,
                bit_depth_luma_minus8: 0,
                bit_depth_chroma_minus8: 0,
                qpprime_y_zero_transform_bypass_flag: false,
                seq_scaling_matrix_present_flag: false,
            },
            c,
        )
    }
}

/// `n` signed values, appended to `values`.
pub open spec fn signed_values(c: Cursor, n: nat, values: Seq<i32>) -> (Seq<i32>, Cursor)
    decreases n,
{
    if n == 0 || c.error is Some {
        (values, c)
    } else {
        let (value, c) = c.se();
        signed_values(c, (n - 1) as nat, values.push(value))
    }
}

/// How a sequence codes picture order counts.
pub open spec fn poc_info(c: Cursor) -> (PocView, Cursor) {
    let (kind, c) = c.ue();
    let kind = kind as u8;
    let none = PocView {
        pic_order_cnt_type: kind,
        log2_max_pic_order_cnt_lsb_minus4: 0,
        delta_pic_order_always_zero_flag: false,
        offset_for_non_ref_pic: 0,
        offset_for_top_to_bottom_field: 0,
        offsets_for_ref_frame: Seq::empty(),
    };
    if kind == 0 {
        let (log2, c) = c.ue();
        (PocView { log2_max_pic_order_cnt_lsb_minus4: log2 as u8, ..none }, c)
    } else if kind == 1 {
        let (delta_pic_order_always_zero_flag, c) = c.flag();
        let (offset_for_non_ref_pic, c) = c.se();
        let (offset_for_top_to_bottom_field, c) = c.se();
        let (num, c) = c.ue();
        let (offsets_for_ref_frame, c) = signed_values(c, num as nat, Seq::empty());
        (
            PocView {
                delta_pic_order_always_zero_flag,
                offset_for_non_ref_pic,
                offset_for_top_to_bottom_field,
                offsets_for_ref_frame,
                ..none
            },
            c,
        )
    } else if kind == 2 {
        (none, c)
    } else {
        (none, c.fail(InvalidInput::PicOrderCntType(kind)))
    }
}

/// The picture geometry and reference count of a sequence.
pub open spec fn frame_info(c: Cursor) -> (FrameInfo, Cursor) {
    let (max_num_ref_frames, c) = c.ue();
    let (gaps_in_frame_num_value_allowed_flag, c) = c.flag();
    let (pic_width_in_mbs_minus1, c) = c.ue();
    let (pic_height_in_map_units_minus1, c) = c.ue();
    let (frame_mbs_only_flag, c) = c.flag();
    let (mb_adaptive_frame_field_flag, c) = if !frame_mbs_only_flag {
        c.flag()
    } else {
        (false, c)
    };
    let (direct_8x8_inference_flag, c) = c.flag();
    let (frame_cropping_flag, c) = c.flag();
    let (frame_crop_left_offset, c) = if frame_cropping_flag { c.ue() } else { (0, c) };
    let (frame_crop_right_offset, c) = if frame_cropping_flag { c.ue() } else { (0, c) };
    let (frame_crop_top_offset, c) = if frame_cropping_flag { c.ue() } else { (0, c) };
    let (frame_crop_bottom_offset, c) = if frame_cropping_flag { c.ue() } else { (0, c) };
    (
        FrameInfo {
            max_num_ref_frames: max_num_ref_frames as u8,
            gaps_in_frame_num_value_allowed_flag,
            pic_width_in_mbs_minus1,
            pic_height_in_map_units_minus1,
            frame_mbs_only_flag,
            mb_adaptive_frame_field_flag,
            direct_8x8_inference_flag,
            frame_cropping_flag,
            frame_crop_left_offset,
            frame_crop_right_offset,
            frame_crop_top_offset,
            frame_crop_bottom_offset,
        },
        c,
    )
}

/// The place behind `n` entries of `hrd_parameters()`.
pub open spec fn hrd_entries(c: Cursor, n: nat) -> Cursor
    decreases n,
{
    if n == 0 || c.error is Some {
        c
    } else {
        let (_bit_rate_value_minus1, c) = c.ue();
        let (_cpb_size_value_minus1, c) = c.ue();
        let (_cbr_flag, c) = c.flag();
        hrd_entries(c, (n - 1) as nat)
    }
}

/// The place behind `hrd_parameters()`.
pub open spec fn hrd(c: Cursor) -> Cursor {
    let (cpb_cnt_minus1, c) = c.ue();
    let (_bit_rate_scale, c) = c.u(4);
    let (_cpb_size_scale, c) = c.u(4);
    let c = hrd_entries(c, (cpb_cnt_minus1 + 1) as nat);
    let (_initial_cpb_removal_delay_length_minus1, c) = c.u(5);
    let (_cpb_removal_delay_length_minus1, c) = c.u(5);
    let (_dpb_output_delay_length_minus1, c) = c.u(5);
    let (_time_offset_length, c) = c.u(5);
    c
}

/// The place behind the picture description at the head of `vui_parameters()`.
pub open spec fn vui_description(c: Cursor) -> Cursor {
    let (aspect_ratio_info_present_flag, c) = c.flag();
    let (aspect_ratio_idc, c) = if aspect_ratio_info_present_flag { c.u(8) } else { (0, c) };
    let extended_sar = aspect_ratio_idc == 255;
    let (_sar_width, c) = if extended_sar { c.u(16) } else { (0, c) };
    let (_sar_height, c) = if extended_sar { c.u(16) } else { (0, c) };
    let (overscan_info_present_flag, c) = c.flag();
    let (_overscan_appropriate_flag, c) = if overscan_info_present_flag {
        c.flag()
    } else {
        (false, c)
    };
    let (video_signal_type_present_flag, c) = c.flag();
    let (_video_format, c) = if video_signal_type_present_flag { c.u(3) } else { (0, c) };
    let (_video_full_range_flag, c) = if video_signal_type_present_flag {
        c.flag()
    } else {
        (false, c)
    };
    let (colour_description_present_flag, c) = if video_signal_type_present_flag {
        c.flag()
    } else {
        (false, c)
    };
    let (_colour_primaries, c) = if colour_description_present_flag { c.u(8) } else { (0, c) };
    let (_transfer_characteristics, c) = if colour_description_present_flag {
        c.u(8)
    } else {
        (0, c)
    };
    let (_matrix_coefficients, c) = if colour_description_present_flag { c.u(8) } else { (0, c) };
    c
}

/// The place behind the location and timing part of `vui_parameters()`.
pub open spec fn vui_timing(c: Cursor) -> Cursor {
    let (chroma_loc_info_present_flag, c) = c.flag();
    let (_top, c) = if chroma_loc_info_present_flag { c.ue() } else { (0, c) };
    let (_bottom, c) = if chroma_loc_info_present_flag { c.ue() } else { (0, c) };
    let (timing_info_present_flag, c) = c.flag();
    let (_num_units_in_tick, c) = if timing_info_present_flag { c.u(32) } else { (0, c) };
    let (_time_scale, c) = if timing_info_present_flag { c.u(32) } else { (0, c) };
    let (_fixed_frame_rate_flag, c) = if timing_info_present_flag { c.flag() } else { (false, c) };
    let (nal_hrd, c) = c.flag();
    let c = if nal_hrd { hrd(c) } else { c };
    let (vcl_hrd, c) = c.flag();
    let c = if vcl_hrd { hrd(c) } else { c };
    let (_low_delay_hrd_flag, c) = if nal_hrd || vcl_hrd { c.flag() } else { (false, c) };
    let (_pic_struct_present_flag, c) = c.flag();
    c
}

/// `max_num_reorder_frames` of the bitstream restriction that ends
/// `vui_parameters()`, where there is one.
pub open spec fn vui_restriction(c: Cursor) -> (Option<u32>, Cursor) {
    let (bitstream_restriction_flag, c) = c.flag();
    if bitstream_restriction_flag {
        let (_motion_vectors_over_pic_boundaries_flag, c) = c.flag();
        let (_max_bytes_per_pic_denom, c) = c.ue();
        let (_max_bits_per_mb_denom, c) = c.ue();
        let (_log2_max_mv_length_horizontal, c) = c.ue();
        let (_log2_max_mv_length_vertical, c) = c.ue();
        let (max_num_reorder_frames, c) = c.ue();
        let (_max_dec_frame_buffering, c) = c.ue();
        (Some(max_num_reorder_frames), c)
    } else {
        (None, c)
    }
}

/// `max_num_reorder_frames` as `vui_parameters()` signals it.
pub open spec fn vui_reorder(c: Cursor) -> (Option<u32>, Cursor) {
    vui_restriction(vui_timing(vui_description(c)))
}

/// `max_num_reorder_frames` at the end of an SPS. It is unset where there is no
/// VUI, and where the VUI is malformed or cut short.
pub open spec fn sps_reorder(c: Cursor) -> Option<u32> {
    let (vui_parameters_present_flag, c) = c.flag();
    if vui_parameters_present_flag {
        let (reorder, c) = vui_reorder(c);
        if c.error is None {
            reorder
        } else {
            None
        }
    } else {
        None
    }
}

/// `seq_parameter_set_data()`, with the place behind its last mandatory field.
#[verifier::opaque]
pub open spec fn sps_syntax(c: Cursor) -> (SpsView, Cursor) {
    let (profile_idc, c) = c.u(8);
    let (constraint_set_flags, c) = c.u(8);
    let (level_idc, c) = c.u(8);
    let (sps_id, c) = c.ue();
    let (chroma, c) = chroma_info(c, profile_idc as u8);
    let (log2_max_frame_num_minus4, c) = c.ue();
    let (poc, c) = poc_info(c);
    let (frame, c) = frame_info(c);
    (
        SpsView {
            profile_idc: profile_idc as u8,
            constraint_set_flags: constraint_set_flags as u8,
            level_idc: level_idc as u8,
            sps_id: sps_id as u8,
            chroma,
            log2_max_frame_num_minus4: log2_max_frame_num_minus4 as u8,
            poc,
            frame,
            max_num_reorder_frames: sps_reorder(c),
        },
        c,
    )
}

/// Parsed H.264 picture parameter set (the subset Vulkan decode needs).
#[derive(Clone, Copy, Debug, PartialEq, Eq, Structural)]
pub struct Pps {
    pub pps_id: u8,
    pub sps_id: u8,
    pub entropy_coding_mode_flag: bool,
    pub bottom_field_pic_order_in_frame_present_flag: bool,
    pub num_slice_groups_minus1: u32,
    pub num_ref_idx_l0_default_active_minus1: u8,
    pub num_ref_idx_l1_default_active_minus1: u8,
    pub weighted_pred_flag: bool,
    pub weighted_bipred_idc: u8,
    pub pic_init_qp_minus26: i8,
    pub pic_init_qs_minus26: i8,
    pub chroma_qp_index_offset: i8,
    pub deblocking_filter_control_present_flag: bool,
    pub constrained_intra_pred_flag: bool,
    pub redundant_pic_cnt_present_flag: bool,
    pub transform_8x8_mode_flag: bool,
    pub pic_scaling_matrix_present_flag: bool,
    pub second_chroma_qp_index_offset: i8,
}

/// The mandatory fields of a PPS. Slice groups are an error.
pub open spec fn pps_head(c: Cursor) -> (Pps, Cursor) {
    let (pps_id, c) = c.ue();
    let (sps_id, c) = c.ue();
    let (entropy_coding_mode_flag, c) = c.flag();
    let (bottom_field_pic_order_in_frame_present_flag, c) = c.flag();
    let (num_slice_groups_minus1, c) = c.ue();
    let c = if num_slice_groups_minus1 > 0 { c.fail(InvalidInput::SliceGroups) } else { c };
    let (l0, c) = c.ue();
    let (l1, c) = c.ue();
    let (weighted_pred_flag, c) = c.flag();
    let (weighted_bipred_idc, c) = c.u(2);
    let (qp, c) = c.se();
    let (qs, c) = c.se();
    let (chroma_qp, c) = c.se();
    let (deblocking_filter_control_present_flag, c) = c.flag();
    let (constrained_intra_pred_flag, c) = c.flag();
    let (redundant_pic_cnt_present_flag, c) = c.flag();
    (
        Pps {
            pps_id: pps_id as u8,
            sps_id: sps_id as u8,
            entropy_coding_mode_flag,
            bottom_field_pic_order_in_frame_present_flag,
            num_slice_groups_minus1,
            num_ref_idx_l0_default_active_minus1: l0 as u8,
            num_ref_idx_l1_default_active_minus1: l1 as u8,
            weighted_pred_flag,
            weighted_bipred_idc: weighted_bipred_idc as u8,
            pic_init_qp_minus26: qp as i8,
            pic_init_qs_minus26: qs as i8,
            chroma_qp_index_offset: chroma_qp as i8,
            deblocking_filter_control_present_flag,
            constrained_intra_pred_flag,
            redundant_pic_cnt_present_flag,
            transform_8x8_mode_flag: false,
            pic_scaling_matrix_present_flag: false,
            second_chroma_qp_index_offset: chroma_qp as i8,
        },
        c,
    )
}

/// The flags at the head of the optional part of a PPS: whether it uses the 8x8
/// transform, and whether it carries scaling lists.
pub open spec fn pps_tail_flags(c: Cursor) -> ((bool, bool), Cursor) {
    let (transform_8x8_mode_flag, c) = c.flag();
    let (pic_scaling_matrix_present_flag, c) = c.flag();
    ((transform_8x8_mode_flag, pic_scaling_matrix_present_flag), c)
}

/// Whether the chroma format matters to a PPS: it carries scaling lists, whose
/// number depends on it.
pub open spec fn pps_asks_chroma(c: Cursor) -> bool {
    pps_tail_flags(pps_head(c).1).1.error is None && pps_tail_flags(pps_head(c).1).0.1
}

/// The last field of the optional part of a PPS, behind its flags.
pub open spec fn pps_second_offset(
    c: Cursor,
    scaling: bool,
    chroma_format_idc: Option<u8>,
) -> (i8, Cursor) {
    let c = if scaling {
        scaling_lists(c, 0, if chroma_format_idc == Some(3u8) { 12 } else { 8 })
    } else {
        c
    };
    let (second, c) = c.se();
    (second as i8, c)
}

/// A PPS, `chroma_format_idc` being that of the SPS it refers to, where that is
/// known. The fields of the optional part keep their defaults unless all of them
/// are there.
#[verifier::opaque]
pub open spec fn pps_syntax(c: Cursor, chroma_format_idc: Option<u8>) -> (Pps, Cursor) {
    let (head, c) = pps_head(c);
    let ((transform_8x8_mode_flag, pic_scaling_matrix_present_flag), tail) = pps_tail_flags(c);
    let (second_chroma_qp_index_offset, tail) = pps_second_offset(
        tail,
        pic_scaling_matrix_present_flag,
        chroma_format_idc,
    );
    if tail.error is None {
        (
            Pps {
                transform_8x8_mode_flag,
                pic_scaling_matrix_present_flag,
                second_chroma_qp_index_offset,
                ..head
            },
            c,
        )
    } else {
        (head, c)
    }
}

/// H.264 slice types (values already reduced modulo 5).
#[derive(Clone, Copy, Debug, PartialEq, Eq, Structural)]
pub enum SliceType {
    P,
    B,
    I,
    Sp,
    Si,
}

/// A memory management control operation (clause 7.4.3.3).
///
/// Operand names follow the standard. All picture numbers are frame-based:
/// field decoding is rejected before any of this is reached.
#[derive(Clone, Copy, Debug, PartialEq, Eq, Structural)]
pub enum Mmco {
    /// 1: mark a short-term reference as unused.
    ForgetShort { difference_of_pic_nums_minus1: u32 },
    /// 2: mark a long-term reference as unused.
    ForgetLong { long_term_pic_num: u32 },
    /// 3: turn a short-term reference into a long-term one.
    ShortToLong { difference_of_pic_nums_minus1: u32, long_term_frame_idx: u32 },
    /// 4: set the upper bound on long-term frame indices.
    MaxLongTermIdx { max_long_term_frame_idx_plus1: u32 },
    /// 5: mark every reference unused and reset frame_num/POC.
    ForgetAll,
    /// 6: mark the current picture as a long-term reference.
    CurrentToLong { long_term_frame_idx: u32 },
}

/// The mathematical view of a
/// [`RefPicMarking`](crate::decoder::h264::parser::RefPicMarking).
#[verifier::ext_equal]
pub struct MarkingView {
    pub long_term_reference_flag: bool,
    pub no_output_of_prior_pics_flag: bool,
    pub adaptive: bool,
    pub ops: Seq<Mmco>,
}

/// The mathematical view of a
/// [`SliceHeader`](crate::decoder::h264::parser::SliceHeader).
#[verifier::ext_equal]
pub struct SliceHeaderView {
    pub first_mb_in_slice: u32,
    pub slice_type: SliceType,
    pub pps_id: u8,
    pub frame_num: u32,
    pub field_pic_flag: bool,
    pub idr_pic_id: u16,
    pub pic_order_cnt_lsb: u32,
    pub delta_pic_order_cnt: (i32, i32),
    pub marking: MarkingView,
}

/// The slice type that the raw `slice_type` code stands for.
pub open spec fn slice_type_of(raw: u32) -> SliceType {
    let kind = raw % 5;
    if kind == 0 {
        SliceType::P
    } else if kind == 1 {
        SliceType::B
    } else if kind == 2 {
        SliceType::I
    } else if kind == 3 {
        SliceType::Sp
    } else {
        SliceType::Si
    }
}

/// Whether slices of this type predict from other pictures.
pub open spec fn is_inter(slice_type: SliceType) -> bool {
    slice_type == SliceType::P || slice_type == SliceType::Sp || slice_type == SliceType::B
}

/// The fields of a slice header up to and with `frame_num`.
#[verifier::opaque]
pub open spec fn slice_identity(c: Cursor, sps: SpsView) -> ((u32, SliceType, u8, u32), Cursor) {
    let (first_mb_in_slice, c) = c.ue();
    let (slice_type, c) = c.ue();
    let (pps_id, c) = c.ue();
    let (_colour_plane_id, c) = if sps.chroma.separate_colour_plane_flag {
        c.u(2)
    } else {
        (0, c)
    };
    let (frame_num, c) = c.u((sps.log2_max_frame_num_minus4 + 4) as nat);
    ((first_mb_in_slice, slice_type_of(slice_type), pps_id as u8, frame_num), c)
}

/// The fields that order a picture: `field_pic_flag`, `idr_pic_id`,
/// `pic_order_cnt_lsb` and the pair `delta_pic_order_cnt`.
#[verifier::opaque]
pub open spec fn slice_order(c: Cursor, idr: bool, sps: SpsView, pps: Pps) -> (
    (bool, u16, u32, (i32, i32)),
    Cursor,
) {
    let (field_pic_flag, c) = if !sps.frame.frame_mbs_only_flag { c.flag() } else { (false, c) };
    let (_bottom_field_flag, c) = if field_pic_flag { c.flag() } else { (false, c) };
    let (idr_pic_id, c) = if idr { c.ue() } else { (0, c) };
    let bottom = pps.bottom_field_pic_order_in_frame_present_flag && !field_pic_flag;
    let kind = sps.poc.pic_order_cnt_type;
    let explicit = kind == 1 && !sps.poc.delta_pic_order_always_zero_flag;
    let (lsb, c) = if kind == 0 {
        c.u((sps.poc.log2_max_pic_order_cnt_lsb_minus4 + 4) as nat)
    } else {
        (0, c)
    };
    let (_delta_pic_order_cnt_bottom, c) = if kind == 0 && bottom { c.se() } else { (0, c) };
    let (delta0, c) = if explicit { c.se() } else { (0, c) };
    let (delta1, c) = if explicit && bottom { c.se() } else { (0, c) };
    ((field_pic_flag, idr_pic_id as u16, lsb, (delta0, delta1)), c)
}

/// The highest reference index of each list, where the slice type has one. More
/// than 31 is an error.
pub open spec fn slice_ref_counts(c: Cursor, slice_type: SliceType, pps: Pps) -> (
    (u32, u32),
    Cursor,
) {
    let (_redundant_pic_cnt, c) = if pps.redundant_pic_cnt_present_flag { c.ue() } else { (0, c) };
    let is_b = slice_type == SliceType::B;
    let (_direct_spatial_mv_pred_flag, c) = if is_b { c.flag() } else { (false, c) };
    let l0 = pps.num_ref_idx_l0_default_active_minus1 as u32;
    let l1 = pps.num_ref_idx_l1_default_active_minus1 as u32;
    if is_inter(slice_type) {
        let (override_flag, c) = c.flag();
        let (l0, c) = if override_flag { c.ue() } else { (l0, c) };
        let (l1, c) = if override_flag && is_b { c.ue() } else { (l1, c) };
        if l0 > 31 || l1 > 31 {
            ((l0, l1), c.fail(InvalidInput::NumRefIdxActive))
        } else {
            ((l0, l1), c)
        }
    } else {
        ((l0, l1), c)
    }
}

/// The place behind the operations of one list modification.
pub open spec fn list_modifications(c: Cursor) -> Cursor
    decreases c.rest.len(),
{
    let (modification_of_pic_nums_idc, after) = c.ue();
    if after.error is Some || modification_of_pic_nums_idc == 3 {
        after
    } else if modification_of_pic_nums_idc < 3 {
        let (_operand, after) = after.ue();
        if after.error is Some {
            after
        } else {
            list_modifications(after)
        }
    } else {
        after.fail(InvalidInput::ModificationOfPicNums(modification_of_pic_nums_idc))
    }
}

/// The place behind one list of `ref_pic_list_modification()`.
pub open spec fn list_modification(c: Cursor) -> Cursor {
    let (present, c) = c.flag();
    if present {
        list_modifications(c)
    } else {
        c
    }
}

/// The place behind `ref_pic_list_modification()`.
pub open spec fn ref_pic_list_modification(c: Cursor, slice_type: SliceType) -> Cursor {
    let c = if is_inter(slice_type) { list_modification(c) } else { c };
    if slice_type == SliceType::B {
        list_modification(c)
    } else {
        c
    }
}

/// The place behind `n` entries of a prediction weight table.
pub open spec fn pred_weights(c: Cursor, n: nat, chroma: bool) -> Cursor
    decreases n,
{
    if n == 0 || c.error is Some {
        c
    } else {
        let (luma, c) = c.flag();
        let (_luma_weight, c) = if luma { c.se() } else { (0, c) };
        let (_luma_offset, c) = if luma { c.se() } else { (0, c) };
        let (chroma_present, c) = if chroma { c.flag() } else { (false, c) };
        let (_cb_weight, c) = if chroma_present { c.se() } else { (0, c) };
        let (_cb_offset, c) = if chroma_present { c.se() } else { (0, c) };
        let (_cr_weight, c) = if chroma_present { c.se() } else { (0, c) };
        let (_cr_offset, c) = if chroma_present { c.se() } else { (0, c) };
        pred_weights(c, (n - 1) as nat, chroma)
    }
}

/// The place behind `pred_weight_table()`, `l0` and `l1` being the highest
/// reference indices.
pub open spec fn pred_weight_table(
    c: Cursor,
    chroma_array_type: u8,
    l0: u32,
    l1: u32,
    is_b: bool,
) -> Cursor {
    let chroma = chroma_array_type != 0;
    let (_luma_log2_weight_denom, c) = c.ue();
    let (_chroma_log2_weight_denom, c) = if chroma { c.ue() } else { (0, c) };
    let c = pred_weights(c, (l0 + 1) as nat, chroma);
    if is_b {
        pred_weights(c, (l1 + 1) as nat, chroma)
    } else {
        c
    }
}

/// One memory management control operation with the code `op`, which is not the
/// terminating code 0, and the place behind its operands.
pub open spec fn mmco(c: Cursor, op: u32) -> (Mmco, Cursor) {
    if op == 1 {
        let (difference_of_pic_nums_minus1, c) = c.ue();
        (Mmco::ForgetShort { difference_of_pic_nums_minus1 }, c)
    } else if op == 2 {
        let (long_term_pic_num, c) = c.ue();
        (Mmco::ForgetLong { long_term_pic_num }, c)
    } else if op == 3 {
        let (difference_of_pic_nums_minus1, c) = c.ue();
        let (long_term_frame_idx, c) = c.ue();
        (Mmco::ShortToLong { difference_of_pic_nums_minus1, long_term_frame_idx }, c)
    } else if op == 4 {
        let (max_long_term_frame_idx_plus1, c) = c.ue();
        (Mmco::MaxLongTermIdx { max_long_term_frame_idx_plus1 }, c)
    } else if op == 5 {
        (Mmco::ForgetAll, c)
    } else if op == 6 {
        let (long_term_frame_idx, c) = c.ue();
        (Mmco::CurrentToLong { long_term_frame_idx }, c)
    } else {
        (Mmco::ForgetAll, c.fail(InvalidInput::MemoryManagementControl(op)))
    }
}

/// The operations of a `dec_ref_pic_marking()`, appended to `ops`. More than 64
/// of them are an error.
pub open spec fn marking_ops(c: Cursor, ops: Seq<Mmco>) -> (Seq<Mmco>, Cursor)
    decreases 65 - ops.len(),
{
    let (op, c) = c.ue();
    if c.error is Some || op == 0 {
        (ops, c)
    } else {
        let (operation, c) = mmco(c, op);
        let ops = ops.push(operation);
        if c.error is Some {
            (ops, c)
        } else if ops.len() > 64 {
            (ops, c.fail(InvalidInput::RunawayMarking))
        } else {
            marking_ops(c, ops)
        }
    }
}

/// The marking of a picture that marks nothing.
pub open spec fn no_marking() -> MarkingView {
    MarkingView {
        long_term_reference_flag: false,
        no_output_of_prior_pics_flag: false,
        adaptive: false,
        ops: Seq::empty(),
    }
}

/// `dec_ref_pic_marking()`.
pub open spec fn dec_ref_pic_marking(c: Cursor, idr: bool) -> (MarkingView, Cursor) {
    if idr {
        let (no_output_of_prior_pics_flag, c) = c.flag();
        let (long_term_reference_flag, c) = c.flag();
        (
            MarkingView { no_output_of_prior_pics_flag, long_term_reference_flag, ..no_marking() },
            c,
        )
    } else {
        let (adaptive, c) = c.flag();
        if adaptive {
            let (ops, c) = marking_ops(c, Seq::empty());
            (MarkingView { adaptive, ops, ..no_marking() }, c)
        } else {
            (no_marking(), c)
        }
    }
}

/// The part of a slice header behind its ordering fields: everything there is
/// read only to reach `dec_ref_pic_marking()`, which a picture has that other
/// pictures may refer to.
#[verifier::opaque]
pub open spec fn slice_marking(
    c: Cursor,
    slice_type: SliceType,
    idr: bool,
    ref_idc: u8,
    sps: SpsView,
    pps: Pps,
) -> (MarkingView, Cursor) {
    let ((l0, l1), c) = slice_ref_counts(c, slice_type, pps);
    let c = ref_pic_list_modification(c, slice_type);
    let chroma_array_type = if sps.chroma.separate_colour_plane_flag {
        0
    } else {
        sps.chroma.chroma_format_idc
    };
    let is_b = slice_type == SliceType::B;
    let weighted = if is_b {
        pps.weighted_bipred_idc == 1
    } else {
        is_inter(slice_type) && pps.weighted_pred_flag
    };
    let c = if weighted { pred_weight_table(c, chroma_array_type, l0, l1, is_b) } else { c };
    if ref_idc != 0 {
        dec_ref_pic_marking(c, idr)
    } else {
        (no_marking(), c)
    }
}

/// Once an error was met, the rest of a slice header changes nothing.
pub proof fn lemma_error_stays(
    c: Cursor,
    slice_type: SliceType,
    idr: bool,
    ref_idc: u8,
    sps: SpsView,
    pps: Pps,
)
    ensures
        c.error is Some ==> slice_order(c, idr, sps, pps).1 == c,
        c.error is Some ==> slice_marking(c, slice_type, idr, ref_idc, sps, pps).1 == c,
{
    reveal(slice_order);
    reveal(slice_marking);
}

/// A slice header of a NAL unit with the given `nal_ref_idc`, up to and with its
/// `dec_ref_pic_marking()`.
pub open spec fn slice_header(
    c: Cursor,
    idr: bool,
    ref_idc: u8,
    sps: SpsView,
    pps: Pps,
) -> (SliceHeaderView, Cursor) {
    let ((first_mb_in_slice, slice_type, pps_id, frame_num), c) = slice_identity(c, sps);
    let ((field_pic_flag, idr_pic_id, pic_order_cnt_lsb, delta_pic_order_cnt), c) = slice_order(
        c,
        idr,
        sps,
        pps,
    );
    let (marking, c) = slice_marking(c, slice_type, idr, ref_idc, sps, pps);
    (
        SliceHeaderView {
            first_mb_in_slice,
            slice_type,
            pps_id,
            frame_num,
            field_pic_flag,
            idr_pic_id,
            pic_order_cnt_lsb,
            delta_pic_order_cnt,
            marking,
        },
        c,
    )
}

proof fn lemma_u_is_bounded(c: Cursor, n: nat)
    requires
        n <= 32,
    ensures
        c.u(n).0 < pow2(n),
{
    lemma_pow2_pos(n);
    if c.error is None && c.rest.len() >= n {
        let bits = c.rest.take(n as int);
        lemma_uint_bound(bits);
        lemma2_to64();
        if n < 32 {
            lemma_pow2_strictly_increases(n, 32);
        }
        assert(uint(bits) % 0x1_0000_0000 == uint(bits));
    }
}

/// The numbers that a slice header gives a picture are below their bounds: the
/// frame number is below `MaxFrameNum`, and the order count's low bits are below
/// `MaxPicOrderCntLsb`.
pub proof fn law_slice_numbers_are_bounded(
    c: Cursor,
    idr: bool,
    ref_idc: u8,
    sps: SpsView,
    pps: Pps,
)
    requires
        sps.log2_max_frame_num_minus4 <= 28,
        sps.poc.log2_max_pic_order_cnt_lsb_minus4 <= 28,
    ensures
        slice_header(c, idr, ref_idc, sps, pps).0.frame_num < sps.max_frame_num(),
        slice_header(c, idr, ref_idc, sps, pps).0.pic_order_cnt_lsb < sps.max_pic_order_cnt_lsb(),
{
    reveal(slice_identity);
    reveal(slice_order);
    let c0 = c.ue().1.ue().1.ue().1;
    let c1 = if sps.chroma.separate_colour_plane_flag {
        c0.u(2).1
    } else {
        c0
    };
    lemma_u_is_bounded(c1, (sps.log2_max_frame_num_minus4 + 4) as nat);
    let o0 = slice_identity(c, sps).1;
    let (field_pic_flag, o1) = if !sps.frame.frame_mbs_only_flag {
        o0.flag()
    } else {
        (false, o0)
    };
    let o2 = if field_pic_flag {
        o1.flag().1
    } else {
        o1
    };
    let o3 = if idr {
        o2.ue().1
    } else {
        o2
    };
    lemma_u_is_bounded(o3, (sps.poc.log2_max_pic_order_cnt_lsb_minus4 + 4) as nat);
    lemma_pow2_pos((sps.poc.log2_max_pic_order_cnt_lsb_minus4 + 4) as nat);
}

proof fn lemma_ops_are_bounded(c: Cursor, ops: Seq<Mmco>)
    requires
        ops.len() <= 64,
    ensures
        marking_ops(c, ops).1.error is None ==> marking_ops(c, ops).0.len() <= 64,
    decreases 65 - ops.len(),
{
    let (op, next) = c.ue();
    if next.error is None && op != 0 {
        let (operation, after) = mmco(next, op);
        let more = ops.push(operation);
        if after.error is None && more.len() <= 64 {
            lemma_ops_are_bounded(after, more);
        }
    }
}

/// A slice header marks references only where it may: operations come with
/// adaptive marking, that with a picture which is a reference and no IDR, and
/// there are at most 64 of them.
pub proof fn law_marking_is_consistent(
    c: Cursor,
    idr: bool,
    ref_idc: u8,
    sps: SpsView,
    pps: Pps,
)
    requires
        slice_header(c, idr, ref_idc, sps, pps).1.error is None,
    ensures
        ({
            let marking = slice_header(c, idr, ref_idc, sps, pps).0.marking;
            &&& marking.ops.len() > 0 ==> marking.adaptive
            &&& marking.adaptive ==> ref_idc != 0 && !idr
            &&& marking.long_term_reference_flag ==> ref_idc != 0 && idr
            &&& marking.ops.len() <= 64
        }),
{
    reveal(slice_marking);
    let ((_, slice_type, _, _), c1) = slice_identity(c, sps);
    let c2 = slice_order(c1, idr, sps, pps).1;
    let ((l0, l1), c3) = slice_ref_counts(c2, slice_type, pps);
    let c4 = ref_pic_list_modification(c3, slice_type);
    let chroma_array_type = if sps.chroma.separate_colour_plane_flag {
        0
    } else {
        sps.chroma.chroma_format_idc
    };
    let is_b = slice_type == SliceType::B;
    let weighted = if is_b {
        pps.weighted_bipred_idc == 1
    } else {
        is_inter(slice_type) && pps.weighted_pred_flag
    };
    let c5 = if weighted {
        pred_weight_table(c4, chroma_array_type, l0, l1, is_b)
    } else {
        c4
    };
    if ref_idc != 0 && !idr && c5.flag().0 {
        lemma_ops_are_bounded(c5.flag().1, Seq::empty());
    }
}

} // verus!
