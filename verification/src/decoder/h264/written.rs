//! How parameter sets and slice headers are written, as the syntax tables of the
//! standard lay them out (clauses 7.3.2 and 7.3.3), and that what is written is
//! what the parser reads.
//!
//! A `put_` function puts one structure before the bits that follow it. It writes
//! every field, also those that a decoder reads only to get past them.

use crate::decoder::bitreader::{cursor, leading_zeros, Cursor};
use crate::decoder::h264::syntax::{
    chroma_info, dec_ref_pic_marking, frame_info, hrd, hrd_entries, is_high_profile,
    list_modification, list_modifications, marking_ops, no_marking, poc_info, pps_head,
    pps_second_offset, pps_syntax, pps_tail_flags, pred_weight_table, pred_weights,
    ref_pic_list_modification, scaling_list, scaling_lists, signed_values, slice_header,
    slice_identity, slice_marking, slice_order, slice_ref_counts, sps_reorder, sps_syntax,
    vui_description, vui_reorder, vui_timing, ChromaInfo, FrameInfo, MarkingView, Mmco, PocView,
    Pps, SliceHeaderView, SliceType, SpsView,
};
use crate::decoder::written::{
    group_read_back, law_flag_is_read_back, law_se_is_read_back, law_ue_is_read_back, put_flag,
    put_se, put_u, put_ue, se_codes, ue_codes,
};
use crate::error::{InvalidInput, PixelForgeError};
use vstd::arithmetic::power2::{lemma2_to64, pow2};
use vstd::prelude::*;

verus! {

/// The difference by which one scale is coded behind another, modulo 256.
pub open spec fn scale_delta(last: int, scale: u8) -> i32 {
    let d = scale - last;
    if d > 127 {
        (d - 256) as i32
    } else if d < -128 {
        (d + 256) as i32
    } else {
        d as i32
    }
}

/// The scales of a `scaling_list()`, each as the difference to the one before it.
pub open spec fn put_scales(scales: Seq<u8>, last: int, rest: Seq<bool>) -> Seq<bool>
    decreases scales.len(),
{
    if scales.len() == 0 {
        rest
    } else {
        put_se(
            scale_delta(last, scales[0]),
            put_scales(scales.skip(1), scales[0] as int, rest),
        )
    }
}

/// Whether scales can be coded as a list of `n` entries: a zero ends the list early,
/// and nothing else does.
pub open spec fn scales_code(scales: Seq<u8>, n: nat) -> bool {
    &&& 1 <= scales.len() <= n
    &&& forall|i: int| 0 <= i < scales.len() - 1 ==> #[trigger] scales[i] != 0
    &&& scales.len() < n ==> scales.last() == 0
}

/// Scaling lists, each behind its present flag.
pub open spec fn put_lists(lists: Seq<Option<Seq<u8>>>, rest: Seq<bool>) -> Seq<bool>
    decreases lists.len(),
{
    if lists.len() == 0 {
        rest
    } else {
        let more = put_lists(lists.skip(1), rest);
        match lists[0] {
            Some(scales) => put_flag(true, put_scales(scales, 8, more)),
            None => put_flag(false, more),
        }
    }
}

/// Whether lists can be coded, the first of them having the given index: six of
/// sixteen entries, then those of 64.
pub open spec fn lists_code(lists: Seq<Option<Seq<u8>>>, first: nat) -> bool {
    forall|i: int|
        0 <= i < lists.len() ==> (#[trigger] lists[i] matches Some(scales) ==> scales_code(
            scales,
            if first + i < 6 {
                16
            } else {
                64
            },
        ))
}

proof fn lemma_scales(scales: Seq<u8>, n: nat, last: int, rest: Seq<bool>)
    requires
        scales_code(scales, n),
        1 <= last <= 255,
    ensures
        scaling_list(cursor(put_scales(scales, last, rest)), n, last, last) == cursor(rest),
    decreases scales.len(),
{
    let scale = scales[0];
    let more = scales.skip(1);
    let after = put_scales(more, scale as int, rest);
    law_se_is_read_back(scale_delta(last, scale), after);
    assert((last + scale_delta(last, scale) + 256) % 256 == scale);
    if scales.len() == 1 {
        assert(after == rest);
        if n > 1 {
            assert(scale == 0);
        }
        reveal_with_fuel(scaling_list, 2);
    } else {
        assert(scales[0] != 0);
        assert forall|i: int| 0 <= i < more.len() - 1 implies #[trigger] more[i] != 0 by {
            assert(more[i] == scales[i + 1]);
        }
        lemma_scales(more, (n - 1) as nat, scale as int, rest);
    }
}

proof fn lemma_lists(lists: Seq<Option<Seq<u8>>>, first: nat, count: nat, rest: Seq<bool>)
    requires
        first + lists.len() == count,
        lists_code(lists, first),
    ensures
        scaling_lists(cursor(put_lists(lists, rest)), first, count) == cursor(rest),
    decreases lists.len(),
{
    if lists.len() > 0 {
        let more = lists.skip(1);
        let after = put_lists(more, rest);
        assert forall|i: int| 0 <= i < more.len() implies (
        #[trigger] more[i] matches Some(scales) ==> scales_code(
            scales,
            if first + 1 + i < 6 {
                16
            } else {
                64
            },
        )) by {
            assert(more[i] == lists[i + 1]);
        }
        lemma_lists(more, first + 1, count, rest);
        match lists[0] {
            Some(scales) => {
                law_flag_is_read_back(true, put_scales(scales, 8, after));
                lemma_scales(
                    scales,
                    if first < 6 {
                        16
                    } else {
                        64
                    },
                    8,
                    after,
                );
            },
            None => {
                law_flag_is_read_back(false, after);
            },
        }
    }
}

/// The profiles whose parameter sets say what the samples are like (clause
/// 7.3.2.1.1).
pub open spec fn sends_chroma(profile_idc: u8) -> bool {
    seq![
        100u8,
        110u8,
        122u8,
        244u8,
        44u8,
        83u8,
        86u8,
        118u8,
        128u8,
        138u8,
        139u8,
        134u8,
        135u8,
    ].contains(profile_idc)
}

proof fn lemma_sends_chroma(profile_idc: u8)
    ensures
        sends_chroma(profile_idc) == is_high_profile(profile_idc),
{
    let all = seq![
        100u8,
        110u8,
        122u8,
        244u8,
        44u8,
        83u8,
        86u8,
        118u8,
        128u8,
        138u8,
        139u8,
        134u8,
        135u8,
    ];
    assert(all[0] == 100 && all[1] == 110 && all[2] == 122 && all[3] == 244 && all[4] == 44
        && all[5] == 83 && all[6] == 86 && all[7] == 118 && all[8] == 128 && all[9] == 138
        && all[10] == 139 && all[11] == 134 && all[12] == 135);
}

/// The sample format of a sequence: in the profiles that code it, the chroma format,
/// the plane flag where there can be three planes, both depths, the bypass flag, and
/// the scaling lists.
pub open spec fn put_chroma(
    chroma: ChromaInfo,
    profile_idc: u8,
    lists: Seq<Option<Seq<u8>>>,
    rest: Seq<bool>,
) -> Seq<bool> {
    if sends_chroma(profile_idc) {
        let tail = put_ue(
            chroma.bit_depth_luma_minus8 as u32,
            put_ue(
                chroma.bit_depth_chroma_minus8 as u32,
                put_flag(
                    chroma.qpprime_y_zero_transform_bypass_flag,
                    put_flag(
                        chroma.seq_scaling_matrix_present_flag,
                        if chroma.seq_scaling_matrix_present_flag {
                            put_lists(lists, rest)
                        } else {
                            rest
                        },
                    ),
                ),
            ),
        );
        put_ue(
            chroma.chroma_format_idc as u32,
            if chroma.chroma_format_idc == 3 {
                put_flag(chroma.separate_colour_plane_flag, tail)
            } else {
                tail
            },
        )
    } else {
        rest
    }
}

/// Whether a sample format can be coded: a profile that does not code it has 8-bit
/// 4:2:0 without any of the tools.
pub open spec fn chroma_codes(
    chroma: ChromaInfo,
    profile_idc: u8,
    lists: Seq<Option<Seq<u8>>>,
) -> bool {
    if sends_chroma(profile_idc) {
        &&& chroma.separate_colour_plane_flag ==> chroma.chroma_format_idc == 3
        &&& chroma.seq_scaling_matrix_present_flag ==> lists.len() == (
        if chroma.chroma_format_idc == 3 {
            12nat
        } else {
            8nat
        }) && lists_code(lists, 0)
    } else {
        chroma == (ChromaInfo {
            chroma_format_idc: 1,
            separate_colour_plane_flag: false,
            bit_depth_luma_minus8: 0,
            bit_depth_chroma_minus8: 0,
            qpprime_y_zero_transform_bypass_flag: false,
            seq_scaling_matrix_present_flag: false,
        })
    }
}

/// The sample format of a sequence is read back.
pub proof fn law_chroma_is_read_back(
    chroma: ChromaInfo,
    profile_idc: u8,
    lists: Seq<Option<Seq<u8>>>,
    rest: Seq<bool>,
)
    requires
        chroma_codes(chroma, profile_idc, lists),
    ensures
        chroma_info(cursor(put_chroma(chroma, profile_idc, lists, rest)), profile_idc) == (
            chroma,
            cursor(rest),
        ),
{
    broadcast use group_read_back;

    lemma_sends_chroma(profile_idc);
    if sends_chroma(profile_idc) && chroma.seq_scaling_matrix_present_flag {
        lemma_lists(
            lists,
            0,
            if chroma.chroma_format_idc == 3 {
                12
            } else {
                8
            },
            rest,
        );
    }
}

/// Signed values, one behind the other.
pub open spec fn put_signed(values: Seq<i32>, rest: Seq<bool>) -> Seq<bool>
    decreases values.len(),
{
    if values.len() == 0 {
        rest
    } else {
        put_se(values[0], put_signed(values.skip(1), rest))
    }
}

/// Whether every value has a code.
pub open spec fn all_se_code(values: Seq<i32>) -> bool {
    forall|i: int| 0 <= i < values.len() ==> se_codes(#[trigger] values[i])
}

proof fn lemma_signed(values: Seq<i32>, before: Seq<i32>, rest: Seq<bool>)
    requires
        all_se_code(values),
    ensures
        signed_values(cursor(put_signed(values, rest)), values.len(), before) == (
            before + values,
            cursor(rest),
        ),
    decreases values.len(),
{
    if values.len() == 0 {
        assert(before + values =~= before);
    } else {
        let more = values.skip(1);
        law_se_is_read_back(values[0], put_signed(more, rest));
        assert forall|i: int| 0 <= i < more.len() implies se_codes(#[trigger] more[i]) by {
            assert(more[i] == values[i + 1]);
        }
        lemma_signed(more, before.push(values[0]), rest);
        assert(before.push(values[0]) + more =~= before + values);
    }
}

/// How a sequence codes picture order counts: the type, then what the type needs.
pub open spec fn put_poc(poc: PocView, rest: Seq<bool>) -> Seq<bool> {
    put_ue(
        poc.pic_order_cnt_type as u32,
        if poc.pic_order_cnt_type == 0 {
            put_ue(poc.log2_max_pic_order_cnt_lsb_minus4 as u32, rest)
        } else if poc.pic_order_cnt_type == 1 {
            put_flag(
                poc.delta_pic_order_always_zero_flag,
                put_se(
                    poc.offset_for_non_ref_pic,
                    put_se(
                        poc.offset_for_top_to_bottom_field,
                        put_ue(
                            poc.offsets_for_ref_frame.len() as u32,
                            put_signed(poc.offsets_for_ref_frame, rest),
                        ),
                    ),
                ),
            )
        } else {
            rest
        },
    )
}

/// Whether it can be coded: there are three types, and each leaves unset what
/// belongs to the others.
pub open spec fn poc_codes(poc: PocView) -> bool {
    &&& poc.pic_order_cnt_type <= 2
    &&& poc.pic_order_cnt_type != 0 ==> poc.log2_max_pic_order_cnt_lsb_minus4 == 0
    &&& poc.pic_order_cnt_type != 1 ==> !poc.delta_pic_order_always_zero_flag
        && poc.offset_for_non_ref_pic == 0 && poc.offset_for_top_to_bottom_field == 0
        && poc.offsets_for_ref_frame.len() == 0
    &&& se_codes(poc.offset_for_non_ref_pic) && se_codes(poc.offset_for_top_to_bottom_field)
    &&& poc.offsets_for_ref_frame.len() < u32::MAX && all_se_code(poc.offsets_for_ref_frame)
}

/// The order count coding of a sequence is read back.
pub proof fn law_poc_is_read_back(poc: PocView, rest: Seq<bool>)
    requires
        poc_codes(poc),
    ensures
        poc_info(cursor(put_poc(poc, rest))) == (poc, cursor(rest)),
{
    broadcast use group_read_back;

    lemma_signed(poc.offsets_for_ref_frame, Seq::empty(), rest);
    assert(Seq::empty() + poc.offsets_for_ref_frame =~= poc.offsets_for_ref_frame);
    if poc.pic_order_cnt_type != 1 {
        assert(poc.offsets_for_ref_frame =~= Seq::empty());
    }
    let (read, after) = poc_info(cursor(put_poc(poc, rest)));
    assert(read =~= poc);
}

/// The picture geometry of a sequence. The crop offsets come as left, right, top,
/// bottom.
pub open spec fn put_frame(frame: FrameInfo, rest: Seq<bool>) -> Seq<bool> {
    let crop = put_flag(
        frame.frame_cropping_flag,
        if frame.frame_cropping_flag {
            put_ue(
                frame.frame_crop_left_offset,
                put_ue(
                    frame.frame_crop_right_offset,
                    put_ue(
                        frame.frame_crop_top_offset,
                        put_ue(frame.frame_crop_bottom_offset, rest),
                    ),
                ),
            )
        } else {
            rest
        },
    );
    let direct = put_flag(frame.direct_8x8_inference_flag, crop);
    put_ue(
        frame.max_num_ref_frames as u32,
        put_flag(
            frame.gaps_in_frame_num_value_allowed_flag,
            put_ue(
                frame.pic_width_in_mbs_minus1,
                put_ue(
                    frame.pic_height_in_map_units_minus1,
                    put_flag(
                        frame.frame_mbs_only_flag,
                        if frame.frame_mbs_only_flag {
                            direct
                        } else {
                            put_flag(frame.mb_adaptive_frame_field_flag, direct)
                        },
                    ),
                ),
            ),
        ),
    )
}

/// Whether a geometry can be coded: what is not sent is unset.
pub open spec fn frame_codes(frame: FrameInfo) -> bool {
    &&& ue_codes(frame.pic_width_in_mbs_minus1) && ue_codes(frame.pic_height_in_map_units_minus1)
    &&& frame.frame_mbs_only_flag ==> !frame.mb_adaptive_frame_field_flag
    &&& ue_codes(frame.frame_crop_left_offset) && ue_codes(frame.frame_crop_right_offset)
    &&& ue_codes(frame.frame_crop_top_offset) && ue_codes(frame.frame_crop_bottom_offset)
    &&& !frame.frame_cropping_flag ==> frame.frame_crop_left_offset == 0
        && frame.frame_crop_right_offset == 0 && frame.frame_crop_top_offset == 0
        && frame.frame_crop_bottom_offset == 0
}

/// The geometry of a sequence is read back.
pub proof fn law_frame_is_read_back(frame: FrameInfo, rest: Seq<bool>)
    requires
        frame_codes(frame),
    ensures
        frame_info(cursor(put_frame(frame, rest))) == (frame, cursor(rest)),
{
    broadcast use group_read_back;

}

/// The fields of `hrd_parameters()`.
pub struct HrdView {
    pub bit_rate_scale: u32,
    pub cpb_size_scale: u32,
    /// Bit rate, buffer size and constant rate flag of each schedule.
    pub schedules: Seq<(u32, u32, bool)>,
    pub initial_cpb_removal_delay_length_minus1: u32,
    pub cpb_removal_delay_length_minus1: u32,
    pub dpb_output_delay_length_minus1: u32,
    pub time_offset_length: u32,
}

/// The schedules of `hrd_parameters()`.
pub open spec fn put_schedules(schedules: Seq<(u32, u32, bool)>, rest: Seq<bool>) -> Seq<bool>
    decreases schedules.len(),
{
    if schedules.len() == 0 {
        rest
    } else {
        put_ue(
            schedules[0].0,
            put_ue(
                schedules[0].1,
                put_flag(schedules[0].2, put_schedules(schedules.skip(1), rest)),
            ),
        )
    }
}

/// `hrd_parameters()`: how many schedules there are, the scales, the schedules, and
/// the lengths of the delays.
pub open spec fn put_hrd(hrd: HrdView, rest: Seq<bool>) -> Seq<bool> {
    put_ue(
        (hrd.schedules.len() - 1) as u32,
        put_u(
            hrd.bit_rate_scale,
            4,
            put_u(
                hrd.cpb_size_scale,
                4,
                put_schedules(
                    hrd.schedules,
                    put_u(
                        hrd.initial_cpb_removal_delay_length_minus1,
                        5,
                        put_u(
                            hrd.cpb_removal_delay_length_minus1,
                            5,
                            put_u(
                                hrd.dpb_output_delay_length_minus1,
                                5,
                                put_u(hrd.time_offset_length, 5, rest),
                            ),
                        ),
                    ),
                ),
            ),
        ),
    )
}

/// Whether schedules can be coded.
pub open spec fn schedules_code(schedules: Seq<(u32, u32, bool)>) -> bool {
    forall|i: int|
        0 <= i < schedules.len() ==> ue_codes((#[trigger] schedules[i]).0) && ue_codes(
            schedules[i].1,
        )
}

/// Whether `hrd_parameters()` can be coded.
pub open spec fn hrd_codes(hrd: HrdView) -> bool {
    &&& hrd.bit_rate_scale < 16 && hrd.cpb_size_scale < 16
    &&& 1 <= hrd.schedules.len() <= u32::MAX
    &&& schedules_code(hrd.schedules)
    &&& hrd.initial_cpb_removal_delay_length_minus1 < 32 && hrd.cpb_removal_delay_length_minus1
        < 32 && hrd.dpb_output_delay_length_minus1 < 32 && hrd.time_offset_length < 32
}

proof fn lemma_schedules(schedules: Seq<(u32, u32, bool)>, rest: Seq<bool>)
    requires
        schedules_code(schedules),
    ensures
        hrd_entries(cursor(put_schedules(schedules, rest)), schedules.len()) == cursor(rest),
    decreases schedules.len(),
{
    broadcast use group_read_back;

    if schedules.len() > 0 {
        let more = schedules.skip(1);
        assert forall|i: int| 0 <= i < more.len() implies ue_codes((#[trigger] more[i]).0)
            && ue_codes(more[i].1) by {
            assert(more[i] == schedules[i + 1]);
        }
        assert(ue_codes(schedules[0].0) && ue_codes(schedules[0].1));
        lemma_schedules(more, rest);
    }
}

/// A decoder gets past `hrd_parameters()`.
pub proof fn law_hrd_is_passed(hrd_view: HrdView, rest: Seq<bool>)
    requires
        hrd_codes(hrd_view),
    ensures
        hrd(cursor(put_hrd(hrd_view, rest))) == cursor(rest),
{
    broadcast use group_read_back;

    lemma2_to64();
    let delays = put_u(
        hrd_view.initial_cpb_removal_delay_length_minus1,
        5,
        put_u(
            hrd_view.cpb_removal_delay_length_minus1,
            5,
            put_u(
                hrd_view.dpb_output_delay_length_minus1,
                5,
                put_u(hrd_view.time_offset_length, 5, rest),
            ),
        ),
    );
    lemma_schedules(hrd_view.schedules, delays);
}

/// The fields of `vui_parameters()`. What is absent is not sent.
pub struct VuiView {
    /// `aspect_ratio_idc`, and the width and height that are sent with the code 255.
    pub aspect_ratio: Option<(u32, u32, u32)>,
    pub overscan_appropriate: Option<bool>,
    /// Video format, range flag, and the colour description.
    pub video_signal: Option<(u32, bool, Option<(u32, u32, u32)>)>,
    /// Chroma sample locations of the top and bottom field.
    pub chroma_location: Option<(u32, u32)>,
    /// Units in a tick, time scale, and the fixed rate flag.
    pub timing: Option<(u32, u32, bool)>,
    pub nal_hrd: Option<HrdView>,
    pub vcl_hrd: Option<HrdView>,
    pub low_delay_hrd: bool,
    pub pic_struct_present: bool,
    pub restriction: Option<RestrictionView>,
}

/// The bitstream restriction that may end `vui_parameters()`.
pub struct RestrictionView {
    pub motion_vectors_over_pic_boundaries: bool,
    pub max_bytes_per_pic_denom: u32,
    pub max_bits_per_mb_denom: u32,
    pub log2_max_mv_length_horizontal: u32,
    pub log2_max_mv_length_vertical: u32,
    pub max_num_reorder_frames: u32,
    pub max_dec_frame_buffering: u32,
}

/// The picture description at the head of `vui_parameters()`.
pub open spec fn put_description(vui: VuiView, rest: Seq<bool>) -> Seq<bool> {
    let signal = match vui.video_signal {
        None => put_flag(false, rest),
        Some((format, full_range, colour)) => put_flag(
            true,
            put_u(
                format,
                3,
                put_flag(
                    full_range,
                    match colour {
                        None => put_flag(false, rest),
                        Some((primaries, transfer, matrix)) => put_flag(
                            true,
                            put_u(primaries, 8, put_u(transfer, 8, put_u(matrix, 8, rest))),
                        ),
                    },
                ),
            ),
        ),
    };
    let overscan = match vui.overscan_appropriate {
        None => put_flag(false, signal),
        Some(appropriate) => put_flag(true, put_flag(appropriate, signal)),
    };
    match vui.aspect_ratio {
        None => put_flag(false, overscan),
        Some((idc, width, height)) => put_flag(
            true,
            put_u(
                idc,
                8,
                if idc == 255 {
                    put_u(width, 16, put_u(height, 16, overscan))
                } else {
                    overscan
                },
            ),
        ),
    }
}

/// `hrd_parameters()` behind its present flag.
pub open spec fn put_optional_hrd(hrd: Option<HrdView>, rest: Seq<bool>) -> Seq<bool> {
    match hrd {
        None => put_flag(false, rest),
        Some(hrd) => put_flag(true, put_hrd(hrd, rest)),
    }
}

/// The location and timing part of `vui_parameters()`.
pub open spec fn put_timing(vui: VuiView, rest: Seq<bool>) -> Seq<bool> {
    let structure = put_flag(vui.pic_struct_present, rest);
    let delay = if vui.nal_hrd is Some || vui.vcl_hrd is Some {
        put_flag(vui.low_delay_hrd, structure)
    } else {
        structure
    };
    let hrds = put_optional_hrd(vui.nal_hrd, put_optional_hrd(vui.vcl_hrd, delay));
    let timing = match vui.timing {
        None => put_flag(false, hrds),
        Some((units, scale, fixed)) => put_flag(
            true,
            put_u(units, 32, put_u(scale, 32, put_flag(fixed, hrds))),
        ),
    };
    match vui.chroma_location {
        None => put_flag(false, timing),
        Some((top, bottom)) => put_flag(true, put_ue(top, put_ue(bottom, timing))),
    }
}

/// The bitstream restriction behind its present flag.
pub open spec fn put_restriction(
    restriction: Option<RestrictionView>,
    rest: Seq<bool>,
) -> Seq<bool> {
    match restriction {
        None => put_flag(false, rest),
        Some(r) => put_flag(
            true,
            put_flag(
                r.motion_vectors_over_pic_boundaries,
                put_ue(
                    r.max_bytes_per_pic_denom,
                    put_ue(
                        r.max_bits_per_mb_denom,
                        put_ue(
                            r.log2_max_mv_length_horizontal,
                            put_ue(
                                r.log2_max_mv_length_vertical,
                                put_ue(
                                    r.max_num_reorder_frames,
                                    put_ue(r.max_dec_frame_buffering, rest),
                                ),
                            ),
                        ),
                    ),
                ),
            ),
        ),
    }
}

/// Whether `vui_parameters()` can be coded.
pub open spec fn vui_codes(vui: VuiView) -> bool {
    &&& vui.aspect_ratio matches Some((idc, width, height)) ==> idc < 256 && width < 0x1_0000
        && height < 0x1_0000
    &&& vui.video_signal matches Some((format, _, colour)) ==> format < 8 && (
    colour matches Some((primaries, transfer, matrix)) ==> primaries < 256 && transfer < 256
        && matrix < 256)
    &&& vui.chroma_location matches Some((top, bottom)) ==> ue_codes(top) && ue_codes(bottom)
    &&& vui.nal_hrd matches Some(hrd) ==> hrd_codes(hrd)
    &&& vui.vcl_hrd matches Some(hrd) ==> hrd_codes(hrd)
    &&& vui.restriction matches Some(r) ==> ue_codes(r.max_bytes_per_pic_denom) && ue_codes(
        r.max_bits_per_mb_denom,
    ) && ue_codes(r.log2_max_mv_length_horizontal) && ue_codes(r.log2_max_mv_length_vertical)
        && ue_codes(r.max_num_reorder_frames) && ue_codes(r.max_dec_frame_buffering)
}

proof fn lemma_widths()
    ensures
        pow2(2) == 4,
        pow2(3) == 8,
        pow2(4) == 16,
        pow2(5) == 32,
        pow2(8) == 256,
        pow2(16) == 0x1_0000,
        pow2(32) == 0x1_0000_0000,
{
    lemma2_to64();
}

proof fn lemma_description(vui: VuiView, rest: Seq<bool>)
    requires
        vui_codes(vui),
    ensures
        vui_description(cursor(put_description(vui, rest))) == cursor(rest),
{
    broadcast use group_read_back;

    lemma_widths();
}

proof fn lemma_timing(vui: VuiView, rest: Seq<bool>)
    requires
        vui_codes(vui),
    ensures
        vui_timing(cursor(put_timing(vui, rest))) == cursor(rest),
{
    broadcast use group_read_back;

    lemma_widths();
    let structure = put_flag(vui.pic_struct_present, rest);
    let delay = if vui.nal_hrd is Some || vui.vcl_hrd is Some {
        put_flag(vui.low_delay_hrd, structure)
    } else {
        structure
    };
    if let Some(hrd_view) = vui.vcl_hrd {
        law_hrd_is_passed(hrd_view, delay);
    }
    if let Some(hrd_view) = vui.nal_hrd {
        law_hrd_is_passed(hrd_view, put_optional_hrd(vui.vcl_hrd, delay));
    }
}

/// `vui_parameters()`.
pub open spec fn put_vui(vui: VuiView, rest: Seq<bool>) -> Seq<bool> {
    put_description(vui, put_timing(vui, put_restriction(vui.restriction, rest)))
}

/// The reorder depth that `vui_parameters()` signals is read back, whatever else is
/// sent with it.
pub proof fn law_reorder_depth_is_read_back(vui: VuiView, rest: Seq<bool>)
    requires
        vui_codes(vui),
    ensures
        vui_reorder(cursor(put_vui(vui, rest))) == (
            match vui.restriction {
                Some(r) => Some(r.max_num_reorder_frames),
                None => None,
            },
            cursor(rest),
        ),
{
    broadcast use group_read_back;

    let restriction = put_restriction(vui.restriction, rest);
    lemma_timing(vui, restriction);
    lemma_description(vui, put_timing(vui, restriction));
}

/// What a sequence parameter set holds beside the fields of [`SpsView`].
pub struct SpsExtras {
    /// The scaling lists, where there are any.
    pub lists: Seq<Option<Seq<u8>>>,
    pub vui: Option<VuiView>,
}

/// The mandatory fields of `seq_parameter_set_data()` (clause 7.3.2.1.1).
pub open spec fn put_sps_fields(
    sps: SpsView,
    lists: Seq<Option<Seq<u8>>>,
    rest: Seq<bool>,
) -> Seq<bool> {
    put_u(
        sps.profile_idc as u32,
        8,
        put_u(
            sps.constraint_set_flags as u32,
            8,
            put_u(
                sps.level_idc as u32,
                8,
                put_ue(
                    sps.sps_id as u32,
                    put_chroma(
                        sps.chroma,
                        sps.profile_idc,
                        lists,
                        put_ue(
                            sps.log2_max_frame_num_minus4 as u32,
                            put_poc(sps.poc, put_frame(sps.frame, rest)),
                        ),
                    ),
                ),
            ),
        ),
    )
}

/// `seq_parameter_set_data()` (clause 7.3.2.1.1).
pub open spec fn put_sps(sps: SpsView, extras: SpsExtras, rest: Seq<bool>) -> Seq<bool> {
    put_sps_fields(
        sps,
        extras.lists,
        match extras.vui {
            None => put_flag(false, rest),
            Some(vui) => put_flag(true, put_vui(vui, rest)),
        },
    )
}

/// Whether a sequence parameter set can be coded. Its reorder depth is that of the
/// bitstream restriction.
pub open spec fn sps_codes(sps: SpsView, extras: SpsExtras) -> bool {
    &&& chroma_codes(sps.chroma, sps.profile_idc, extras.lists)
    &&& poc_codes(sps.poc)
    &&& frame_codes(sps.frame)
    &&& extras.vui matches Some(vui) ==> vui_codes(vui)
    &&& sps.max_num_reorder_frames == match extras.vui {
        Some(vui) => match vui.restriction {
            Some(r) => Some(r.max_num_reorder_frames),
            None => None,
        },
        None => None,
    }
}

/// The mandatory fields of a sequence parameter set are read back, whatever follows
/// them. A malformed VUI, or none at all, leaves only the reorder depth unset.
pub proof fn law_sps_fields_are_read_back(
    sps: SpsView,
    lists: Seq<Option<Seq<u8>>>,
    rest: Seq<bool>,
)
    requires
        chroma_codes(sps.chroma, sps.profile_idc, lists),
        poc_codes(sps.poc),
        frame_codes(sps.frame),
    ensures
        ({
            let (read, place) = sps_syntax(cursor(put_sps_fields(sps, lists, rest)));
            &&& place == cursor(rest)
            &&& read == (SpsView { max_num_reorder_frames: sps_reorder(cursor(rest)), ..sps })
            &&& rest.len() == 0 ==> read.max_num_reorder_frames is None
            &&& forall|vui: Seq<bool>|
                rest == put_flag(true, vui) && (#[trigger] vui_reorder(cursor(vui))).1.error is Some
                    ==> read.max_num_reorder_frames is None
        }),
{
    broadcast use group_read_back;

    reveal(sps_syntax);
    lemma_widths();
    let frame_bits = put_frame(sps.frame, rest);
    let poc_bits = put_poc(sps.poc, frame_bits);
    let number_bits = put_ue(sps.log2_max_frame_num_minus4 as u32, poc_bits);
    law_frame_is_read_back(sps.frame, rest);
    law_poc_is_read_back(sps.poc, frame_bits);
    law_chroma_is_read_back(sps.chroma, sps.profile_idc, lists, number_bits);
    assert(sps_syntax(cursor(put_sps_fields(sps, lists, rest))).0 =~= (SpsView {
        max_num_reorder_frames: sps_reorder(cursor(rest)),
        ..sps
    }));
}

/// A sequence parameter set is read back: parsing what was written gives every
/// field its value.
pub proof fn law_sps_is_read_back(sps: SpsView, extras: SpsExtras, rest: Seq<bool>)
    requires
        sps_codes(sps, extras),
    ensures
        sps_syntax(cursor(put_sps(sps, extras, rest))).0 == sps,
        sps_syntax(cursor(put_sps(sps, extras, rest))).1.error is None,
{
    broadcast use group_read_back;

    let vui_bits = match extras.vui {
        None => put_flag(false, rest),
        Some(vui) => put_flag(true, put_vui(vui, rest)),
    };
    if let Some(vui) = extras.vui {
        law_reorder_depth_is_read_back(vui, rest);
    }
    law_sps_fields_are_read_back(sps, extras.lists, vui_bits);
    assert(sps_syntax(cursor(put_sps(sps, extras, rest))).0 =~= sps);
}

/// The displayed size is the coded one less the crop offsets, in the units of the
/// chroma format (clause 7.4.2.1.1): columns count by the horizontal subsampling,
/// rows by the vertical one, and twice that where a sequence may hold fields.
pub proof fn law_crop_counts_in_chroma_samples(sps: SpsView)
    requires
        sps.chroma.chroma_format_idc <= 3,
    ensures
        ({
            let frame = sps.frame;
            let format = sps.chroma.chroma_format_idc;
            let columns = frame.frame_crop_left_offset + frame.frame_crop_right_offset;
            let rows = frame.frame_crop_top_offset + frame.frame_crop_bottom_offset;
            &&& sps.coded_width() == 16 * frame.pic_width_in_mbs_minus1 + 16
            &&& frame.frame_mbs_only_flag ==> sps.coded_height() == 16
                * frame.pic_height_in_map_units_minus1 + 16
            &&& !frame.frame_mbs_only_flag ==> sps.coded_height() == 32
                * frame.pic_height_in_map_units_minus1 + 32
            &&& !frame.frame_cropping_flag ==> sps.cropped_columns() == 0 && sps.cropped_rows()
                == 0
            &&& frame.frame_cropping_flag && (format == 1 || format == 2)
                ==> sps.cropped_columns() == 2 * columns
            &&& frame.frame_cropping_flag && (format == 0 || format == 3)
                ==> sps.cropped_columns() == columns
            &&& frame.frame_cropping_flag && format == 1 ==> sps.cropped_rows() == if
                frame.frame_mbs_only_flag {
                2 * rows
            } else {
                4 * rows
            }
            &&& frame.frame_cropping_flag && format != 1 ==> sps.cropped_rows() == if
                frame.frame_mbs_only_flag {
                rows
            } else {
                2 * rows
            }
        }),
{
}

/// The four codes behind a set cropping flag crop left, right, top and bottom: a
/// frame-only 4:2:0 sequence loses two columns for each of the first two and two
/// rows for each of the others, whatever else its parameter set holds.
pub proof fn law_crop_codes_crop(sps: SpsView, extras: SpsExtras, rest: Seq<bool>, crop: [u32; 4])
    requires
        sps_codes(sps, extras),
        sps.chroma.chroma_format_idc == 1,
        sps.frame.frame_mbs_only_flag && sps.frame.frame_cropping_flag,
        forall|i: int| 0 <= i < 4 ==> ue_codes(#[trigger] crop[i]),
    ensures
        ({
            let sent = SpsView {
                frame: FrameInfo {
                    frame_crop_left_offset: crop[0],
                    frame_crop_right_offset: crop[1],
                    frame_crop_top_offset: crop[2],
                    frame_crop_bottom_offset: crop[3],
                    ..sps.frame
                },
                ..sps
            };
            let read = sps_syntax(cursor(put_sps(sent, extras, rest))).0;
            &&& read.coded_width() == sps.coded_width()
            &&& read.coded_height() == sps.coded_height()
            &&& read.cropped_columns() == 2 * (crop[0] + crop[1])
            &&& read.cropped_rows() == 2 * (crop[2] + crop[3])
        }),
{
    let sent = SpsView {
        frame: FrameInfo {
            frame_crop_left_offset: crop[0],
            frame_crop_right_offset: crop[1],
            frame_crop_top_offset: crop[2],
            frame_crop_bottom_offset: crop[3],
            ..sps.frame
        },
        ..sps
    };
    law_sps_is_read_back(sent, extras, rest);
}

/// The mandatory fields of a picture parameter set (clause 7.3.2.2), which has one
/// slice group.
pub open spec fn put_pps_head(pps: Pps, rest: Seq<bool>) -> Seq<bool> {
    put_ue(
        pps.pps_id as u32,
        put_ue(
            pps.sps_id as u32,
            put_flag(
                pps.entropy_coding_mode_flag,
                put_flag(
                    pps.bottom_field_pic_order_in_frame_present_flag,
                    put_ue(
                        0,
                        put_ue(
                            pps.num_ref_idx_l0_default_active_minus1 as u32,
                            put_ue(
                                pps.num_ref_idx_l1_default_active_minus1 as u32,
                                put_flag(
                                    pps.weighted_pred_flag,
                                    put_u(
                                        pps.weighted_bipred_idc as u32,
                                        2,
                                        put_pps_quality(pps, rest),
                                    ),
                                ),
                            ),
                        ),
                    ),
                ),
            ),
        ),
    )
}

/// The quantiser offsets and the last three flags among the mandatory fields.
pub open spec fn put_pps_quality(pps: Pps, rest: Seq<bool>) -> Seq<bool> {
    put_se(
        pps.pic_init_qp_minus26 as i32,
        put_se(
            pps.pic_init_qs_minus26 as i32,
            put_se(
                pps.chroma_qp_index_offset as i32,
                put_flag(
                    pps.deblocking_filter_control_present_flag,
                    put_flag(
                        pps.constrained_intra_pred_flag,
                        put_flag(pps.redundant_pic_cnt_present_flag, rest),
                    ),
                ),
            ),
        ),
    )
}

/// The optional part of a picture parameter set.
pub open spec fn put_pps_tail(
    pps: Pps,
    lists: Seq<Option<Seq<u8>>>,
    rest: Seq<bool>,
) -> Seq<bool> {
    let second = put_se(pps.second_chroma_qp_index_offset as i32, rest);
    put_flag(
        pps.transform_8x8_mode_flag,
        put_flag(
            pps.pic_scaling_matrix_present_flag,
            if pps.pic_scaling_matrix_present_flag {
                put_lists(lists, second)
            } else {
                second
            },
        ),
    )
}

/// Whether the mandatory fields can be coded.
pub open spec fn pps_codes(pps: Pps) -> bool {
    pps.num_slice_groups_minus1 == 0 && pps.weighted_bipred_idc < 4
}

pub proof fn lemma_pps_head(pps: Pps, rest: Seq<bool>)
    requires
        pps_codes(pps),
    ensures
        pps_head(cursor(put_pps_head(pps, rest))) == (
            Pps {
                transform_8x8_mode_flag: false,
                pic_scaling_matrix_present_flag: false,
                second_chroma_qp_index_offset: pps.chroma_qp_index_offset,
                ..pps
            },
            cursor(rest),
        ),
{
    broadcast use group_read_back;

    lemma_widths();
}

/// A picture parameter set with its optional part is read back. Scaling lists are
/// those of a set that uses the 8x8 transform: six lists of sixteen entries, and two
/// of 64, or six where the chroma samples are as many as the luma samples.
pub proof fn law_pps_is_read_back(
    pps: Pps,
    lists: Seq<Option<Seq<u8>>>,
    chroma_format_idc: Option<u8>,
    rest: Seq<bool>,
)
    requires
        pps_codes(pps),
        pps.pic_scaling_matrix_present_flag ==> pps.transform_8x8_mode_flag && lists.len() == (if
            chroma_format_idc == Some(3u8) {
            12nat
        } else {
            8nat
        }) && lists_code(lists, 0),
    ensures
        pps_syntax(
            cursor(put_pps_head(pps, put_pps_tail(pps, lists, rest))),
            chroma_format_idc,
        ).0 == pps,
        pps_syntax(
            cursor(put_pps_head(pps, put_pps_tail(pps, lists, rest))),
            chroma_format_idc,
        ).1.error is None,
{
    broadcast use group_read_back;

    reveal(pps_syntax);
    let second = put_se(pps.second_chroma_qp_index_offset as i32, rest);
    lemma_pps_head(pps, put_pps_tail(pps, lists, rest));
    if pps.pic_scaling_matrix_present_flag {
        lemma_lists(
            lists,
            0,
            if chroma_format_idc == Some(3u8) {
                12
            } else {
                8
            },
            second,
        );
    }
}

/// What ends a NAL unit: a one, and zeros up to the end of the byte.
pub open spec fn trailing_bits(zeros: nat) -> Seq<bool> {
    put_flag(true, Seq::new(zeros, |i: int| false))
}

proof fn lemma_only_zeros(n: nat)
    ensures
        leading_zeros(Seq::new(n, |i: int| false)) == n,
    decreases n,
{
    let bits = Seq::new(n, |i: int| false);
    if n > 0 {
        lemma_only_zeros((n - 1) as nat);
        assert(bits.skip(1) =~= Seq::new((n - 1) as nat, |i: int| false));
    }
}

/// A picture parameter set without its optional part is read back: what ends the NAL
/// unit is not taken for it, and its fields keep the values that the standard infers.
pub proof fn law_short_pps_is_read_back(pps: Pps, chroma_format_idc: Option<u8>, zeros: nat)
    requires
        pps_codes(pps),
        zeros < 8,
        !pps.transform_8x8_mode_flag && !pps.pic_scaling_matrix_present_flag,
        pps.second_chroma_qp_index_offset == pps.chroma_qp_index_offset,
    ensures
        pps_syntax(
            cursor(put_pps_head(pps, trailing_bits(zeros))),
            chroma_format_idc,
        ).0 == pps,
        pps_syntax(
            cursor(put_pps_head(pps, trailing_bits(zeros))),
            chroma_format_idc,
        ).1.error is None,
{
    reveal(pps_syntax);
    lemma_pps_head(pps, trailing_bits(zeros));
    let padding = Seq::new(zeros, |i: int| false);
    law_flag_is_read_back(true, padding);
    if zeros > 0 {
        let left = Seq::new((zeros - 1) as nat, |i: int| false);
        assert(padding =~= put_flag(false, left)) by {
            reveal(put_flag);
        }
        law_flag_is_read_back(false, left);
        lemma_only_zeros((zeros - 1) as nat);
    }
}

/// The weights of one reference in a prediction weight table, each with its offset.
pub struct WeightView {
    pub luma: Option<(i32, i32)>,
    /// Those of Cb and of Cr.
    pub chroma: Option<((i32, i32), (i32, i32))>,
}

/// Entries of `pred_weight_table()` (clause 7.3.3.2).
pub open spec fn put_weights(
    weights: Seq<WeightView>,
    has_chroma: bool,
    rest: Seq<bool>,
) -> Seq<bool>
    decreases weights.len(),
{
    if weights.len() == 0 {
        rest
    } else {
        let more = put_weights(weights.skip(1), has_chroma, rest);
        let chroma = if !has_chroma {
            more
        } else {
            match weights[0].chroma {
                None => put_flag(false, more),
                Some((cb, cr)) => put_flag(
                    true,
                    put_se(cb.0, put_se(cb.1, put_se(cr.0, put_se(cr.1, more)))),
                ),
            }
        };
        match weights[0].luma {
            None => put_flag(false, chroma),
            Some((weight, offset)) => put_flag(true, put_se(weight, put_se(offset, chroma))),
        }
    }
}

/// Whether weights can be coded.
pub open spec fn weight_codes(weight: WeightView) -> bool {
    &&& weight.luma matches Some((w, o)) ==> se_codes(w) && se_codes(o)
    &&& weight.chroma matches Some((cb, cr)) ==> se_codes(cb.0) && se_codes(cb.1) && se_codes(
        cr.0,
    ) && se_codes(cr.1)
}

/// Whether every entry can be coded.
pub open spec fn weights_code(weights: Seq<WeightView>) -> bool {
    forall|i: int| 0 <= i < weights.len() ==> weight_codes(#[trigger] weights[i])
}

/// A decoder gets past the weights of a table, whichever of them are sent.
pub proof fn law_weights_are_passed(
    weights: Seq<WeightView>,
    has_chroma: bool,
    rest: Seq<bool>,
)
    requires
        weights_code(weights),
    ensures
        pred_weights(
            cursor(put_weights(weights, has_chroma, rest)),
            weights.len(),
            has_chroma,
        ) == cursor(rest),
    decreases weights.len(),
{
    broadcast use group_read_back;

    if weights.len() > 0 {
        let more = weights.skip(1);
        assert(weight_codes(weights[0]));
        assert forall|i: int| 0 <= i < more.len() implies weight_codes(#[trigger] more[i]) by {
            assert(more[i] == weights[i + 1]);
        }
        law_weights_are_passed(more, has_chroma, rest);
    }
}

/// The operations of one list modification, and the code that ends them (clause
/// 7.3.3.1).
pub open spec fn put_modifications(ops: Seq<(u32, u32)>, rest: Seq<bool>) -> Seq<bool>
    decreases ops.len(),
{
    if ops.len() == 0 {
        put_ue(3, rest)
    } else {
        put_ue(ops[0].0, put_ue(ops[0].1, put_modifications(ops.skip(1), rest)))
    }
}

/// Whether operations can be coded.
pub open spec fn modifications_code(ops: Seq<(u32, u32)>) -> bool {
    forall|i: int| 0 <= i < ops.len() ==> (#[trigger] ops[i]).0 < 3 && ue_codes(ops[i].1)
}

proof fn lemma_modifications(ops: Seq<(u32, u32)>, rest: Seq<bool>)
    requires
        modifications_code(ops),
    ensures
        list_modifications(cursor(put_modifications(ops, rest))) == cursor(rest),
    decreases ops.len(),
{
    if ops.len() == 0 {
        law_ue_is_read_back(3, rest);
    } else {
        let more = ops.skip(1);
        assert(ops[0].0 < 3 && ue_codes(ops[0].1));
        assert forall|i: int| 0 <= i < more.len() implies (#[trigger] more[i]).0 < 3 && ue_codes(
            more[i].1,
        ) by {
            assert(more[i] == ops[i + 1]);
        }
        lemma_modifications(more, rest);
        let after = put_modifications(more, rest);
        law_ue_is_read_back(ops[0].0, put_ue(ops[0].1, after));
        law_ue_is_read_back(ops[0].1, after);
    }
}

/// A list modification behind its present flag.
pub open spec fn put_modification(ops: Option<Seq<(u32, u32)>>, rest: Seq<bool>) -> Seq<bool> {
    match ops {
        None => put_flag(false, rest),
        Some(ops) => put_flag(true, put_modifications(ops, rest)),
    }
}

proof fn lemma_modification(ops: Option<Seq<(u32, u32)>>, rest: Seq<bool>)
    requires
        ops matches Some(ops) ==> modifications_code(ops),
    ensures
        list_modification(cursor(put_modification(ops, rest))) == cursor(rest),
{
    broadcast use group_read_back;

    if let Some(ops) = ops {
        lemma_modifications(ops, rest);
    }
}

/// A memory management control operation: its number and its operands (clause
/// 7.3.3.3).
pub open spec fn put_mmco(op: Mmco, rest: Seq<bool>) -> Seq<bool> {
    match op {
        Mmco::ForgetShort { difference_of_pic_nums_minus1 } => put_ue(
            1,
            put_ue(difference_of_pic_nums_minus1, rest),
        ),
        Mmco::ForgetLong { long_term_pic_num } => put_ue(2, put_ue(long_term_pic_num, rest)),
        Mmco::ShortToLong { difference_of_pic_nums_minus1, long_term_frame_idx } => put_ue(
            3,
            put_ue(difference_of_pic_nums_minus1, put_ue(long_term_frame_idx, rest)),
        ),
        Mmco::MaxLongTermIdx { max_long_term_frame_idx_plus1 } => put_ue(
            4,
            put_ue(max_long_term_frame_idx_plus1, rest),
        ),
        Mmco::ForgetAll => put_ue(5, rest),
        Mmco::CurrentToLong { long_term_frame_idx } => put_ue(6, put_ue(long_term_frame_idx, rest)),
    }
}

/// Operations, and the code that ends them.
pub open spec fn put_ops(ops: Seq<Mmco>, rest: Seq<bool>) -> Seq<bool>
    decreases ops.len(),
{
    if ops.len() == 0 {
        put_ue(0, rest)
    } else {
        put_mmco(ops[0], put_ops(ops.skip(1), rest))
    }
}

/// Whether an operation can be coded.
pub open spec fn mmco_codes(op: Mmco) -> bool {
    match op {
        Mmco::ForgetShort { difference_of_pic_nums_minus1 } => ue_codes(
            difference_of_pic_nums_minus1,
        ),
        Mmco::ForgetLong { long_term_pic_num } => ue_codes(long_term_pic_num),
        Mmco::ShortToLong { difference_of_pic_nums_minus1, long_term_frame_idx } => ue_codes(
            difference_of_pic_nums_minus1,
        ) && ue_codes(long_term_frame_idx),
        Mmco::MaxLongTermIdx { max_long_term_frame_idx_plus1 } => ue_codes(
            max_long_term_frame_idx_plus1,
        ),
        Mmco::ForgetAll => true,
        Mmco::CurrentToLong { long_term_frame_idx } => ue_codes(long_term_frame_idx),
    }
}

proof fn lemma_ops(ops: Seq<Mmco>, before: Seq<Mmco>, rest: Seq<bool>)
    requires
        before.len() + ops.len() <= 64,
        forall|i: int| 0 <= i < ops.len() ==> mmco_codes(#[trigger] ops[i]),
    ensures
        marking_ops(cursor(put_ops(ops, rest)), before) == (before + ops, cursor(rest)),
    decreases ops.len(),
{
    broadcast use group_read_back;

    if ops.len() == 0 {
        assert(before + ops =~= before);
    } else {
        let more = ops.skip(1);
        assert(mmco_codes(ops[0]));
        assert forall|i: int| 0 <= i < more.len() implies mmco_codes(#[trigger] more[i]) by {
            assert(more[i] == ops[i + 1]);
        }
        lemma_ops(more, before.push(ops[0]), rest);
        assert(before.push(ops[0]) + more =~= before + ops);
    }
}

/// `dec_ref_pic_marking()` (clause 7.3.3.3).
pub open spec fn put_marking(marking: MarkingView, idr: bool, rest: Seq<bool>) -> Seq<bool> {
    if idr {
        put_flag(
            marking.no_output_of_prior_pics_flag,
            put_flag(marking.long_term_reference_flag, rest),
        )
    } else {
        put_flag(
            marking.adaptive,
            if marking.adaptive {
                put_ops(marking.ops, rest)
            } else {
                rest
            },
        )
    }
}

/// Whether a marking can be coded: an IDR picture has its two flags, any other
/// picture its operations, of which a decoder takes up to 64.
pub open spec fn marking_codes(marking: MarkingView, idr: bool) -> bool {
    if idr {
        !marking.adaptive && marking.ops.len() == 0
    } else {
        &&& !marking.no_output_of_prior_pics_flag && !marking.long_term_reference_flag
        &&& !marking.adaptive ==> marking.ops.len() == 0
        &&& marking.ops.len() <= 64
        &&& forall|i: int| 0 <= i < marking.ops.len() ==> mmco_codes(#[trigger] marking.ops[i])
    }
}

/// The marking of a picture is read back.
pub proof fn law_marking_is_read_back(marking: MarkingView, idr: bool, rest: Seq<bool>)
    requires
        marking_codes(marking, idr),
    ensures
        dec_ref_pic_marking(cursor(put_marking(marking, idr, rest)), idr) == (
            marking,
            cursor(rest),
        ),
{
    broadcast use group_read_back;

    if !idr && marking.adaptive {
        lemma_ops(marking.ops, Seq::empty(), rest);
        assert(Seq::empty() + marking.ops =~= marking.ops);
    } else {
        assert(marking.ops =~= Seq::empty());
    }
    assert(dec_ref_pic_marking(cursor(put_marking(marking, idr, rest)), idr).0 =~= marking);
}

/// What a slice header holds beside the fields of [`SliceHeaderView`].
pub struct SliceExtras {
    /// Whether the code for the type says that all slices of the picture have it.
    pub whole_picture: bool,
    pub colour_plane_id: u32,
    pub bottom_field: bool,
    pub delta_pic_order_cnt_bottom: i32,
    pub redundant_pic_cnt: u32,
    pub direct_spatial_mv_pred: bool,
    /// The highest reference indices, where they differ from the defaults.
    pub counts: Option<(u32, u32)>,
    pub modification_l0: Option<Seq<(u32, u32)>>,
    pub modification_l1: Option<Seq<(u32, u32)>>,
    pub luma_log2_weight_denom: u32,
    pub chroma_log2_weight_denom: u32,
    pub weights_l0: Seq<WeightView>,
    pub weights_l1: Seq<WeightView>,
}

/// The code for a slice type (table 7-6).
pub open spec fn type_code(slice_type: SliceType, whole_picture: bool) -> u32 {
    let number: int = match slice_type {
        SliceType::P => 0,
        SliceType::B => 1,
        SliceType::I => 2,
        SliceType::Sp => 3,
        SliceType::Si => 4,
    };
    (if whole_picture {
        number + 5
    } else {
        number
    }) as u32
}

/// The fields of a slice header up to and with `frame_num` (clause 7.3.3).
pub open spec fn put_identity(
    header: SliceHeaderView,
    extras: SliceExtras,
    sps: SpsView,
    rest: Seq<bool>,
) -> Seq<bool> {
    let number = put_u(header.frame_num, (sps.log2_max_frame_num_minus4 + 4) as nat, rest);
    put_ue(
        header.first_mb_in_slice,
        put_ue(
            type_code(header.slice_type, extras.whole_picture),
            put_ue(
                header.pps_id as u32,
                if sps.chroma.separate_colour_plane_flag {
                    put_u(extras.colour_plane_id, 2, number)
                } else {
                    number
                },
            ),
        ),
    )
}

/// The fields of a slice header that order its picture.
pub open spec fn put_order(
    header: SliceHeaderView,
    extras: SliceExtras,
    idr: bool,
    sps: SpsView,
    pps: Pps,
    rest: Seq<bool>,
) -> Seq<bool> {
    let both = pps.bottom_field_pic_order_in_frame_present_flag && !header.field_pic_flag;
    let counts = if sps.poc.pic_order_cnt_type == 0 {
        put_u(
            header.pic_order_cnt_lsb,
            (sps.poc.log2_max_pic_order_cnt_lsb_minus4 + 4) as nat,
            if both {
                put_se(extras.delta_pic_order_cnt_bottom, rest)
            } else {
                rest
            },
        )
    } else if sps.poc.pic_order_cnt_type == 1 && !sps.poc.delta_pic_order_always_zero_flag {
        put_se(
            header.delta_pic_order_cnt.0,
            if both {
                put_se(header.delta_pic_order_cnt.1, rest)
            } else {
                rest
            },
        )
    } else {
        rest
    };
    let idr_id = if idr {
        put_ue(header.idr_pic_id as u32, counts)
    } else {
        counts
    };
    if sps.frame.frame_mbs_only_flag {
        idr_id
    } else {
        put_flag(
            header.field_pic_flag,
            if header.field_pic_flag {
                put_flag(extras.bottom_field, idr_id)
            } else {
                idr_id
            },
        )
    }
}

/// Whether slices of a type predict from one picture.
pub open spec fn predicts(slice_type: SliceType) -> bool {
    !(slice_type is I) && !(slice_type is Si)
}

/// Whether a slice has a prediction weight table.
pub open spec fn has_weights(slice_type: SliceType, pps: Pps) -> bool {
    match slice_type {
        SliceType::P | SliceType::Sp => pps.weighted_pred_flag,
        SliceType::B => pps.weighted_bipred_idc == 1,
        SliceType::I | SliceType::Si => false,
    }
}

/// Whether there are chroma samples to be weighted with the luma samples.
pub open spec fn has_chroma(sps: SpsView) -> bool {
    !sps.chroma.separate_colour_plane_flag && sps.chroma.chroma_format_idc != 0
}

/// The part of a slice header behind its ordering fields, up to its marking.
pub open spec fn put_prediction(
    header: SliceHeaderView,
    extras: SliceExtras,
    sps: SpsView,
    pps: Pps,
    rest: Seq<bool>,
) -> Seq<bool> {
    let is_b = header.slice_type is B;
    let entries = put_weights(
        extras.weights_l0,
        has_chroma(sps),
        if is_b {
            put_weights(extras.weights_l1, has_chroma(sps), rest)
        } else {
            rest
        },
    );
    let weights = if has_weights(header.slice_type, pps) {
        put_ue(
            extras.luma_log2_weight_denom,
            if has_chroma(sps) {
                put_ue(extras.chroma_log2_weight_denom, entries)
            } else {
                entries
            },
        )
    } else {
        rest
    };
    let second = if is_b {
        put_modification(extras.modification_l1, weights)
    } else {
        weights
    };
    let first = if predicts(header.slice_type) {
        put_modification(extras.modification_l0, second)
    } else {
        second
    };
    let counts = if predicts(header.slice_type) {
        match extras.counts {
            None => put_flag(false, first),
            Some((l0, l1)) => put_flag(
                true,
                put_ue(
                    l0,
                    if is_b {
                        put_ue(l1, first)
                    } else {
                        first
                    },
                ),
            ),
        }
    } else {
        first
    };
    let direct = if is_b {
        put_flag(extras.direct_spatial_mv_pred, counts)
    } else {
        counts
    };
    if pps.redundant_pic_cnt_present_flag {
        put_ue(extras.redundant_pic_cnt, direct)
    } else {
        direct
    }
}

/// A slice header up to and with its `dec_ref_pic_marking()` (clause 7.3.3).
pub open spec fn put_slice_header(
    header: SliceHeaderView,
    extras: SliceExtras,
    idr: bool,
    ref_idc: u8,
    sps: SpsView,
    pps: Pps,
    rest: Seq<bool>,
) -> Seq<bool> {
    put_identity(
        header,
        extras,
        sps,
        put_order(
            header,
            extras,
            idr,
            sps,
            pps,
            put_prediction(
                header,
                extras,
                sps,
                pps,
                if ref_idc != 0 {
                    put_marking(header.marking, idr, rest)
                } else {
                    rest
                },
            ),
        ),
    )
}

/// The highest reference indices of a slice.
pub open spec fn index_counts(extras: SliceExtras, slice_type: SliceType, pps: Pps) -> (u32, u32) {
    match extras.counts {
        Some((l0, l1)) => (
            l0,
            if slice_type is B {
                l1
            } else {
                pps.num_ref_idx_l1_default_active_minus1 as u32
            },
        ),
        None => (
            pps.num_ref_idx_l0_default_active_minus1 as u32,
            pps.num_ref_idx_l1_default_active_minus1 as u32,
        ),
    }
}

/// Whether the ordering fields can be coded: what is not sent is unset.
pub open spec fn order_codes(
    header: SliceHeaderView,
    extras: SliceExtras,
    idr: bool,
    sps: SpsView,
    pps: Pps,
) -> bool {
    let kind = sps.poc.pic_order_cnt_type;
    let both = pps.bottom_field_pic_order_in_frame_present_flag && !header.field_pic_flag;
    &&& sps.frame.frame_mbs_only_flag ==> !header.field_pic_flag
    &&& !idr ==> header.idr_pic_id == 0
    &&& sps.poc.log2_max_pic_order_cnt_lsb_minus4 <= 28
    &&& if kind == 0 {
        header.pic_order_cnt_lsb < sps.max_pic_order_cnt_lsb()
    } else {
        header.pic_order_cnt_lsb == 0
    }
    &&& se_codes(extras.delta_pic_order_cnt_bottom) && se_codes(header.delta_pic_order_cnt.0)
        && se_codes(header.delta_pic_order_cnt.1)
    &&& if kind == 1 && !sps.poc.delta_pic_order_always_zero_flag {
        both || header.delta_pic_order_cnt.1 == 0
    } else {
        header.delta_pic_order_cnt == (0i32, 0i32)
    }
}

/// Whether the part behind the ordering fields can be coded: indices are at most 31,
/// and there is a weight entry for each reference.
pub open spec fn prediction_codes(
    slice_type: SliceType,
    extras: SliceExtras,
    pps: Pps,
) -> bool {
    let (l0, l1) = index_counts(extras, slice_type, pps);
    &&& ue_codes(extras.redundant_pic_cnt)
    &&& predicts(slice_type) ==> l0 <= 31 && l1 <= 31
    &&& extras.modification_l0 matches Some(ops) ==> modifications_code(ops)
    &&& extras.modification_l1 matches Some(ops) ==> modifications_code(ops)
    &&& ue_codes(extras.luma_log2_weight_denom) && ue_codes(extras.chroma_log2_weight_denom)
    &&& weights_code(extras.weights_l0) && weights_code(extras.weights_l1)
    &&& has_weights(slice_type, pps) ==> extras.weights_l0.len() == l0 + 1
    &&& has_weights(slice_type, pps) && slice_type is B ==> extras.weights_l1.len() == l1 + 1
}

/// Whether a slice header can be coded.
pub open spec fn header_codes(
    header: SliceHeaderView,
    extras: SliceExtras,
    idr: bool,
    ref_idc: u8,
    sps: SpsView,
    pps: Pps,
) -> bool {
    &&& ue_codes(header.first_mb_in_slice)
    &&& extras.colour_plane_id < 4
    &&& sps.log2_max_frame_num_minus4 <= 28
    &&& header.frame_num < sps.max_frame_num()
    &&& order_codes(header, extras, idr, sps, pps)
    &&& prediction_codes(header.slice_type, extras, pps)
    &&& if ref_idc != 0 {
        marking_codes(header.marking, idr)
    } else {
        header.marking == no_marking()
    }
}

proof fn lemma_identity(
    header: SliceHeaderView,
    extras: SliceExtras,
    sps: SpsView,
    rest: Seq<bool>,
)
    requires
        ue_codes(header.first_mb_in_slice),
        extras.colour_plane_id < 4,
        sps.log2_max_frame_num_minus4 <= 28,
        header.frame_num < sps.max_frame_num(),
    ensures
        slice_identity(cursor(put_identity(header, extras, sps, rest)), sps) == (
            (header.first_mb_in_slice, header.slice_type, header.pps_id, header.frame_num),
            cursor(rest),
        ),
{
    broadcast use group_read_back;

    reveal(slice_identity);
    lemma_widths();
}

proof fn lemma_order(
    header: SliceHeaderView,
    extras: SliceExtras,
    idr: bool,
    sps: SpsView,
    pps: Pps,
    rest: Seq<bool>,
)
    requires
        order_codes(header, extras, idr, sps, pps),
    ensures
        slice_order(cursor(put_order(header, extras, idr, sps, pps, rest)), idr, sps, pps) == (
            (
                header.field_pic_flag,
                header.idr_pic_id,
                header.pic_order_cnt_lsb,
                header.delta_pic_order_cnt,
            ),
            cursor(rest),
        ),
{
    broadcast use group_read_back;

    reveal(slice_order);
}

proof fn lemma_marking_part(
    header: SliceHeaderView,
    extras: SliceExtras,
    idr: bool,
    ref_idc: u8,
    sps: SpsView,
    pps: Pps,
    rest: Seq<bool>,
)
    requires
        prediction_codes(header.slice_type, extras, pps),
        if ref_idc != 0 {
            marking_codes(header.marking, idr)
        } else {
            header.marking == no_marking()
        },
    ensures
        ({
            let tail = if ref_idc != 0 {
                put_marking(header.marking, idr, rest)
            } else {
                rest
            };
            slice_marking(
                cursor(put_prediction(header, extras, sps, pps, tail)),
                header.slice_type,
                idr,
                ref_idc,
                sps,
                pps,
            ) == (header.marking, cursor(rest))
        }),
{
    broadcast use group_read_back;

    reveal(slice_marking);
    let tail = if ref_idc != 0 {
        put_marking(header.marking, idr, rest)
    } else {
        rest
    };
    if ref_idc != 0 {
        law_marking_is_read_back(header.marking, idr, rest);
    }
    let is_b = header.slice_type is B;
    let chroma = has_chroma(sps);
    let (l0, l1) = index_counts(extras, header.slice_type, pps);
    let later = if is_b {
        put_weights(extras.weights_l1, chroma, tail)
    } else {
        tail
    };
    let entries = put_weights(extras.weights_l0, chroma, later);
    law_weights_are_passed(extras.weights_l1, chroma, tail);
    law_weights_are_passed(extras.weights_l0, chroma, later);
    let weights = if has_weights(header.slice_type, pps) {
        put_ue(
            extras.luma_log2_weight_denom,
            if chroma {
                put_ue(extras.chroma_log2_weight_denom, entries)
            } else {
                entries
            },
        )
    } else {
        tail
    };
    let array_type: u8 = if sps.chroma.separate_colour_plane_flag {
        0
    } else {
        sps.chroma.chroma_format_idc
    };
    if has_weights(header.slice_type, pps) {
        assert(pred_weight_table(cursor(weights), array_type, l0, l1, is_b) == cursor(tail));
    }
    let second = if is_b {
        put_modification(extras.modification_l1, weights)
    } else {
        weights
    };
    lemma_modification(extras.modification_l1, weights);
    lemma_modification(extras.modification_l0, second);
    let first = if predicts(header.slice_type) {
        put_modification(extras.modification_l0, second)
    } else {
        second
    };
    assert(ref_pic_list_modification(cursor(first), header.slice_type) == cursor(weights));
    let all = put_prediction(header, extras, sps, pps, tail);
    assert(slice_ref_counts(cursor(all), header.slice_type, pps) == ((l0, l1), cursor(first)) || (
    !predicts(header.slice_type) && slice_ref_counts(cursor(all), header.slice_type, pps).1
        == cursor(first)));
}

/// A slice header is read back: parsing what was written gives every field its
/// value, and the marking its operations, whatever reference counts, list
/// modifications and prediction weights stand before them.
pub proof fn law_slice_header_is_read_back(
    header: SliceHeaderView,
    extras: SliceExtras,
    idr: bool,
    ref_idc: u8,
    sps: SpsView,
    pps: Pps,
    rest: Seq<bool>,
)
    requires
        header_codes(header, extras, idr, ref_idc, sps, pps),
    ensures
        slice_header(
            cursor(put_slice_header(header, extras, idr, ref_idc, sps, pps, rest)),
            idr,
            ref_idc,
            sps,
            pps,
        ) == (header, cursor(rest)),
{
    let tail = if ref_idc != 0 {
        put_marking(header.marking, idr, rest)
    } else {
        rest
    };
    let prediction = put_prediction(header, extras, sps, pps, tail);
    let order = put_order(header, extras, idr, sps, pps, prediction);
    lemma_identity(header, extras, sps, order);
    lemma_order(header, extras, idr, sps, pps, prediction);
    lemma_marking_part(header, extras, idr, ref_idc, sps, pps, rest);
    assert(slice_header(
        cursor(put_slice_header(header, extras, idr, ref_idc, sps, pps, rest)),
        idr,
        ref_idc,
        sps,
        pps,
    ).0 =~= header);
}

/// `frame_num` and the order counts of type 0 have as many values as their bits can
/// tell apart: sixteen at least, and twice as many for each bit more.
pub proof fn law_cycles_double_with_each_bit(sps: SpsView, more: SpsView)
    requires
        more.log2_max_frame_num_minus4 == sps.log2_max_frame_num_minus4 + 1,
        more.poc.log2_max_pic_order_cnt_lsb_minus4 == sps.poc.log2_max_pic_order_cnt_lsb_minus4
            + 1,
    ensures
        more.max_frame_num() == 2 * sps.max_frame_num(),
        more.max_pic_order_cnt_lsb() == 2 * sps.max_pic_order_cnt_lsb(),
        sps.log2_max_frame_num_minus4 == 0 ==> sps.max_frame_num() == 16,
        sps.poc.log2_max_pic_order_cnt_lsb_minus4 == 0 ==> sps.max_pic_order_cnt_lsb() == 16,
{
    lemma2_to64();
    vstd::arithmetic::power2::lemma_pow2_unfold((more.log2_max_frame_num_minus4 + 4) as nat);
    vstd::arithmetic::power2::lemma_pow2_unfold(
        (more.poc.log2_max_pic_order_cnt_lsb_minus4 + 4) as nat,
    );
}

/// An order count type that the standard does not have is refused by its number.
pub proof fn law_unknown_order_type_is_refused(kind: u32, rest: Seq<bool>)
    requires
        ue_codes(kind),
        2 < kind < 256,
    ensures
        poc_info(cursor(put_ue(kind, rest))).1.error == Some(
            PixelForgeError::InvalidInput(InvalidInput::PicOrderCntType(kind as u8)),
        ),
{
    broadcast use group_read_back;

}

/// A picture with more than one slice group is refused.
pub proof fn law_slice_groups_are_refused(pps: Pps, groups: u32, rest: Seq<bool>)
    requires
        ue_codes(groups),
        groups > 0,
    ensures
        pps_head(
            cursor(
                put_ue(
                    pps.pps_id as u32,
                    put_ue(
                        pps.sps_id as u32,
                        put_flag(
                            pps.entropy_coding_mode_flag,
                            put_flag(
                                pps.bottom_field_pic_order_in_frame_present_flag,
                                put_ue(groups, rest),
                            ),
                        ),
                    ),
                ),
            ),
        ).1.error == Some(PixelForgeError::InvalidInput(InvalidInput::SliceGroups)),
{
    broadcast use group_read_back;

}

/// More references than the standard allows in a list are refused.
pub proof fn law_too_many_references_are_refused(
    slice_type: SliceType,
    pps: Pps,
    l0: u32,
    l1: u32,
    rest: Seq<bool>,
)
    requires
        predicts(slice_type),
        ue_codes(l0) && ue_codes(l1),
        l0 > 31 || slice_type is B && l1 > 31,
    ensures
        ({
            let counts = if slice_type is B {
                put_ue(l0, put_ue(l1, rest))
            } else {
                put_ue(l0, rest)
            };
            let direct = put_flag(true, counts);
            slice_ref_counts(
                cursor(
                    if slice_type is B {
                        put_flag(true, direct)
                    } else {
                        direct
                    },
                ),
                slice_type,
                Pps { redundant_pic_cnt_present_flag: false, ..pps },
            ).1.error == Some(PixelForgeError::InvalidInput(InvalidInput::NumRefIdxActive))
        }),
{
    broadcast use group_read_back;

}

/// A list modification that the standard does not have is refused by its number.
pub proof fn law_unknown_modification_is_refused(idc: u32, rest: Seq<bool>)
    requires
        ue_codes(idc),
        idc > 3,
    ensures
        list_modification(cursor(put_flag(true, put_ue(idc, rest)))).error == Some(
            PixelForgeError::InvalidInput(InvalidInput::ModificationOfPicNums(idc)),
        ),
{
    broadcast use group_read_back;

}

/// A memory management control operation that the standard does not have is refused
/// by its number.
pub proof fn law_unknown_operation_is_refused(op: u32, rest: Seq<bool>)
    requires
        ue_codes(op),
        op > 6,
    ensures
        dec_ref_pic_marking(cursor(put_flag(true, put_ue(op, rest))), false).1.error == Some(
            PixelForgeError::InvalidInput(InvalidInput::MemoryManagementControl(op)),
        ),
{
    broadcast use group_read_back;

}

/// The mandatory fields of a picture parameter set are read back, whatever follows
/// them. Where the optional part cannot be read to its end, its fields have the
/// values that the standard infers.
pub proof fn law_pps_fields_are_read_back(
    pps: Pps,
    chroma_format_idc: Option<u8>,
    rest: Seq<bool>,
)
    requires
        pps_codes(pps),
    ensures
        ({
            let (read, place) = pps_syntax(cursor(put_pps_head(pps, rest)), chroma_format_idc);
            let ((_, scaling), flags) = pps_tail_flags(cursor(rest));
            &&& place == cursor(rest)
            &&& (Pps {
                transform_8x8_mode_flag: pps.transform_8x8_mode_flag,
                pic_scaling_matrix_present_flag: pps.pic_scaling_matrix_present_flag,
                second_chroma_qp_index_offset: pps.second_chroma_qp_index_offset,
                ..read
            }) == pps
            &&& pps_second_offset(flags, scaling, chroma_format_idc).1.error is Some || rest.len()
                < 3 ==> !read.transform_8x8_mode_flag && !read.pic_scaling_matrix_present_flag
                && read.second_chroma_qp_index_offset == pps.chroma_qp_index_offset
        }),
{
    reveal(pps_syntax);
    lemma_pps_head(pps, rest);
    if rest.len() < 3 && !pps_tail_flags(cursor(rest)).0.1 {
        let place = pps_tail_flags(cursor(rest)).1;
        if place.error is None {
            assert(place.rest.len() == 0);
        }
    } else if rest.len() < 3 {
        let ((_, _), flags) = pps_tail_flags(cursor(rest));
        lemma_lists_need_bits(
            flags,
            if chroma_format_idc == Some(3u8) {
                12
            } else {
                8
            },
        );
    }
}

proof fn lemma_lists_need_bits(c: Cursor, count: nat)
    requires
        c.rest.len() == 0,
        count > 0,
    ensures
        scaling_lists(c, 0, count).error is Some,
{
    reveal_with_fuel(scaling_lists, 2);
    lemma_error_stays(c.flag().1, 1, count);
}

proof fn lemma_error_stays(c: Cursor, i: nat, count: nat)
    requires
        c.error is Some,
    ensures
        scaling_lists(c, i, count).error is Some,
    decreases count - i,
{
    if i < count {
        lemma_error_stays(c, i + 1, count);
    }
}

proof fn lemma_runaway(ops: Seq<Mmco>, before: Seq<Mmco>, rest: Seq<bool>)
    requires
        before.len() <= 64,
        before.len() + ops.len() > 64,
        forall|i: int| 0 <= i < ops.len() ==> mmco_codes(#[trigger] ops[i]),
    ensures
        marking_ops(cursor(put_ops(ops, rest)), before).1.error == Some(
            PixelForgeError::InvalidInput(InvalidInput::RunawayMarking),
        ),
    decreases ops.len(),
{
    broadcast use group_read_back;

    let more = ops.skip(1);
    assert(mmco_codes(ops[0]));
    if before.len() < 64 {
        assert forall|i: int| 0 <= i < more.len() implies mmco_codes(#[trigger] more[i]) by {
            assert(more[i] == ops[i + 1]);
        }
        lemma_runaway(more, before.push(ops[0]), rest);
    }
}

/// A marking with more than 64 operations is refused.
pub proof fn law_runaway_marking_is_refused(ops: Seq<Mmco>, rest: Seq<bool>)
    requires
        ops.len() > 64,
        forall|i: int| 0 <= i < ops.len() ==> mmco_codes(#[trigger] ops[i]),
    ensures
        dec_ref_pic_marking(cursor(put_flag(true, put_ops(ops, rest))), false).1.error == Some(
            PixelForgeError::InvalidInput(InvalidInput::RunawayMarking),
        ),
{
    broadcast use group_read_back;

    lemma_runaway(ops, Seq::empty(), rest);
}

/// A picture that nothing may refer to asks for no marking at all.
pub proof fn law_disposable_pictures_ask_for_no_marking()
    ensures
        !no_marking().adaptive,
        no_marking().ops.len() == 0,
        !no_marking().long_term_reference_flag,
        !no_marking().no_output_of_prior_pics_flag,
{
}

} // verus!
