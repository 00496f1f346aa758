//! Planning a decode session, and taking pictures through it.

use ash::vk;
use ash::vk::native as std_video;
use pixelforge::decoder::frames::SlotPins;
use pixelforge::decoder::h264::active::ActiveSession;
use pixelforge::decoder::h264::nal::NalType;
use pixelforge::decoder::h264::parser::{
    parse_pps, parse_sps, Pps, RefPicMarking, SliceHeader, SliceType, Sps,
};
use pixelforge::decoder::h264::session::{
    build_session_params, choose_format, dpb_usage, plan_session, profile_for, session_profile,
    sizes_fit, std_chroma_format_idc, std_level_idc, std_profile_idc, DecodeCaps, FormatPlan, SlotStep,
    VideoFormat, CREATE_MUTABLE_FORMAT, DPB_AND_OUTPUT_COINCIDE, SEPARATE_REFERENCE_IMAGES,
};
use pixelforge::decoder::h264::stream::Picture;
use pixelforge::video::{BitDepth, PixelFormat};

fn sps() -> Sps {
    parse_sps(&[
        0x64, 0x00, 0x0d, 0xac, 0xd9, 0x41, 0x41, 0xfa, 0x10, 0x00, 0x00, 0x03, 0x00, 0x10, 0x00,
        0x00, 0x03, 0x03, 0xc8, 0xf1, 0x42, 0x99, 0x60,
    ])
    .unwrap()
}

fn pps() -> Pps {
    parse_pps(&[0xeb, 0xe3, 0xcb, 0x22, 0xc0], |_: u8| Some(1)).unwrap()
}

fn caps() -> DecodeCaps {
    DecodeCaps {
        max_coded_width: 4096,
        max_coded_height: 2304,
        granularity_width: 64,
        granularity_height: 64,
        max_dpb_slots: 17,
        max_active_reference_pictures: 16,
        flags: SEPARATE_REFERENCE_IMAGES,
        decode_flags: DPB_AND_OUTPUT_COINCIDE,
        min_bitstream_buffer_offset_alignment: 256,
        min_bitstream_buffer_size_alignment: 0,
    }
}

#[test]
fn a_session_is_planned_from_stream_and_device() {
    let caps = caps();
    assert!(sizes_fit(&sps(), &caps));
    let plan = plan_session(&sps(), &pps(), &caps, 4, true).unwrap();
    assert_eq!((plan.coded_width, plan.coded_height), (320, 256));
    // Four references and the current picture; two for reordering, four to hold.
    assert_eq!(plan.slot_count, 11);
    assert_eq!(plan.spare_slots, 6);
    assert_eq!(plan.max_active_references, 4);
    assert_eq!(plan.reorder_depth, 2);
    assert!(plan.coincide && plan.pinnable && !plan.use_layered_dpb);
    assert_eq!(plan.bitstream_offset_alignment, 256);
    assert_eq!(plan.bitstream_size_alignment, 1);
    assert_eq!(plan.profile.pixel_format, PixelFormat::Yuv420);
    assert_eq!(plan.profile.bit_depth, BitDepth::Eight);
}

#[test]
fn spare_slots_are_bounded_by_the_device() {
    let mut caps = caps();
    caps.max_dpb_slots = 8;
    let plan = plan_session(&sps(), &pps(), &caps, 4, true).unwrap();
    assert_eq!((plan.slot_count, plan.spare_slots), (8, 3));
    // Any number may be asked for.
    let plan = plan_session(&sps(), &pps(), &caps, usize::MAX, true).unwrap();
    assert_eq!((plan.slot_count, plan.spare_slots), (8, 3));
    // Without pinning spares buy nothing.
    let plan = plan_session(&sps(), &pps(), &caps, 4, false).unwrap();
    assert_eq!((plan.slot_count, plan.spare_slots), (5, 0));
    assert!(!plan.pinnable);
    caps.decode_flags = 0;
    caps.flags = 0;
    let plan = plan_session(&sps(), &pps(), &caps, 4, true).unwrap();
    assert!(!plan.coincide && !plan.pinnable && plan.use_layered_dpb);
}

#[test]
fn reordering_is_bounded_by_the_references_where_it_is_not_signalled() {
    let mut sps = sps();
    sps.max_num_reorder_frames = None;
    let plan = plan_session(&sps, &pps(), &caps(), 1, true).unwrap();
    assert_eq!(plan.reorder_depth, 4);
    sps.max_num_ref_frames = 0;
    let plan = plan_session(&sps, &pps(), &caps(), 1, false).unwrap();
    assert_eq!((plan.reorder_depth, plan.slot_count), (0, 2));
}

fn refusal(sps: &Sps, pps: &Pps, caps: &DecodeCaps) -> String {
    plan_session(sps, pps, caps, 4, true).unwrap_err().message()
}

#[test]
fn streams_that_cannot_be_decoded_say_why() {
    let mut small = caps();
    small.max_coded_height = 240;
    assert_eq!(
        refusal(&sps(), &pps(), &small),
        "H.264 decode: stream is 320x256, device maximum is 4096x240"
    );
    let mut few = caps();
    few.max_dpb_slots = 4;
    assert_eq!(
        refusal(&sps(), &pps(), &few),
        "H.264 decode: stream needs 5 DPB slots, device supports 4"
    );
    let mut few = caps();
    few.max_active_reference_pictures = 3;
    assert_eq!(
        refusal(&sps(), &pps(), &few),
        "H.264 decode: stream needs 4 active reference pictures, device supports 3"
    );
    let mut scaled = pps();
    scaled.pic_scaling_matrix_present_flag = true;
    assert_eq!(
        refusal(&sps(), &scaled, &caps()),
        "H.264 decode: streams with explicit scaling matrices are not supported"
    );
    let mut other = sps();
    other.chroma_format_idc = 2;
    assert_eq!(
        refusal(&other, &pps(), &caps()),
        "H.264 decode: unsupported chroma_format_idc 2"
    );
    let mut other = sps();
    other.bit_depth_luma_minus8 = 1;
    assert_eq!(
        refusal(&other, &pps(), &caps()),
        "H.264 decode: unsupported luma bit depth 9"
    );
    let mut other = sps();
    other.seq_scaling_matrix_present_flag = true;
    assert_eq!(
        profile_for(&other).unwrap_err().message(),
        "H.264 decode: streams with explicit scaling matrices are not supported"
    );
    let mut other = sps();
    other.profile_idc = 88;
    assert_eq!(
        refusal(&other, &pps(), &caps()),
        "H.264 decode: unsupported profile_idc 88"
    );
    assert_eq!(
        std_chroma_format_idc(4).unwrap_err().message(),
        "H.264 decode: invalid chroma_format_idc 4"
    );
}

#[test]
fn a_session_profile_is_refused_for_either_parameter_set() {
    let profile = session_profile(&sps(), &pps()).unwrap();
    assert_eq!(profile.pixel_format, PixelFormat::Yuv420);
    assert_eq!(profile, profile_for(&sps()).unwrap());
    let reason = "H.264 decode: streams with explicit scaling matrices are not supported";
    let mut scaled = pps();
    scaled.pic_scaling_matrix_present_flag = true;
    // The PPS is looked at first.
    let mut odd = sps();
    odd.chroma_format_idc = 2;
    assert!(session_profile(&odd, &scaled).unwrap_err().message().contains(reason));
    let mut matrices = sps();
    matrices.seq_scaling_matrix_present_flag = true;
    assert!(session_profile(&matrices, &pps()).unwrap_err().message().contains(reason));
    assert!(session_profile(&odd, &pps())
        .unwrap_err()
        .message()
        .contains("unsupported chroma_format_idc 2"));
}

#[test]
fn sizes_beyond_the_machine_are_told() {
    let mut sps = sps();
    sps.pic_width_in_mbs_minus1 = u32::MAX;
    assert!(!sizes_fit(&sps, &caps()));
}

#[test]
fn numbers_are_those_of_the_standard_headers() {
    for (idc, number) in [
        (66, std_video::StdVideoH264ProfileIdc_STD_VIDEO_H264_PROFILE_IDC_BASELINE),
        (77, std_video::StdVideoH264ProfileIdc_STD_VIDEO_H264_PROFILE_IDC_MAIN),
        (100, std_video::StdVideoH264ProfileIdc_STD_VIDEO_H264_PROFILE_IDC_HIGH),
        (
            244,
            std_video::StdVideoH264ProfileIdc_STD_VIDEO_H264_PROFILE_IDC_HIGH_444_PREDICTIVE,
        ),
    ] {
        assert_eq!(std_profile_idc(idc), Ok(number as u32));
    }
    for (idc, number) in [
        (
            0,
            std_video::StdVideoH264ChromaFormatIdc_STD_VIDEO_H264_CHROMA_FORMAT_IDC_MONOCHROME,
        ),
        (1, std_video::StdVideoH264ChromaFormatIdc_STD_VIDEO_H264_CHROMA_FORMAT_IDC_420),
        (2, std_video::StdVideoH264ChromaFormatIdc_STD_VIDEO_H264_CHROMA_FORMAT_IDC_422),
        (3, std_video::StdVideoH264ChromaFormatIdc_STD_VIDEO_H264_CHROMA_FORMAT_IDC_444),
    ] {
        assert_eq!(std_chroma_format_idc(idc), Ok(number as u32));
    }
    for (idc, number) in [
        (10, std_video::StdVideoH264LevelIdc_STD_VIDEO_H264_LEVEL_IDC_1_0),
        (11, std_video::StdVideoH264LevelIdc_STD_VIDEO_H264_LEVEL_IDC_1_1),
        (12, std_video::StdVideoH264LevelIdc_STD_VIDEO_H264_LEVEL_IDC_1_2),
        (13, std_video::StdVideoH264LevelIdc_STD_VIDEO_H264_LEVEL_IDC_1_3),
        (20, std_video::StdVideoH264LevelIdc_STD_VIDEO_H264_LEVEL_IDC_2_0),
        (21, std_video::StdVideoH264LevelIdc_STD_VIDEO_H264_LEVEL_IDC_2_1),
        (22, std_video::StdVideoH264LevelIdc_STD_VIDEO_H264_LEVEL_IDC_2_2),
        (30, std_video::StdVideoH264LevelIdc_STD_VIDEO_H264_LEVEL_IDC_3_0),
        (31, std_video::StdVideoH264LevelIdc_STD_VIDEO_H264_LEVEL_IDC_3_1),
        (32, std_video::StdVideoH264LevelIdc_STD_VIDEO_H264_LEVEL_IDC_3_2),
        (40, std_video::StdVideoH264LevelIdc_STD_VIDEO_H264_LEVEL_IDC_4_0),
        (41, std_video::StdVideoH264LevelIdc_STD_VIDEO_H264_LEVEL_IDC_4_1),
        (42, std_video::StdVideoH264LevelIdc_STD_VIDEO_H264_LEVEL_IDC_4_2),
        (50, std_video::StdVideoH264LevelIdc_STD_VIDEO_H264_LEVEL_IDC_5_0),
        (51, std_video::StdVideoH264LevelIdc_STD_VIDEO_H264_LEVEL_IDC_5_1),
        (52, std_video::StdVideoH264LevelIdc_STD_VIDEO_H264_LEVEL_IDC_5_2),
        (60, std_video::StdVideoH264LevelIdc_STD_VIDEO_H264_LEVEL_IDC_6_0),
        (61, std_video::StdVideoH264LevelIdc_STD_VIDEO_H264_LEVEL_IDC_6_1),
        (62, std_video::StdVideoH264LevelIdc_STD_VIDEO_H264_LEVEL_IDC_6_2),
        (9, std_video::StdVideoH264LevelIdc_STD_VIDEO_H264_LEVEL_IDC_6_2),
    ] {
        assert_eq!(std_level_idc(idc), number as u32);
    }
    assert_eq!(
        DPB_AND_OUTPUT_COINCIDE,
        vk::VideoDecodeCapabilityFlagsKHR::DPB_AND_OUTPUT_COINCIDE.as_raw()
    );
    assert_eq!(
        SEPARATE_REFERENCE_IMAGES,
        vk::VideoCapabilityFlagsKHR::SEPARATE_REFERENCE_IMAGES.as_raw()
    );
    assert_eq!(
        CREATE_MUTABLE_FORMAT,
        vk::ImageCreateFlags::MUTABLE_FORMAT.as_raw()
    );
}

#[test]
fn dpb_images_are_used_as_their_role_asks() {
    let dpb = vk::ImageUsageFlags::VIDEO_DECODE_DPB_KHR;
    let coincident =
        dpb | vk::ImageUsageFlags::VIDEO_DECODE_DST_KHR | vk::ImageUsageFlags::TRANSFER_SRC;
    assert_eq!(dpb_usage(false, false), dpb.as_raw());
    assert_eq!(dpb_usage(true, false), coincident.as_raw());
    assert_eq!(
        dpb_usage(true, true),
        (coincident | vk::ImageUsageFlags::SAMPLED).as_raw()
    );
}

#[test]
fn the_preferred_format_is_picked_where_it_is_offered() {
    let offer = |format, create_flags| VideoFormat {
        format,
        create_flags,
    };
    let plain = vec![offer(7, 0)];
    let sampled = vec![offer(5, 0), offer(6, CREATE_MUTABLE_FORMAT)];
    assert_eq!(
        choose_format(&sampled, &plain, 6),
        Ok(FormatPlan {
            picture_format: 6,
            sampleable: true,
            plane_views: true
        })
    );
    // Else the first.
    assert_eq!(
        choose_format(&sampled, &plain, 9),
        Ok(FormatPlan {
            picture_format: 5,
            sampleable: true,
            plane_views: false
        })
    );
    assert_eq!(
        choose_format(&vec![], &plain, 6),
        Ok(FormatPlan {
            picture_format: 7,
            sampleable: false,
            plane_views: false
        })
    );
    assert_eq!(
        choose_format(&vec![], &vec![], 6).unwrap_err().message(),
        "H.264 decode: no supported picture format for this profile"
    );
}

#[test]
fn parameter_sets_are_handed_to_the_driver() {
    let mut sps = sps();
    sps.constraint_set_flags = 0b1010_0000;
    let (std_sps, std_pps) = build_session_params(&sps, &pps()).unwrap();
    assert!(std_sps.constraint_set0_flag && std_sps.constraint_set2_flag);
    assert!(!std_sps.constraint_set1_flag);
    assert!(std_sps.frame_mbs_only_flag && std_sps.direct_8x8_inference_flag);
    assert_eq!(std_sps.profile_idc, 100);
    assert_eq!(std_sps.pic_width_in_mbs_minus1, 19);
    assert_eq!(std_sps.log2_max_pic_order_cnt_lsb_minus4, 2);
    assert_eq!(std_sps.max_num_ref_frames, 4);
    assert!(std_pps.entropy_coding_mode_flag && std_pps.weighted_pred_flag);
    assert_eq!(std_pps.num_ref_idx_l0_default_active_minus1, 2);
    assert_eq!(std_pps.pic_init_qp_minus26, -3);
    assert_eq!(std_pps.second_chroma_qp_index_offset, -2);
}

fn format() -> FormatPlan {
    FormatPlan {
        picture_format: vk::Format::G8_B8R8_2PLANE_420_UNORM.as_raw(),
        sampleable: true,
        plane_views: false,
    }
}

fn picture<'a>(idr: bool, frame_num: u32, lsb: u32) -> Picture<'a> {
    Picture {
        header: SliceHeader {
            first_mb_in_slice: 0,
            slice_type: if idr { SliceType::I } else { SliceType::P },
            pps_id: 0,
            frame_num,
            field_pic_flag: false,
            idr_pic_id: 0,
            pic_order_cnt_lsb: lsb,
            delta_pic_order_cnt: [0, 0],
            marking: RefPicMarking::default(),
        },
        nal_type: if idr {
            NalType::IdrSlice
        } else {
            NalType::Slice
        },
        ref_idc: if idr { 3 } else { 2 },
        is_intra: idr,
        slices: vec![],
        sps: sps(),
        pps: pps(),
    }
}

#[test]
fn pictures_go_through_a_session() {
    let plan = plan_session(&sps(), &pps(), &caps(), 1, true).unwrap();
    let mut session = ActiveSession::new(sps(), pps(), plan, format(), 3);
    let mut pins = SlotPins::default();
    assert!(session.serves(&sps(), &pps()));
    let mut other = sps();
    other.level_idc = 31;
    assert!(!session.serves(&other, &pps()));
    let frames = session.frames();
    assert_eq!((frames.pinnable, frames.spare_slots), (true, 3));
    assert!(frames.access.sampleable && !frames.access.plane_views);

    // The keyframe: nothing to refer to, and the slots are reset.
    let idr = picture(true, 0, 0);
    assert!(session.picture_fits(&idr));
    let state = session.begin_picture(&idr).unwrap();
    assert_eq!(session.find_slot(&pins), Ok(SlotStep::Use(0)));
    let decode = session.plan_decode(&idr, &state, 0);
    assert!(decode.reset && decode.references.is_empty());
    assert_eq!(decode.begin_slots, vec![-1]);
    assert!(decode.picture.idr_pic_flag && decode.picture.is_intra);
    assert_eq!(session.plan_barriers(0).slot.old_layout, 0);
    assert!(session.publish_fits(&idr, &state));
    let shown = session.publish(&idr, &state, 0, 77);
    assert!(shown.is_keyframe);
    assert_eq!((shown.pts, shown.display_order, shown.generation), (77, 0, 3));
    assert_eq!((shown.width, shown.height), (320, 240));
    assert_eq!((shown.coded_width, shown.coded_height), (320, 256));

    // A picture that refers to it.
    let next = picture(false, 1, 4);
    let state = session.begin_picture(&next).unwrap();
    assert_eq!(state.poc, 4);
    assert_eq!(session.find_slot(&pins), Ok(SlotStep::Use(1)));
    let decode = session.plan_decode(&next, &state, 1);
    assert!(!decode.reset);
    assert_eq!(decode.begin_slots, vec![0, -1]);
    assert_eq!(decode.references[0].slot, 0);
    assert_eq!(decode.setup.slot, 1);
    assert_eq!(decode.setup.poc, (4, 4));
    let shown = session.publish(&next, &state, 1, 78);
    assert!(!shown.is_keyframe);

    // Slots that frames pin are decoded around, and there is always one left.
    for slot in [2, 3, 4] {
        pins.pin(slot);
    }
    for i in 2..40u32 {
        let more = picture(false, i % 16, i * 4 % 64);
        let state = session.begin_picture(&more).unwrap();
        match session.find_slot(&pins) {
            Ok(SlotStep::Use(slot)) => {
                assert!(!pins.is_pinned(slot));
                session.publish(&more, &state, slot, 0);
            }
            other => panic!("picture {i} found no slot: {other:?}"),
        }
    }
}
