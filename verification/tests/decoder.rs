//! The codec-generic decoder: bits, planes, staging, storage of frames, display
//! order, and the pipeline.

use ash::vk;
use pixelforge::decoder::bitreader::BitReader;
use pixelforge::decoder::common::{
    dpb_image_for_slot, picture_sharing_families, plan_barriers, session, stage_slices,
    LAYOUT_UNDEFINED, LAYOUT_VIDEO_DECODE_DPB, LAYOUT_VIDEO_DECODE_DST,
};
use pixelforge::decoder::config::{DecodeConfig, DecodeStatus, Framing, DEFAULT_OUTPUT_DEPTH};
use pixelforge::decoder::display::{
    DecodedFrame, DecodedPicture, DisplayQueue, Keep, SessionFrames, Storage,
};
use pixelforge::decoder::frames::SlotPins;
use pixelforge::decoder::h264::nal::iter_nal_units;
use pixelforge::decoder::pipeline::{
    grown_capacity, Completion, DecodePipeline, EndedPicture, Fence, Queue, SlotSync,
    DECODE_PIPELINE_DEPTH, INITIAL_BITSTREAM_BUFFER_SIZE,
};
use pixelforge::decoder::planes::{copy_extents, PlaneExtent, PlaneGeometry, ReadbackRegion};
use pixelforge::decoder::pool::{
    retain, FrameAccess, FramePool, ImageShape, Placement, PoolIndex, ReleaseQueue, Retained,
};
use pixelforge::decoder::reorder::{Buffered, ReorderBuffer};
use pixelforge::error::{InvalidInput, Lacking, PixelForgeError, Unsupported};
use pixelforge::video::{
    align4, align_up, distinct_families, find_memory_type, get_video_format, plane_view_formats,
    BitDepth, Codec, PixelFormat,
};

#[test]
fn test_bits() {
    let data = [0b1010_1100, 0b0111_0001];
    let mut r = BitReader::new(&data);
    assert_eq!(r.bits(4).unwrap(), 0b1010);
    assert_eq!(r.bits(8).unwrap(), 0b1100_0111);
    assert_eq!(r.bits(4).unwrap(), 0b0001);
    assert!(r.bit().is_err());
}

// The literals below are grouped by exp-Golomb codeword, not by nibble,
// which is the whole point of writing them out in binary.
#[allow(clippy::unusual_byte_groupings)]
#[test]
fn test_ue() {
    // ue codes: 1 -> 0, 010 -> 1, 011 -> 2, 00100 -> 3
    let data = [0b1_010_011_0, 0b0100_0000];
    let mut r = BitReader::new(&data);
    assert_eq!(r.ue().unwrap(), 0);
    assert_eq!(r.ue().unwrap(), 1);
    assert_eq!(r.ue().unwrap(), 2);
    assert_eq!(r.ue().unwrap(), 3);
}

#[allow(clippy::unusual_byte_groupings)]
#[test]
fn test_se() {
    // se: code 1 -> 0, 010 -> +1, 011 -> -1
    let data = [0b1_010_011_0];
    let mut r = BitReader::new(&data);
    assert_eq!(r.se().unwrap(), 0);
    assert_eq!(r.se().unwrap(), 1);
    assert_eq!(r.se().unwrap(), -1);
}

#[test]
fn test_emulation_prevention() {
    // 0x00 0x00 0x03 0x01 -> RBSP bytes 0x00 0x00 0x01
    let data = [0x00, 0x00, 0x03, 0x01];
    let mut r = BitReader::new(&data);
    assert_eq!(r.bits(8).unwrap(), 0x00);
    assert_eq!(r.bits(8).unwrap(), 0x00);
    assert_eq!(r.bits(8).unwrap(), 0x01);
    assert!(r.bits(8).is_err());
}

#[test]
fn emulation_prevention_starts_counting_anew() {
    // The byte behind a removed one does not continue the run of zeros before it.
    let data = [0, 0, 3, 0, 3, 0, 0, 3, 5];
    let mut r = BitReader::new(&data);
    let read: Vec<u32> = (0..7).map(|_| r.bits(8).unwrap()).collect();
    assert_eq!(read, vec![0, 0, 0, 3, 0, 0, 5]);
    assert_eq!(
        r.flag(),
        Err(PixelForgeError::InvalidInput(InvalidInput::EndOfNalUnit))
    );
}

#[test]
fn exp_golomb_codes_end() {
    // 31 leading zeros are the most there can be.
    let mut largest = vec![0, 0, 0, 1];
    largest.extend([0xff; 4]);
    let mut r = BitReader::new(&largest);
    assert_eq!(r.ue(), Ok(u32::MAX - 1));
    let too_long = [0, 0, 3, 0, 0, 0, 0x80];
    let mut r = BitReader::new(&too_long);
    assert_eq!(
        r.ue(),
        Err(PixelForgeError::InvalidInput(InvalidInput::ExpGolomb))
    );
}

#[test]
fn plane_geometry_reads_stay_in_bounds() {
    // (coded_width, coded_height, width, height)
    let cases = [
        (1920, 1088, 1920, 1080),
        (320, 240, 320, 240),
        (1280, 720, 1280, 720),
        (3840, 2160, 3840, 2160),
        (640, 480, 636, 476),
    ];
    for (cw, ch, w, h) in cases {
        for bd in [BitDepth::Eight, BitDepth::Ten] {
            for pf in [PixelFormat::Yuv420, PixelFormat::Yuv444] {
                assert!(PlaneGeometry::fits(cw, ch, w, bd, pf));
                let g = PlaneGeometry::new(cw, ch, w, h, bd, pf);
                assert!(
                    g.max_read_offset() <= g.total,
                    "{cw}x{ch} -> {w}x{h} {bd:?} {pf:?}: reads {} bytes but buffer is {}",
                    g.max_read_offset(),
                    g.total
                );
            }
        }
    }
}

#[test]
fn plane_geometry_nv12_1080p() {
    let g = PlaneGeometry::new(1920, 1088, 1920, 1080, BitDepth::Eight, PixelFormat::Yuv420);
    assert_eq!(g.y_stride, 1920);
    assert_eq!(g.y_size, 1920 * 1088);
    assert_eq!(g.uv_stride, 1920);
    assert_eq!(g.total, 1920 * 1088 + 1920 * 544);
    assert_eq!(g.visible_y_rows, 1080);
    assert_eq!(g.visible_uv_rows, 540);
}

#[test]
fn plane_geometry_p010_is_two_bytes_per_sample() {
    let g = PlaneGeometry::new(1920, 1088, 1920, 1080, BitDepth::Ten, PixelFormat::Yuv420);
    assert_eq!(g.y_stride, 1920 * 2);
    assert_eq!(g.visible_y_stride, 1920 * 2);
}

#[test]
fn plane_geometry_yuv444_chroma_is_full_size() {
    let g = PlaneGeometry::new(320, 240, 320, 240, BitDepth::Eight, PixelFormat::Yuv444);
    assert_eq!(g.chroma_div, 1);
    assert_eq!(g.uv_stride, 320 * 2);
    assert_eq!(g.visible_uv_rows, 240);
}

#[test]
fn planes_are_cropped_to_the_visible_region() {
    // A 4x4 picture of which 2x2 is visible.
    let g = PlaneGeometry::new(4, 4, 2, 2, BitDepth::Eight, PixelFormat::Yuv420);
    let bytes: Vec<u8> = (0..24).collect();
    assert_eq!(g.total, 24);
    let (y, uv) = g.read_planes(&bytes);
    assert_eq!(y, vec![0, 1, 4, 5]);
    assert_eq!(uv, vec![16, 17]);
    // All of it is visible.
    let g = PlaneGeometry::new(4, 4, 4, 4, BitDepth::Eight, PixelFormat::Yuv420);
    let (y, uv) = g.read_planes(&bytes);
    assert_eq!(y, bytes[..16]);
    assert_eq!(uv, bytes[16..]);
    // Nothing is.
    let g = PlaneGeometry::new(4, 4, 0, 0, BitDepth::Eight, PixelFormat::Yuv420);
    assert_eq!(g.max_read_offset(), 0);
    assert_eq!(g.read_planes(&[]), (vec![], vec![]));
}

#[test]
fn planes_are_read_back_whole() {
    let g = PlaneGeometry::new(320, 240, 320, 240, BitDepth::Eight, PixelFormat::Yuv420);
    let (y, uv) = g.readback_regions(320, 240);
    assert_eq!(
        y,
        ReadbackRegion {
            buffer_offset: 0,
            row_length: 320,
            image_height: 240
        }
    );
    assert_eq!(
        uv,
        ReadbackRegion {
            buffer_offset: 320 * 240,
            row_length: 160,
            image_height: 120
        }
    );
}

#[test]
fn layouts_that_cannot_be_addressed_are_told() {
    assert!(!PlaneGeometry::fits(
        u32::MAX,
        u32::MAX,
        1,
        BitDepth::Ten,
        PixelFormat::Yuv444
    ));
}

#[test]
fn chroma_is_copied_at_its_own_resolution() {
    let extents = |format| copy_extents(320, 240, format);
    let luma = PlaneExtent {
        width: 320,
        height: 240,
    };
    let chroma = |width, height| PlaneExtent { width, height };
    assert_eq!(extents(PixelFormat::Yuv420), (luma, chroma(160, 120)));
    assert_eq!(extents(PixelFormat::Yuv422), (luma, chroma(160, 240)));
    assert_eq!(extents(PixelFormat::Yuv444), (luma, luma));
}

#[test]
fn slices_are_staged_behind_start_codes() {
    let slices: [&[u8]; 2] = [&[0x65, 1, 2], &[0x65, 3]];
    let staged = stage_slices(&slices, 16).unwrap();
    assert_eq!(
        staged.bytes,
        vec![0, 0, 1, 0x65, 1, 2, 0, 0, 1, 0x65, 3, 0, 0, 0, 0, 0]
    );
    assert_eq!(staged.offsets, vec![0, 6]);
    // A reader of the buffer finds the slices again.
    let found: Vec<&[u8]> = iter_nal_units(&staged.bytes)
        .into_iter()
        .map(|n| n.data)
        .collect();
    assert_eq!(found, slices);
    // Nothing is padded where nothing need be.
    let staged = stage_slices(&slices, 1).unwrap();
    assert_eq!(staged.bytes.len(), 11);
    let none = stage_slices(&[], 256).unwrap();
    assert!(none.bytes.is_empty() && none.offsets.is_empty());
}

#[test]
fn a_slot_is_a_layer_or_an_image() {
    assert_eq!(dpb_image_for_slot(true, 5), (0, 5));
    assert_eq!(dpb_image_for_slot(false, 5), (5, 0));
}

#[test]
fn pictures_are_shared_with_those_who_touch_them() {
    assert_eq!(picture_sharing_families(1, 2, None), vec![1, 2]);
    assert_eq!(picture_sharing_families(1, 2, Some(0)), vec![1, 2, 0]);
    assert_eq!(distinct_families(&[1, 1]), vec![1]);
    assert_eq!(distinct_families(&[1, 2, 1, 0, 2]), vec![1, 2, 0]);
    assert_eq!(distinct_families(&[]), Vec::<u32>::new());
}

#[test]
fn layouts_follow_the_use_of_a_slot() {
    assert_eq!(
        LAYOUT_VIDEO_DECODE_DPB,
        vk::ImageLayout::VIDEO_DECODE_DPB_KHR.as_raw()
    );
    assert_eq!(
        LAYOUT_VIDEO_DECODE_DST,
        vk::ImageLayout::VIDEO_DECODE_DST_KHR.as_raw()
    );
    assert_eq!(LAYOUT_UNDEFINED, vk::ImageLayout::UNDEFINED.as_raw());
    let first = plan_barriers(false, false);
    assert_eq!(first.slot.old_layout, LAYOUT_UNDEFINED);
    assert_eq!(first.slot.new_layout, LAYOUT_VIDEO_DECODE_DPB);
    assert_eq!(first.output, None);
    let later = plan_barriers(true, true);
    assert_eq!(later.slot.old_layout, LAYOUT_VIDEO_DECODE_DPB);
    assert_eq!(
        later.output.map(|o| (o.old_layout, o.new_layout)),
        Some((LAYOUT_UNDEFINED, LAYOUT_VIDEO_DECODE_DST))
    );
}

#[test]
fn decoding_needs_a_session() {
    assert_eq!(session(Some(3)), Ok(3));
    let error = session::<u8>(None).unwrap_err();
    assert_eq!(error.message(), "decode: no active session");
}

fn entry(display_order: i32) -> Buffered<i32> {
    Buffered {
        display_order,
        item: display_order,
    }
}

/// Push pictures in decode order and return what comes out, call by call.
fn reordered(orders: &[(i32, bool)], depth: usize) -> Vec<Vec<i32>> {
    let mut buffer = ReorderBuffer::new();
    let mut out: Vec<Vec<i32>> = Vec::new();
    for &(order, keyframe) in orders {
        let ready = buffer.push(entry(order), keyframe, depth);
        out.push(ready.into_iter().map(|b| b.item).collect());
    }
    out.push(buffer.flush().into_iter().map(|b| b.item).collect());
    out
}

#[test]
fn display_order_is_restored() {
    // I P B b b, with two pictures of reordering.
    let decode_order = [
        (0, true),
        (4, false),
        (2, false),
        (1, false),
        (3, false),
        (8, false),
        (6, false),
        (5, false),
        (7, false),
    ];
    let shown: Vec<i32> = reordered(&decode_order, 2).concat();
    assert_eq!(shown, (0..=8).collect::<Vec<i32>>());
}

#[test]
fn pictures_come_out_at_once_without_reordering() {
    let out = reordered(&[(0, true), (2, false), (4, false)], 0);
    assert_eq!(out, vec![vec![0], vec![2], vec![4], vec![]]);
}

#[test]
fn a_keyframe_drains_what_came_before() {
    let out = reordered(&[(0, true), (8, false), (4, false), (0, true)], 4);
    assert_eq!(out, vec![vec![], vec![], vec![], vec![0, 4, 8], vec![0]]);
}

#[test]
fn equal_display_orders_come_out_as_they_were_pushed() {
    let mut buffer = ReorderBuffer::new();
    let mut out = Vec::new();
    for (item, display_order) in [4, 2, 2, 4, 2].into_iter().enumerate() {
        let picture = Buffered {
            display_order,
            item,
        };
        out.extend(buffer.push(picture, false, 3));
    }
    out.extend(buffer.flush());
    let items: Vec<usize> = out.iter().map(|p| p.item).collect();
    // Each of them once.
    assert_eq!(items, vec![1, 2, 4, 0, 3]);
}

fn shape(width: u32) -> ImageShape {
    ImageShape {
        coded_width: width,
        coded_height: 16,
        format: 1,
    }
}

#[test]
fn pool_images_are_reused_when_free() {
    let mut pool = FramePool::new();
    assert_eq!(pool.place(shape(16)), Placement::Grow);
    assert_eq!(pool.install(Placement::Grow, shape(16)), 0);
    pool.buffer(0);
    // The only image holds a picture.
    assert_eq!(pool.place(shape(16)), Placement::Grow);
    assert_eq!(pool.install(Placement::Grow, shape(32)), 1);
    // One of another shape is replaced, one of the same shape is used as it is.
    assert_eq!(pool.place(shape(16)), Placement::Replace(1));
    assert_eq!(pool.place(shape(32)), Placement::Reuse(1));
    assert!(!pool.has_live_frames());
    assert_eq!(pool.hand_out(0), PoolIndex(0));
    assert!(pool.has_live_frames());
    pool.reclaim(&vec![PoolIndex(0)]);
    assert!(!pool.has_live_frames());
    assert_eq!(pool.place(shape(16)), Placement::Reuse(0));
}

#[test]
fn pins_stay_within_the_spare_slots() {
    let mut pins = SlotPins::default();
    assert_eq!(retain(&mut pins, 3, true, 1), Retained::Slot);
    assert!(pins.is_pinned(3));
    // The budget is used up.
    assert_eq!(retain(&mut pins, 4, true, 1), Retained::Copy);
    assert!(!pins.is_pinned(4));
    pins.release(3);
    assert_eq!(retain(&mut pins, 4, true, 1), Retained::Slot);
    // Nothing is pinned that cannot be.
    assert_eq!(retain(&mut pins, 5, false, 9), Retained::Copy);
}

fn picture(slot: u8, display_order: i32, is_keyframe: bool) -> DecodedPicture {
    DecodedPicture {
        slot,
        pixel_format: PixelFormat::Yuv420,
        bit_depth: BitDepth::Eight,
        generation: 1,
        width: 14,
        height: 16,
        coded_width: 16,
        coded_height: 16,
        pts: display_order as u64 + 100,
        display_order,
        is_keyframe,
    }
}

fn session_frames(spare_slots: usize) -> SessionFrames {
    SessionFrames {
        pinnable: true,
        spare_slots,
        access: FrameAccess {
            sampleable: false,
            plane_views: false,
        },
        format: 1,
    }
}

/// Take a picture through the queue, as a decoder does.
fn push(
    queue: &mut DisplayQueue,
    picture: &DecodedPicture,
    session: &SessionFrames,
    pins: &mut SlotPins,
    releases: &mut ReleaseQueue,
    depth: usize,
) -> Vec<DecodedFrame> {
    let (mut frames, keep) = queue.begin_push(picture, session, pins, releases);
    let storage = match keep {
        Keep::Pinned => Storage::Slot(picture.slot),
        Keep::CopyTo(placement) => Storage::Pool(queue.install(placement, shape(16))),
    };
    frames.extend(queue.complete_push(picture, storage, session, depth));
    frames
}

#[test]
fn frames_stay_in_their_slots_while_there_are_spares() {
    let mut queue = DisplayQueue::new();
    let mut pins = SlotPins::default();
    let mut releases = ReleaseQueue::default();
    let session = session_frames(2);
    let first = push(&mut queue, &picture(0, 0, true), &session, &mut pins, &mut releases, 0);
    assert_eq!(first.len(), 1);
    assert_eq!(first[0].storage, Storage::Slot(0));
    assert_eq!((first[0].pts, first[0].width), (100, 14));
    assert!(!first[0].access.sampleable);
    push(&mut queue, &picture(1, 2, false), &session, &mut pins, &mut releases, 0);
    // No spare slot is left: this one is a copy, which allows everything.
    let third = push(&mut queue, &picture(2, 4, false), &session, &mut pins, &mut releases, 0);
    assert_eq!(third[0].storage, Storage::Pool(0));
    assert!(third[0].access.sampleable && third[0].access.plane_views);
    assert_eq!(pins.count(), 2);
    assert!(queue.has_live_frames(&mut releases));

    // The copy's image is not used again before its frame is dropped.
    let fourth = push(&mut queue, &picture(2, 6, false), &session, &mut pins, &mut releases, 0);
    assert_eq!(fourth[0].storage, Storage::Pool(1));
    releases.push(PoolIndex(0));
    let fifth = push(&mut queue, &picture(2, 8, false), &session, &mut pins, &mut releases, 0);
    assert_eq!(fifth[0].storage, Storage::Pool(0));
    // A dropped slot frame makes room for pinning.
    pins.release(0);
    let sixth = push(&mut queue, &picture(0, 10, false), &session, &mut pins, &mut releases, 0);
    assert_eq!(sixth[0].storage, Storage::Slot(0));
}

#[test]
fn waiting_copies_keep_their_images() {
    let mut queue = DisplayQueue::new();
    let mut pins = SlotPins::default();
    let mut releases = ReleaseQueue::default();
    let session = session_frames(0);
    for (i, order) in [0, 8, 4].into_iter().enumerate() {
        let out = push(
            &mut queue,
            &picture(i as u8, order, order == 0),
            &session,
            &mut pins,
            &mut releases,
            3,
        );
        assert!(out.is_empty());
    }
    // A keyframe drains them in display order, each from an image of its own.
    let out = push(&mut queue, &picture(4, 0, true), &session, &mut pins, &mut releases, 3);
    let got: Vec<(i32, Storage)> = out.iter().map(|f| (f.display_order, f.storage)).collect();
    assert_eq!(
        got,
        vec![
            (0, Storage::Pool(0)),
            (4, Storage::Pool(2)),
            (8, Storage::Pool(1))
        ]
    );
    let rest = queue.flush();
    assert_eq!(rest.len(), 1);
    assert_eq!(rest[0].storage, Storage::Pool(3));
    assert!(rest[0].is_keyframe);
}

#[test]
fn staging_buffers_grow_to_powers_of_two() {
    let initial = INITIAL_BITSTREAM_BUFFER_SIZE;
    assert_eq!(initial, 1024 * 1024);
    assert_eq!(grown_capacity(None, 0), Some(initial));
    assert_eq!(grown_capacity(None, initial), Some(initial));
    assert_eq!(grown_capacity(Some(initial), initial), None);
    assert_eq!(
        grown_capacity(Some(initial), initial + 1),
        Some(2 * initial)
    );
    assert_eq!(grown_capacity(None, 5_000_000), Some(8 * initial));
    assert_eq!(grown_capacity(None, 1 << 63), Some(1 << 63));
}

#[test]
fn submissions_chain_on_their_timelines() {
    let mut pipeline = DecodePipeline::new();
    let decode = pipeline.decode_submission();
    assert_eq!((decode.decode_wait, decode.copy_wait, decode.signal), (0, None, 1));
    pipeline.submitted(Queue::Decode);
    let copy = pipeline.copy_submission();
    assert_eq!((copy.decode_wait, copy.copy_wait, copy.signal), (1, Some(0), 1));
    pipeline.submitted(Queue::Copy);
    // The picture ends with the fence of its copy.
    assert_eq!(
        pipeline.end_picture(),
        EndedPicture {
            slot_index: 0,
            fence: Some(Fence {
                queue: Queue::Copy,
                slot: 0
            })
        }
    );
    let decode = pipeline.decode_submission();
    assert_eq!((decode.decode_wait, decode.signal), (1, 2));
    assert_eq!(decode.fence.slot, 1);
    pipeline.submitted(Queue::Decode);
    assert_eq!(pipeline.end_picture().slot_index, 1);
    // Back to the first slot; nothing was submitted for this picture.
    assert_eq!(
        pipeline.end_picture(),
        EndedPicture {
            slot_index: 0,
            fence: None
        }
    );
}

#[test]
fn slots_are_busy_until_their_work_is_done() {
    let mut sync = SlotSync::new(DECODE_PIPELINE_DEPTH);
    assert!(sync.all_free() && sync.is_free(0) && sync.is_free(1));
    sync.set_busy(1);
    assert!(sync.is_free(0) && !sync.is_free(1) && !sync.all_free());
    sync.set_free(1);
    assert!(sync.all_free());
}

#[test]
fn a_batch_keeps_its_frames_in_order() {
    let mut completion: Completion<u8, &str> = Completion::new();
    completion.absorb(vec![1, 2], None);
    completion.absorb(vec![], None);
    completion.absorb(vec![3], None);
    assert_eq!(completion.close(), Ok(vec![1, 2, 3]));
    // The first failure stands, and the frames go with it.
    completion.absorb(vec![4], Some("first"));
    completion.absorb(vec![5], Some("second"));
    assert_eq!(completion.close(), Err("first"));
    // The next batch starts afresh.
    completion.absorb(vec![6], None);
    assert_eq!(completion.close(), Ok(vec![6]));
}

#[test]
fn configurations_are_built_up() {
    let config = DecodeConfig::h264();
    assert_eq!(config.codec, Codec::H264);
    assert_eq!(config.output_depth, DEFAULT_OUTPUT_DEPTH);
    assert_eq!(config.consumer_queue_family, None);
    assert_eq!(config.framing, Framing::FrameAligned);
    let config = config
        .with_output_depth(7)
        .with_consumer_queue_family(2)
        .with_byte_stream();
    assert_eq!(config.output_depth, 7);
    assert_eq!(config.consumer_queue_family, Some(2));
    assert_eq!(config.framing, Framing::ByteStream);
}

#[test]
fn only_h264_is_decoded() {
    let mut config = DecodeConfig::h264();
    assert_eq!(config.check(true), Ok(()));
    let error = config.check(false).unwrap_err();
    assert_eq!(
        error,
        PixelForgeError::CodecNotSupported(Unsupported::Device(Codec::H264))
    );
    assert_eq!(
        error.message(),
        "H264 decode is not supported by the selected device"
    );
    config.codec = Codec::AV1;
    assert_eq!(
        config.check(true).unwrap_err().message(),
        "AV1 decoding is not implemented yet"
    );
}

#[test]
fn a_decoded_picture_outweighs_the_rest() {
    let (b, d, k) = (
        DecodeStatus::Buffered,
        DecodeStatus::Decoded,
        DecodeStatus::NeedsKeyframe,
    );
    assert_eq!(d.join(k), d);
    assert_eq!(k.join(d), d);
    assert_eq!(k.join(b), k);
    assert_eq!(b.join(k), k);
    assert_eq!(b.join(b), b);
}

#[test]
fn lacking_devices_are_told() {
    assert_eq!(
        PixelForgeError::NoSuitableDevice(Lacking::DecodeQueueFamily).message(),
        "Device has no video decode queue family"
    );
    assert_eq!(
        PixelForgeError::NoSuitableDevice(Lacking::DecodeQueue).message(),
        "Device has no video decode queue"
    );
}

#[test]
fn sizes_are_rounded_up() {
    assert_eq!(align_up(0, 16), 0);
    assert_eq!(align_up(1, 16), 16);
    assert_eq!(align_up(240, 16), 240);
    assert_eq!(align_up(7, 3), 9);
    assert_eq!(align4(0), 0);
    assert_eq!(align4(5), 8);
}

#[test]
fn the_first_suitable_memory_is_taken() {
    let local = vk::MemoryPropertyFlags::DEVICE_LOCAL.as_raw();
    let visible = vk::MemoryPropertyFlags::HOST_VISIBLE.as_raw();
    let types = [local, visible, local | visible];
    assert_eq!(find_memory_type(&types, 0b111, visible), Some(1));
    assert_eq!(find_memory_type(&types, 0b101, visible), Some(2));
    assert_eq!(find_memory_type(&types, 0b011, local | visible), None);
    assert_eq!(find_memory_type(&types, 0b111, 0), Some(0));
}

#[test]
fn picture_formats_are_two_plane() {
    for (format, depth, expected) in [
        (
            PixelFormat::Yuv420,
            BitDepth::Eight,
            vk::Format::G8_B8R8_2PLANE_420_UNORM,
        ),
        (
            PixelFormat::Yuv420,
            BitDepth::Ten,
            vk::Format::G10X6_B10X6R10X6_2PLANE_420_UNORM_3PACK16,
        ),
        (
            PixelFormat::Yuv422,
            BitDepth::Eight,
            vk::Format::G8_B8R8_2PLANE_422_UNORM,
        ),
        (
            PixelFormat::Yuv422,
            BitDepth::Ten,
            vk::Format::G10X6_B10X6R10X6_2PLANE_422_UNORM_3PACK16,
        ),
        (
            PixelFormat::Yuv444,
            BitDepth::Eight,
            vk::Format::G8_B8R8_2PLANE_444_UNORM,
        ),
        (
            PixelFormat::Yuv444,
            BitDepth::Ten,
            vk::Format::G10X6_B10X6R10X6_2PLANE_444_UNORM_3PACK16,
        ),
    ] {
        let got = get_video_format(format, depth);
        assert_eq!(got, expected.as_raw());
        let views = match depth {
            BitDepth::Eight => (vk::Format::R8_UNORM, vk::Format::R8G8_UNORM),
            BitDepth::Ten => (
                vk::Format::R10X6_UNORM_PACK16,
                vk::Format::R10X6G10X6_UNORM_2PACK16,
            ),
        };
        assert_eq!(
            plane_view_formats(got),
            Some((views.0.as_raw(), views.1.as_raw()))
        );
    }
    assert_eq!(plane_view_formats(vk::Format::R8_UNORM.as_raw()), None);
}
