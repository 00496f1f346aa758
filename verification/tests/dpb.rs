//! The decoded picture buffer: order counts, reference marking, and slots.

use pixelforge::decoder::frames::{SlotPins, WaitStep};
use pixelforge::decoder::h264::dpb::DecodeDpb;
use pixelforge::decoder::h264::nal::NalType;
use pixelforge::decoder::h264::parser::{Mmco, RefPicMarking, SliceHeader, SliceType, Sps};
use pixelforge::decoder::h264::session::{find_slot, SlotStep};
use pixelforge::error::{InvalidInput, PixelForgeError};

fn sps(poc_type: u8) -> Sps {
    Sps {
        pic_order_cnt_type: poc_type,
        log2_max_frame_num_minus4: 0,         // MaxFrameNum = 16
        log2_max_pic_order_cnt_lsb_minus4: 0, // MaxPocLsb = 16
        max_num_ref_frames: 2,
        frame_mbs_only_flag: true,
        ..Default::default()
    }
}

fn header(frame_num: u32, poc_lsb: u32) -> SliceHeader {
    SliceHeader {
        first_mb_in_slice: 0,
        slice_type: SliceType::P,
        pps_id: 0,
        frame_num,
        field_pic_flag: false,
        idr_pic_id: 0,
        pic_order_cnt_lsb: poc_lsb,
        delta_pic_order_cnt: [0, 0],
        marking: RefPicMarking::default(),
    }
}

/// A header carrying explicit reference marking.
fn header_with_mmco(frame_num: u32, poc_lsb: u32, ops: Vec<Mmco>) -> SliceHeader {
    SliceHeader {
        marking: RefPicMarking {
            adaptive: true,
            ops,
            ..Default::default()
        },
        ..header(frame_num, poc_lsb)
    }
}

/// A slot of a DPB of whose slots none is pinned.
fn allocate(dpb: &mut DecodeDpb) -> Option<u8> {
    dpb.try_allocate_slot(&SlotPins::default())
}

/// Decode one reference frame picture and return its slot.
fn decode_ref(dpb: &mut DecodeDpb, sps: &Sps, header: &SliceHeader) -> u8 {
    let state = dpb
        .begin_picture(NalType::Slice, 2, header, sps, false)
        .unwrap();
    let slot = allocate(dpb).unwrap();
    dpb.end_picture(slot, &state, sps);
    slot
}

/// The (slot, poc, long_term) triples currently held as references.
fn ref_summary(dpb: &DecodeDpb) -> Vec<(u8, i32, bool)> {
    dpb.references()
        .iter()
        .map(|r| (r.slot, r.poc.0, r.long_term))
        .collect()
}

#[test]
fn test_poc_type0_wraps() {
    let sps = sps(0);
    let mut dpb = DecodeDpb::new(4);
    // IDR at POC 0.
    let s = dpb
        .begin_picture(NalType::IdrSlice, 3, &header(0, 0), &sps, true)
        .unwrap();
    assert_eq!(s.poc, 0);
    // POC lsb increments by 2 per frame: 2, 4, ... 14, then wraps to 0.
    for i in 1..8 {
        let s = dpb
            .begin_picture(NalType::Slice, 2, &header(i, i * 2), &sps, false)
            .unwrap();
        assert_eq!(s.poc, (i * 2) as i32);
    }
    // lsb wraps 14 -> 0: MSB must advance by MaxPocLsb (16).
    let s = dpb
        .begin_picture(NalType::Slice, 2, &header(8, 0), &sps, false)
        .unwrap();
    assert_eq!(s.poc, 16);
    let s = dpb
        .begin_picture(NalType::Slice, 2, &header(9, 2), &sps, false)
        .unwrap();
    assert_eq!(s.poc, 18);
}

#[test]
fn test_poc_type2_is_decode_order() {
    let sps = sps(2);
    let mut dpb = DecodeDpb::new(4);
    let s = dpb
        .begin_picture(NalType::IdrSlice, 3, &header(0, 0), &sps, true)
        .unwrap();
    assert_eq!(s.poc, 0);
    let s = dpb
        .begin_picture(NalType::Slice, 2, &header(1, 0), &sps, false)
        .unwrap();
    assert_eq!(s.poc, 2);
    let s = dpb
        .begin_picture(NalType::Slice, 2, &header(2, 0), &sps, false)
        .unwrap();
    assert_eq!(s.poc, 4);
}

#[test]
fn poc_type1_follows_the_cycle() {
    let mut sps = sps(1);
    sps.offset_for_non_ref_pic = -1;
    sps.offsets_for_ref_frame = vec![2, 4];
    let mut dpb = DecodeDpb::new(4);
    let s = dpb
        .begin_picture(NalType::IdrSlice, 3, &header(0, 0), &sps, true)
        .unwrap();
    assert_eq!(s.poc, 0);
    // Reference frames: one entry of the cycle each.
    for (frame_num, poc) in [(1, 2), (2, 6), (3, 8)] {
        let s = dpb
            .begin_picture(NalType::Slice, 2, &header(frame_num, 0), &sps, false)
            .unwrap();
        assert_eq!(s.poc, poc);
    }
    // A disposable picture counts up to the reference before it.
    let s = dpb
        .begin_picture(NalType::Slice, 0, &header(4, 0), &sps, false)
        .unwrap();
    assert_eq!(s.poc, 7);
}

#[test]
fn test_sliding_window_evicts_oldest() {
    let sps = sps(0); // max_num_ref_frames = 2
    let mut dpb = DecodeDpb::new(4);

    // IDR.
    let s = dpb
        .begin_picture(NalType::IdrSlice, 3, &header(0, 0), &sps, true)
        .unwrap();
    let slot = allocate(&mut dpb).unwrap();
    dpb.end_picture(slot, &s, &sps);
    assert_eq!(dpb.references().len(), 1);

    // Two more reference frames: window fills, then evicts the IDR.
    for i in 1..=2u32 {
        let s = dpb
            .begin_picture(NalType::Slice, 2, &header(i, i * 2), &sps, false)
            .unwrap();
        let slot = allocate(&mut dpb).unwrap();
        dpb.end_picture(slot, &s, &sps);
    }
    assert_eq!(dpb.references().len(), 2);
    let frame_nums: Vec<u16> = dpb.references().iter().map(|r| r.frame_num).collect();
    assert_eq!(frame_nums, vec![1, 2]); // frame_num 0 (the IDR) slid out.
}

#[test]
fn the_window_knows_that_frame_numbers_wrap() {
    let sps = sps(0); // MaxFrameNum = 16
    let mut dpb = DecodeDpb::new(4);
    let idr = dpb
        .begin_picture(NalType::IdrSlice, 3, &header(14, 0), &sps, true)
        .unwrap();
    let slot = allocate(&mut dpb).unwrap();
    dpb.end_picture(slot, &idr, &sps);
    decode_ref(&mut dpb, &sps, &header(15, 2));
    // Frame number 0 comes after 15, so 14 is still the oldest.
    decode_ref(&mut dpb, &sps, &header(0, 4));
    let frame_nums: Vec<u16> = dpb.references().iter().map(|r| r.frame_num).collect();
    assert_eq!(frame_nums, vec![15, 0]);
}

/// MMCO 1 retires a specific short-term reference that the sliding window
/// would have kept. This is what B-pyramid streams rely on.
#[test]
fn test_mmco1_forgets_specific_short_term_ref() {
    let mut sps = sps(0);
    sps.max_num_ref_frames = 4; // Sliding window would not evict anything.
    let mut dpb = DecodeDpb::new(6);

    let idr = dpb
        .begin_picture(NalType::IdrSlice, 3, &header(0, 0), &sps, true)
        .unwrap();
    let idr_slot = allocate(&mut dpb).unwrap();
    dpb.end_picture(idr_slot, &idr, &sps);
    let s1 = decode_ref(&mut dpb, &sps, &header(1, 2));
    decode_ref(&mut dpb, &sps, &header(2, 4));
    assert_eq!(dpb.references().len(), 3);

    // From frame_num 3, difference_of_pic_nums_minus1 = 1 targets
    // PicNum 3 - (1 + 1) = 1, i.e. the frame_num 1 picture.
    let marked = header_with_mmco(
        3,
        6,
        vec![Mmco::ForgetShort {
            difference_of_pic_nums_minus1: 1,
        }],
    );
    decode_ref(&mut dpb, &sps, &marked);

    let frame_nums: Vec<u16> = dpb.references().iter().map(|r| r.frame_num).collect();
    assert_eq!(frame_nums, vec![0, 2, 3], "frame_num 1 should be retired");
    // Its slot must be reusable now.
    assert_eq!(allocate(&mut dpb).unwrap(), s1);
}

/// MMCO 6 marks the current picture long-term; MMCO 2 later drops it by
/// LongTermPicNum. Long-term refs are immune to the sliding window.
#[test]
fn test_mmco6_and_mmco2_long_term_lifecycle() {
    let sps = sps(0); // max_num_ref_frames = 2
    let mut dpb = DecodeDpb::new(6);

    let idr = dpb
        .begin_picture(NalType::IdrSlice, 3, &header(0, 0), &sps, true)
        .unwrap();
    let slot = allocate(&mut dpb).unwrap();
    dpb.end_picture(slot, &idr, &sps);

    // Current picture becomes long-term index 0.
    let marked = header_with_mmco(
        1,
        2,
        vec![Mmco::CurrentToLong {
            long_term_frame_idx: 0,
        }],
    );
    decode_ref(&mut dpb, &sps, &marked);
    assert_eq!(ref_summary(&dpb), vec![(0, 0, false), (1, 2, true)]);

    // A long-term reference survives sliding-window pressure that would
    // otherwise evict the oldest picture.
    decode_ref(&mut dpb, &sps, &header(2, 4));
    decode_ref(&mut dpb, &sps, &header(3, 6));
    assert!(
        dpb.references().iter().any(|r| r.long_term),
        "long-term ref must not slide out"
    );

    // MMCO 2 drops it explicitly by LongTermPicNum.
    let marked = header_with_mmco(
        4,
        8,
        vec![Mmco::ForgetLong {
            long_term_pic_num: 0,
        }],
    );
    decode_ref(&mut dpb, &sps, &marked);
    assert!(
        !dpb.references().iter().any(|r| r.long_term),
        "long-term ref should be gone"
    );
}

/// MMCO 3 converts a short-term reference into a long-term one in place.
#[test]
fn test_mmco3_converts_short_to_long_term() {
    let mut sps = sps(0);
    sps.max_num_ref_frames = 4;
    let mut dpb = DecodeDpb::new(6);

    let idr = dpb
        .begin_picture(NalType::IdrSlice, 3, &header(0, 0), &sps, true)
        .unwrap();
    let slot = allocate(&mut dpb).unwrap();
    dpb.end_picture(slot, &idr, &sps);
    decode_ref(&mut dpb, &sps, &header(1, 2));

    // From frame_num 2, target PicNum 2 - (0 + 1) = 1.
    let marked = header_with_mmco(
        2,
        4,
        vec![Mmco::ShortToLong {
            difference_of_pic_nums_minus1: 0,
            long_term_frame_idx: 3,
        }],
    );
    decode_ref(&mut dpb, &sps, &marked);

    let converted = dpb
        .references()
        .iter()
        .find(|r| r.frame_num == 1)
        .expect("frame_num 1 retained");
    assert!(converted.long_term);
    assert_eq!(converted.long_term_frame_idx, 3);
}

/// MMCO 4 bounds LongTermFrameIdx; a bound of 0 (plus1 == 0) clears them all.
#[test]
fn test_mmco4_bounds_long_term_indices() {
    let mut sps = sps(0);
    sps.max_num_ref_frames = 4;
    let mut dpb = DecodeDpb::new(6);

    let idr = dpb
        .begin_picture(NalType::IdrSlice, 3, &header(0, 0), &sps, true)
        .unwrap();
    let slot = allocate(&mut dpb).unwrap();
    dpb.end_picture(slot, &idr, &sps);

    let marked = header_with_mmco(
        1,
        2,
        vec![Mmco::CurrentToLong {
            long_term_frame_idx: 2,
        }],
    );
    decode_ref(&mut dpb, &sps, &marked);
    assert!(dpb.references().iter().any(|r| r.long_term_frame_idx == 2));

    // max_long_term_frame_idx_plus1 = 2 => MaxLongTermFrameIdx = 1, so
    // index 2 is out of range and must go.
    let marked = header_with_mmco(
        2,
        4,
        vec![Mmco::MaxLongTermIdx {
            max_long_term_frame_idx_plus1: 2,
        }],
    );
    decode_ref(&mut dpb, &sps, &marked);
    assert!(
        !dpb.references().iter().any(|r| r.long_term),
        "long-term index above the bound must be retired"
    );
}

#[test]
fn references_keep_their_order_and_their_slots() {
    let mut sps = sps(0);
    sps.max_num_ref_frames = 4;
    let mut dpb = DecodeDpb::new(5);
    let idr = dpb
        .begin_picture(NalType::IdrSlice, 3, &header(0, 0), &sps, true)
        .unwrap();
    let slot = allocate(&mut dpb).unwrap();
    dpb.end_picture(slot, &idr, &sps);
    for i in 1..4 {
        decode_ref(&mut dpb, &sps, &header(i, 2 * i));
    }
    assert_eq!(
        ref_summary(&dpb),
        vec![(0, 0, false), (1, 2, false), (2, 4, false), (3, 6, false)]
    );
    // One goes, one becomes a long-term reference; the current one is last.
    let marked = header_with_mmco(
        4,
        8,
        vec![
            Mmco::ForgetShort {
                difference_of_pic_nums_minus1: 2,
            },
            Mmco::ShortToLong {
                difference_of_pic_nums_minus1: 1,
                long_term_frame_idx: 1,
            },
        ],
    );
    assert_eq!(decode_ref(&mut dpb, &sps, &marked), 4);
    assert_eq!(
        ref_summary(&dpb),
        vec![(0, 0, false), (2, 4, true), (3, 6, false), (4, 8, false)]
    );
    // The freed slot is the only one to be had.
    assert_eq!(decode_ref(&mut dpb, &sps, &header(5, 10)), 1);
    assert_eq!(
        ref_summary(&dpb),
        vec![(2, 4, true), (3, 6, false), (4, 8, false), (1, 10, false)]
    );
}

/// An index that is given anew is taken from whoever had it.
#[test]
fn long_term_indices_are_unique() {
    let mut sps = sps(0);
    sps.max_num_ref_frames = 4;
    let mut dpb = DecodeDpb::new(6);
    let idr = dpb
        .begin_picture(NalType::IdrSlice, 3, &header(0, 0), &sps, true)
        .unwrap();
    let slot = allocate(&mut dpb).unwrap();
    dpb.end_picture(slot, &idr, &sps);
    let current_to_long = Mmco::CurrentToLong {
        long_term_frame_idx: 0,
    };
    decode_ref(&mut dpb, &sps, &header_with_mmco(1, 2, vec![current_to_long]));
    let marked = header_with_mmco(
        2,
        4,
        vec![
            Mmco::ShortToLong {
                difference_of_pic_nums_minus1: 1,
                long_term_frame_idx: 0,
            },
            Mmco::CurrentToLong {
                long_term_frame_idx: 1,
            },
        ],
    );
    decode_ref(&mut dpb, &sps, &marked);
    let indices: Vec<(i32, u32)> = dpb
        .references()
        .iter()
        .filter(|r| r.long_term)
        .map(|r| (r.poc.0, r.long_term_frame_idx))
        .collect();
    assert_eq!(indices, vec![(0, 0), (4, 1)]);
}

/// The largest frame number cycle is in the way only where it has to be subtracted.
#[test]
fn the_largest_cycle_is_refused_only_where_it_is_needed() {
    let mut sps = sps(0);
    sps.log2_max_frame_num_minus4 = 27;
    let mut dpb = DecodeDpb::new(4);
    let idr = dpb
        .begin_picture(NalType::IdrSlice, 3, &header(0, 0), &sps, true)
        .unwrap();
    let slot = allocate(&mut dpb).unwrap();
    assert!(dpb.marking_fits(&idr, &sps));
    dpb.end_picture(slot, &idr, &sps);

    let state = dpb
        .begin_picture(NalType::Slice, 2, &header(5, 2), &sps, false)
        .unwrap();
    assert!(dpb.marking_fits(&state, &sps));
    let slot = allocate(&mut dpb).unwrap();
    dpb.end_picture(slot, &state, &sps);
    assert_eq!(dpb.references()[1].frame_num_wrap, 5);

    let state = dpb
        .begin_picture(NalType::Slice, 2, &header(4, 4), &sps, false)
        .unwrap();
    assert!(!dpb.marking_fits(&state, &sps));
    sps.log2_max_frame_num_minus4 = 26;
    assert!(dpb.marking_fits(&state, &sps));
    sps.log2_max_frame_num_minus4 = 28;
    assert!(!dpb.marking_fits(&state, &sps));
}

/// MMCO 5 empties the DPB and rebases frame_num/POC to zero.
#[test]
fn test_mmco5_resets_dpb_and_poc() {
    let sps = sps(0);
    let mut dpb = DecodeDpb::new(6);

    let idr = dpb
        .begin_picture(NalType::IdrSlice, 3, &header(0, 0), &sps, true)
        .unwrap();
    let slot = allocate(&mut dpb).unwrap();
    dpb.end_picture(slot, &idr, &sps);
    decode_ref(&mut dpb, &sps, &header(1, 2));
    assert_eq!(dpb.references().len(), 2);

    let marked = header_with_mmco(2, 4, vec![Mmco::ForgetAll]);
    let state = dpb
        .begin_picture(NalType::Slice, 2, &marked, &sps, false)
        .unwrap();
    // The picture is rebased rather than keeping poc 4 / frame_num 2.
    assert_eq!(state.poc, 0);
    assert_eq!(state.frame_num, 0);
    let slot = allocate(&mut dpb).unwrap();
    dpb.end_picture(slot, &state, &sps);

    // Everything prior is gone; only the rebased picture remains.
    assert_eq!(ref_summary(&dpb), vec![(slot, 0, false)]);

    // POC prediction continues from the reset state.
    let next = dpb
        .begin_picture(NalType::Slice, 2, &header(1, 2), &sps, false)
        .unwrap();
    assert_eq!(next.poc, 2);
}

/// Marking is skipped entirely for a picture that is not a reference.
#[test]
fn test_non_reference_picture_ignores_marking() {
    let sps = sps(0);
    let mut dpb = DecodeDpb::new(4);
    let idr = dpb
        .begin_picture(NalType::IdrSlice, 3, &header(0, 0), &sps, true)
        .unwrap();
    let slot = allocate(&mut dpb).unwrap();
    dpb.end_picture(slot, &idr, &sps);

    // nal_ref_idc == 0, so dec_ref_pic_marking() is not even present.
    let marked = header_with_mmco(1, 2, vec![Mmco::ForgetAll]);
    let state = dpb
        .begin_picture(NalType::Slice, 0, &marked, &sps, false)
        .unwrap();
    let slot = allocate(&mut dpb).unwrap();
    dpb.end_picture(slot, &state, &sps);
    assert_eq!(dpb.references().len(), 1, "IDR must survive");
}

#[test]
fn test_non_reference_picture_releases_slot() {
    let sps = sps(0);
    let mut dpb = DecodeDpb::new(4);
    let s = dpb
        .begin_picture(NalType::IdrSlice, 3, &header(0, 0), &sps, true)
        .unwrap();
    let slot = allocate(&mut dpb).unwrap();
    dpb.end_picture(slot, &s, &sps);

    // nal_ref_idc == 0 => disposable picture.
    let s = dpb
        .begin_picture(NalType::Slice, 0, &header(1, 2), &sps, false)
        .unwrap();
    assert!(!s.is_reference);
    let slot = allocate(&mut dpb).unwrap();
    dpb.end_picture(slot, &s, &sps);
    assert_eq!(dpb.references().len(), 1);
    // The slot is reusable immediately.
    assert_eq!(allocate(&mut dpb).unwrap(), slot);
}

#[test]
fn test_idr_flushes_dpb() {
    let sps = sps(0);
    let mut dpb = DecodeDpb::new(4);
    for i in 0..2u32 {
        let nal = if i == 0 {
            NalType::IdrSlice
        } else {
            NalType::Slice
        };
        let s = dpb
            .begin_picture(nal, 3, &header(i, i * 2), &sps, i == 0)
            .unwrap();
        let slot = allocate(&mut dpb).unwrap();
        dpb.end_picture(slot, &s, &sps);
    }
    assert_eq!(dpb.references().len(), 2);

    let s = dpb
        .begin_picture(NalType::IdrSlice, 3, &header(0, 0), &sps, true)
        .unwrap();
    assert_eq!(s.poc, 0);
    assert!(dpb.references().is_empty());
    // All slots freed by the IDR.
    assert_eq!(allocate(&mut dpb).unwrap(), 0);
}

#[test]
fn test_field_pictures_rejected() {
    let mut sps = sps(0);
    sps.frame_mbs_only_flag = false;
    let mut dpb = DecodeDpb::new(4);
    let mut h = header(0, 0);
    h.field_pic_flag = true;
    assert!(dpb
        .begin_picture(NalType::IdrSlice, 3, &h, &sps, true)
        .is_err());
}

#[test]
fn pictures_that_cannot_be_decoded_say_why() {
    let mut dpb = DecodeDpb::new(4);
    let mut field = header(0, 0);
    field.field_pic_flag = true;
    let error = dpb
        .begin_picture(NalType::Slice, 2, &field, &sps(0), false)
        .unwrap_err();
    assert_eq!(
        error,
        PixelForgeError::InvalidInput(InvalidInput::FieldPicture)
    );
    assert_eq!(
        error.message(),
        "H.264 decode: field/interlaced pictures are not supported"
    );
    let error = dpb
        .begin_picture(NalType::Slice, 2, &header(0, 0), &sps(5), false)
        .unwrap_err();
    assert_eq!(
        error.message(),
        "H.264 decode: unsupported pic_order_cnt_type 5"
    );
}

#[test]
fn an_idr_can_be_a_long_term_reference() {
    let sps = sps(0);
    let mut dpb = DecodeDpb::new(4);
    let mut h = header(0, 0);
    h.marking.long_term_reference_flag = true;
    let state = dpb
        .begin_picture(NalType::IdrSlice, 3, &h, &sps, true)
        .unwrap();
    let slot = allocate(&mut dpb).unwrap();
    dpb.end_picture(slot, &state, &sps);
    assert_eq!(ref_summary(&dpb), vec![(slot, 0, true)]);
    assert_eq!(dpb.references()[0].long_term_frame_idx, 0);
}

/// A slot a handed-out frame is reading must not be decoded over, even once
/// the reference rules are done with it.
#[test]
fn pinned_slots_are_not_reallocated() {
    let mut pins = SlotPins::default();
    let mut dpb = DecodeDpb::new(2);

    // Decode a non-reference picture and hand it to the caller.
    let handed_out = dpb.try_allocate_slot(&pins).unwrap();
    pins.pin(handed_out);
    dpb.release_slot(handed_out);
    assert!(dpb.has_pinned_slots(&pins));

    // The DPB has no use for the slot any more, but the caller is reading it.
    let next = dpb.try_allocate_slot(&pins).unwrap();
    assert_ne!(next, handed_out);
    assert_eq!(dpb.try_allocate_slot(&pins), None, "both slots are busy");

    // Dropping the frame releases the pin.
    pins.release(handed_out);
    assert!(!dpb.has_pinned_slots(&pins));
    assert_eq!(dpb.try_allocate_slot(&pins), Some(handed_out));
}

/// Waiting when nothing is pinned would never wake, so it must not wait.
#[test]
fn waiting_with_nothing_pinned_returns_immediately() {
    let pins = SlotPins::default();
    assert_eq!(pins.wait_for_release(&pins), WaitStep::Done);
}

#[test]
fn waiting_ends_with_a_release() {
    let mut pins = SlotPins::default();
    pins.pin(3);
    pins.pin(16);
    let before = pins.begin_wait();
    assert_eq!(pins.wait_for_release(&before), WaitStep::Sleep);
    pins.release(16);
    assert_eq!(pins.wait_for_release(&before), WaitStep::Done);
}

/// Only a release ends a wait, and only that of a slot that was pinned.
#[test]
fn pinning_a_further_slot_does_not_end_a_wait() {
    let mut pins = SlotPins::default();
    pins.pin(3);
    let before = pins.begin_wait();
    pins.pin(4);
    assert_eq!(pins.wait_for_release(&before), WaitStep::Sleep);
    pins.release(4);
    pins.release(9);
    assert_eq!(pins.wait_for_release(&before), WaitStep::Sleep);
    pins.release(3);
    assert_eq!(pins.wait_for_release(&before), WaitStep::Done);
}

#[test]
fn a_slot_that_is_pinned_again_was_released() {
    let mut pins = SlotPins::default();
    pins.pin(3);
    pins.pin(5);
    let before = pins.begin_wait();
    pins.release(3);
    pins.pin(3);
    assert_eq!(pins.wait_for_release(&before), WaitStep::Done);
    // A wait that begins now needs a release of its own.
    let before = pins.begin_wait();
    assert_eq!(pins.count(), 2);
    assert_eq!(pins.wait_for_release(&before), WaitStep::Sleep);
    pins.clear();
    assert_eq!(pins.wait_for_release(&before), WaitStep::Done);
}

/// Clearing pins (session teardown) makes every slot allocatable again.
#[test]
fn clearing_pins_frees_every_slot() {
    let mut pins = SlotPins::default();
    let mut dpb = DecodeDpb::new(2);
    let slot = dpb.try_allocate_slot(&pins).unwrap();
    pins.pin(slot);
    dpb.release_slot(slot);
    assert_eq!(dpb.try_allocate_slot(&pins), Some(1));

    pins.clear();
    dpb.release_slot(1);
    assert_eq!(dpb.try_allocate_slot(&pins), Some(slot));
}

#[test]
fn pins_are_counted_once_each() {
    let mut pins = SlotPins::default();
    assert_eq!(pins.count(), 0);
    assert!(!pins.any_pinned());
    for slot in [0, 5, 31, 5] {
        pins.pin(slot);
    }
    assert_eq!(pins.count(), 3);
    assert!(pins.is_pinned(31));
    assert!(!pins.is_pinned(30));
    pins.release(5);
    pins.release(5);
    assert_eq!(pins.count(), 2);
}

#[test]
fn a_full_dpb_waits_or_fails() {
    let mut pins = SlotPins::default();
    let mut dpb = DecodeDpb::new(2);
    assert_eq!(find_slot(&mut dpb, &pins), Ok(SlotStep::Use(0)));
    assert_eq!(find_slot(&mut dpb, &pins), Ok(SlotStep::Use(1)));
    // Nothing that the caller holds could free one.
    let error = find_slot(&mut dpb, &pins).unwrap_err();
    assert_eq!(
        error.message(),
        "H.264 decode: no free DPB slot (stream exceeds negotiated DPB size)"
    );
    // A frame that the caller holds could.
    pins.pin(1);
    dpb.release_slot(1);
    assert_eq!(find_slot(&mut dpb, &pins), Ok(SlotStep::Wait));
    pins.release(1);
    assert_eq!(find_slot(&mut dpb, &pins), Ok(SlotStep::Use(1)));
}

#[test]
fn a_dpb_has_no_more_slots_than_the_standard() {
    let mut dpb = DecodeDpb::new(40);
    for slot in 0..17 {
        assert_eq!(allocate(&mut dpb), Some(slot));
    }
    assert_eq!(allocate(&mut dpb), None);
}
