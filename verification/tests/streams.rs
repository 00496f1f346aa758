//! Whole streams: parsing, framing, and grouping slices into pictures.
//!
//! The streams are 320x240 and 30 pictures long, laid out as x264 lays out its own.
//! Between them they cover the Baseline and High profiles, order count types 0 and
//! 2, streams with and without B-frames, and pictures of several slices.

use std::collections::HashMap;

use pixelforge::decoder::config::DecodeStatus;
use pixelforge::decoder::h264::feed::ByteFramer;
use pixelforge::decoder::h264::framing::{complete_prefix, picture_starts, split_stream};
use pixelforge::decoder::h264::nal::{iter_nal_units, NalType, NalUnit};
use pixelforge::decoder::h264::parser::{
    parse_pps, parse_slice_header, parse_sps, Mmco, Pps, Sps,
};
use pixelforge::decoder::h264::stream::{
    group_slices, plan_frames, same_parameters, Grouped, MissingSet, ParameterSets, Picture,
};
use pixelforge::error::PixelForgeError;

/// Writes the bits of a NAL unit's payload.
struct Bits {
    bits: Vec<bool>,
}

impl Bits {
    fn new() -> Self {
        Bits { bits: Vec::new() }
    }

    fn u(&mut self, n: u32, value: u32) -> &mut Self {
        for i in (0..n).rev() {
            self.bits.push(value >> i & 1 == 1);
        }
        self
    }

    fn ue(&mut self, value: u32) -> &mut Self {
        let code = value + 1;
        let len = 32 - code.leading_zeros();
        self.u(len - 1, 0).u(len, code)
    }

    fn se(&mut self, value: i32) -> &mut Self {
        if value > 0 {
            self.ue(2 * value as u32 - 1)
        } else {
            self.ue(2 * value.unsigned_abs())
        }
    }

    /// The bytes, closed by a stop bit and with emulation prevention.
    fn payload(&self) -> Vec<u8> {
        let mut bits = self.bits.clone();
        bits.push(true);
        while bits.len() % 8 != 0 {
            bits.push(false);
        }
        let mut out: Vec<u8> = Vec::new();
        let mut zeros = 0;
        for byte in bits.chunks(8) {
            let value = byte.iter().fold(0u8, |v, &b| v << 1 | u8::from(b));
            if zeros >= 2 && value <= 3 {
                out.push(3);
                zeros = 0;
            }
            zeros = if value == 0 { zeros + 1 } else { 0 };
            out.push(value);
        }
        out
    }
}

/// A NAL unit behind a four-byte start code.
fn nal(ref_idc: u8, nal_type: u8, payload: &[u8]) -> Vec<u8> {
    let mut out = vec![0, 0, 0, 1, ref_idc << 5 | nal_type];
    out.extend_from_slice(payload);
    out
}

/// A 320x240 SPS of order count type 2 with three references and no reordering.
fn plain_sps(profile: u32) -> Vec<u8> {
    let mut b = Bits::new();
    b.u(8, profile).u(8, 0).u(8, 13).ue(0);
    if profile == 100 {
        b.ue(1).ue(0).ue(0).u(1, 0).u(1, 0);
    }
    // 16 frame numbers, order count type 2, three references, no gaps.
    b.ue(0).ue(2).ue(3).u(1, 0);
    // 20x15 macroblocks, frames only, no cropping.
    b.ue(19).ue(14).u(1, 1).u(1, 1).u(1, 0);
    // VUI with nothing but the bitstream restriction.
    b.u(1, 1).u(8, 0).u(1, 1);
    b.u(1, 1).ue(0).ue(0).ue(11).ue(11).ue(0).ue(3);
    b.payload()
}

fn plain_pps(cabac: bool) -> Vec<u8> {
    let mut b = Bits::new();
    b.ue(0).ue(0).u(1, u32::from(cabac)).u(1, 0).ue(0);
    b.ue(0).ue(0).u(1, 0).u(2, 0).se(0).se(0).se(0);
    b.u(1, 1).u(1, 0).u(1, 0);
    b.payload()
}

/// SPS and PPS of an x264-encoded 320x240 High-profile stream with B-frames: order
/// count type 0 with 6 bits, 4 references, 2 pictures of reordering; CABAC, three
/// references by default, weighted prediction.
const X264_SPS: [u8; 23] = [
    0x64, 0x00, 0x0d, 0xac, 0xd9, 0x41, 0x41, 0xfa, 0x10, 0x00, 0x00, 0x03, 0x00, 0x10, 0x00, 0x00,
    0x03, 0x03, 0xc8, 0xf1, 0x42, 0x99, 0x60,
];
const X264_PPS: [u8; 5] = [0xeb, 0xe3, 0xcb, 0x22, 0xc0];

/// Slice data: not parsed, but it has to be there.
fn slice_data(b: &mut Bits, seed: u32) {
    for i in 0..6 {
        b.u(8, (seed * 37 + i * 11) & 0xff);
    }
}

/// A slice of a stream without B-frames.
fn plain_slice(number: u32) -> Vec<u8> {
    let idr = number == 0;
    let mut b = Bits::new();
    b.ue(0).ue(if idr { 7 } else { 5 }).ue(0).u(4, number % 16);
    if idr {
        b.ue(0).u(2, 0);
    } else {
        // One reference, lists as they are, sliding window.
        b.u(1, 1).ue(0).u(1, 0).u(1, 0);
    }
    slice_data(&mut b, number);
    if idr {
        nal(3, 5, &b.payload())
    } else {
        nal(2, 1, &b.payload())
    }
}

/// A picture of a stream with B-frames: its slice type, whether it is a reference,
/// its place in display order, and the short-term reference it retires, if any.
#[derive(Clone, Copy)]
struct Coded {
    kind: u32,
    reference: bool,
    order: u32,
    retires: Option<u32>,
}

/// Thirty pictures: an IDR, then groups of a P picture, a B reference before it,
/// and a disposable B picture on either side of that.
fn pyramid() -> Vec<Coded> {
    let mut out = vec![Coded {
        kind: 7,
        reference: true,
        order: 0,
        retires: None,
    }];
    let mut base = 0;
    while out.len() < 30 {
        let group = [
            Coded {
                kind: 5,
                reference: true,
                order: base + 4,
                // The B reference of the group before.
                retires: if base > 0 { Some(0) } else { None },
            },
            Coded {
                kind: 6,
                reference: true,
                order: base + 2,
                retires: None,
            },
            Coded {
                kind: 6,
                reference: false,
                order: base + 1,
                retires: None,
            },
            Coded {
                kind: 6,
                reference: false,
                order: base + 3,
                retires: None,
            },
        ];
        for picture in group {
            if out.len() < 30 {
                out.push(picture);
            }
        }
        base += 4;
    }
    out
}

/// A slice of a picture of a stream with B-frames.
fn pyramid_slice(picture: Coded, frame_num: u32, first_mb: u32, seed: u32) -> Vec<u8> {
    let idr = picture.kind == 7;
    let mut b = Bits::new();
    b.ue(first_mb).ue(picture.kind).ue(0).u(4, frame_num % 16);
    if idr {
        b.ue(0);
    }
    b.u(6, picture.order * 2 % 64);
    match picture.kind {
        5 => {
            // One reference, its list as it is, no weights.
            b.u(1, 1).ue(0).u(1, 0).ue(0).ue(0).u(1, 0).u(1, 0);
        }
        6 => {
            // Spatial direct mode, one reference each way.
            b.u(1, 1).u(1, 1).ue(0).ue(0).u(1, 0).u(1, 0);
        }
        _ => {}
    }
    if idr {
        b.u(2, 0);
    } else if picture.reference {
        match picture.retires {
            Some(difference) => {
                b.u(1, 1).ue(1).ue(difference).ue(0);
            }
            None => {
                b.u(1, 0);
            }
        }
    }
    slice_data(&mut b, seed);
    let ref_idc = match (picture.kind, picture.reference) {
        (7, _) => 3,
        (_, true) => 2,
        _ => 0,
    };
    nal(ref_idc, if idr { 5 } else { 1 }, &b.payload())
}

fn plain_stream(profile: u32, cabac: bool) -> Vec<u8> {
    let mut out = nal(3, 7, &plain_sps(profile));
    out.extend(nal(3, 8, &plain_pps(cabac)));
    for number in 0..30 {
        out.extend(plain_slice(number));
    }
    out
}

fn pyramid_stream(slices: u32) -> Vec<u8> {
    let mut out = nal(3, 7, &X264_SPS);
    out.extend(nal(3, 8, &X264_PPS));
    let mut frame_num = 0;
    let mut seed = 0;
    for picture in pyramid() {
        for slice in 0..slices {
            // 300 macroblocks in a picture.
            out.extend(pyramid_slice(picture, frame_num, slice * 75, seed));
            seed += 1;
        }
        if picture.reference {
            frame_num += 1;
        }
    }
    out
}

fn baseline() -> Vec<u8> {
    plain_stream(66, false)
}

fn zerolatency() -> Vec<u8> {
    plain_stream(100, true)
}

fn bframes() -> Vec<u8> {
    pyramid_stream(1)
}

/// 4 slices per picture: distinguishes "split per slice" from "split per picture".
fn multislice() -> Vec<u8> {
    pyramid_stream(4)
}

fn sps_of(data: &[u8]) -> Sps {
    let nals = iter_nal_units(data);
    let nal = nals
        .iter()
        .find(|n| n.nal_type == NalType::Sps)
        .expect("stream has an SPS");
    parse_sps(nal.payload()).expect("SPS parses")
}

fn pps_of(data: &[u8], sps: &Sps) -> Pps {
    let nals = iter_nal_units(data);
    let nal = nals.iter().find(|n| n.nal_type == NalType::Pps).unwrap();
    parse_pps(nal.payload(), |_: u8| Some(sps.chroma_format_idc)).expect("PPS parses")
}

#[test]
fn test_nal_iteration() {
    // 4-byte start code + SPS header byte, 3-byte start code + PPS header byte.
    let data = [
        0x00, 0x00, 0x00, 0x01, 0x67, 0xAA, // SPS (type 7, ref_idc 3)
        0x00, 0x00, 0x01, 0x68, 0xBB, // PPS (type 8, ref_idc 3)
        0x00, 0x00, 0x01, 0x65, 0xCC, // IDR slice (type 5)
    ];
    let nals: Vec<_> = iter_nal_units(&data);
    assert_eq!(nals.len(), 3);
    assert_eq!(nals[0].nal_type, NalType::Sps);
    assert_eq!(nals[0].ref_idc, 3);
    assert_eq!(nals[0].data, &[0x67, 0xAA]);
    assert_eq!(nals[1].nal_type, NalType::Pps);
    assert_eq!(nals[2].nal_type, NalType::IdrSlice);
    assert!(nals[2].nal_type.is_slice());
}

#[test]
fn nal_iteration_skips_what_is_no_unit() {
    assert!(iter_nal_units(&[]).is_empty());
    assert!(iter_nal_units(&[1, 2, 3, 4]).is_empty());
    // Nothing between two start codes, and zeros behind a unit.
    let data = [9, 9, 0, 0, 1, 0, 0, 1, 0x41, 0x9A, 0, 0, 0];
    let nals = iter_nal_units(&data);
    assert_eq!(nals.len(), 1);
    assert_eq!(nals[0].data, &[0x41, 0x9A]);
    assert_eq!(nals[0].nal_type, NalType::Slice);
    assert_eq!(nals[0].ref_idc, 2);
    assert_eq!(nals[0].payload(), &[0x9A]);
}

#[test]
fn test_parse_x264_sps_pps() {
    // Verbatim SPS/PPS from an x264-encoded 320x240 High-profile stream. Note
    // the 0x000003 emulation-prevention sequences in the VUI.
    let sps_payload = [
        0x64, 0x00, 0x0d, 0xac, 0xd9, 0x41, 0x41, 0xfa, 0x10, 0x00, 0x00, 0x03, 0x00, 0x10, 0x00,
        0x00, 0x03, 0x03, 0xc8, 0xf1, 0x42, 0x99, 0x60,
    ];
    let sps = parse_sps(&sps_payload).unwrap();
    assert_eq!(sps.profile_idc, 100);
    assert_eq!(sps.level_idc, 13);
    assert_eq!(sps.chroma_format_idc, 1);
    assert_eq!(sps.coded_width(), 320);
    assert_eq!(sps.coded_height(), 240);
    assert_eq!(sps.display_dimensions(), (320, 240));
    assert!(sps.frame_mbs_only_flag);

    // Matching PPS: 68 eb e3 cb 22 c0
    let pps_payload = [0xeb, 0xe3, 0xcb, 0x22, 0xc0];
    let pps = parse_pps(&pps_payload, |_: u8| Some(sps.chroma_format_idc)).unwrap();
    assert_eq!(pps.pps_id, 0);
    assert_eq!(pps.sps_id, 0);
    assert!(pps.entropy_coding_mode_flag); // CABAC
}

/// Every stream: one SPS, one PPS, 30 slices, first slice is an IDR.
#[test]
fn parses_stream_structure() {
    for (name, data) in [
        ("baseline", baseline()),
        ("zerolatency", zerolatency()),
        ("bframes", bframes()),
    ] {
        let nals: Vec<_> = iter_nal_units(&data);
        let sps_count = nals.iter().filter(|n| n.nal_type == NalType::Sps).count();
        let pps_count = nals.iter().filter(|n| n.nal_type == NalType::Pps).count();
        let slices: Vec<_> = nals.iter().filter(|n| n.nal_type.is_slice()).collect();

        assert_eq!(sps_count, 1, "{name}: expected one SPS");
        assert_eq!(pps_count, 1, "{name}: expected one PPS");
        assert_eq!(slices.len(), 30, "{name}: expected 30 slices");
        assert_eq!(
            slices[0].nal_type,
            NalType::IdrSlice,
            "{name}: stream must open with an IDR"
        );
        // An IDR is always a reference picture.
        assert_ne!(slices[0].ref_idc, 0, "{name}: IDR must have ref_idc != 0");
    }
}

/// The SPS decodes to the dimensions and profile it was written with.
#[test]
fn parses_sps_geometry_and_profile() {
    for (name, data, expected_profile) in [
        ("baseline", baseline(), 66u8),
        ("zerolatency", zerolatency(), 100),
        ("bframes", bframes(), 100),
    ] {
        let sps = sps_of(&data);

        assert_eq!(sps.profile_idc, expected_profile, "{name}: profile_idc");
        assert_eq!(sps.sps_id, 0, "{name}: sps_id");
        assert_eq!(sps.chroma_format_idc, 1, "{name}: 4:2:0");
        assert_eq!(sps.bit_depth_luma_minus8, 0, "{name}: 8-bit luma");
        assert!(sps.frame_mbs_only_flag, "{name}: progressive");
        // 320x240 is exactly 20x15 macroblocks, so no cropping is needed.
        assert_eq!(sps.coded_width(), 320, "{name}: coded width");
        assert_eq!(sps.coded_height(), 240, "{name}: coded height");
        assert_eq!(sps.display_dimensions(), (320, 240), "{name}: display size");
    }
}

/// A stream whose dimensions aren't macroblock-aligned must report cropping.
#[test]
fn parses_cropped_dimensions() {
    // The streams are all MB-aligned, so verify the crop arithmetic against a
    // changed SPS: 4:2:0 crop offsets are in chroma units (2 luma samples).
    let mut sps = sps_of(&bframes());
    assert!(!sps.frame_cropping_flag);

    // Crop 1920x1080-style: 68 rows of padding -> 240 - 8 = 232.
    sps.frame_cropping_flag = true;
    sps.frame_crop_bottom_offset = 4; // 4 * 2 = 8 luma rows
    sps.frame_crop_right_offset = 2; // 2 * 2 = 4 luma columns
    assert!(sps.dimensions_fit());
    assert_eq!(sps.display_dimensions(), (316, 232));
    assert_eq!(sps.coded_width(), 320, "cropping must not alter coded size");
}

#[test]
fn cropping_never_goes_below_nothing() {
    let mut sps = sps_of(&bframes());
    sps.frame_cropping_flag = true;
    sps.frame_crop_left_offset = 100;
    sps.frame_crop_right_offset = 100;
    assert_eq!(sps.display_dimensions(), (0, 240));
    sps.frame_crop_left_offset = u32::MAX;
    assert!(!sps.dimensions_fit());
}

/// The PPS parses, and its entropy mode matches the profile.
#[test]
fn parses_pps() {
    for (name, data, expect_cabac) in [
        // Baseline profile cannot use CABAC.
        ("baseline", baseline(), false),
        ("zerolatency", zerolatency(), true),
        ("bframes", bframes(), true),
    ] {
        let sps = sps_of(&data);
        let pps = pps_of(&data, &sps);

        assert_eq!(pps.pps_id, 0, "{name}: pps_id");
        assert_eq!(pps.sps_id, 0, "{name}: references sps 0");
        assert_eq!(
            pps.entropy_coding_mode_flag, expect_cabac,
            "{name}: entropy coding mode"
        );
        assert_eq!(pps.num_slice_groups_minus1, 0, "{name}: no FMO");
    }
}

/// Slice headers parse across the whole stream, and frame_num advances the way
/// the reference structure implies.
#[test]
fn parses_all_slice_headers() {
    for (name, data) in [
        ("baseline", baseline()),
        ("zerolatency", zerolatency()),
        ("bframes", bframes()),
    ] {
        let sps = sps_of(&data);
        let pps = pps_of(&data, &sps);

        let mut headers = Vec::new();
        for nal in iter_nal_units(&data)
            .into_iter()
            .filter(|n| n.nal_type.is_slice())
        {
            let header = parse_slice_header(&nal, &sps, &pps)
                .unwrap_or_else(|e| panic!("{name}: slice header must parse: {e:?}"));
            assert_eq!(header.pps_id, 0, "{name}: slice references pps 0");
            assert!(!header.field_pic_flag, "{name}: progressive stream");
            assert!(
                header.frame_num < sps.max_frame_num(),
                "{name}: frame_num must fit in log2_max_frame_num"
            );
            headers.push((header, nal.ref_idc));
        }

        assert_eq!(headers.len(), 30, "{name}: all slices parsed");
        // The IDR resets frame_num to 0.
        assert_eq!(headers[0].0.frame_num, 0, "{name}: IDR has frame_num 0");

        // frame_num only advances after a *reference* picture. Verify that
        // invariant holds across the entire stream.
        for pair in headers.windows(2) {
            let (prev, prev_ref_idc) = &pair[0];
            let (next, _) = &pair[1];
            let expected = if *prev_ref_idc != 0 {
                (prev.frame_num + 1) % sps.max_frame_num()
            } else {
                prev.frame_num
            };
            assert_eq!(
                next.frame_num, expected,
                "{name}: frame_num must advance only after reference pictures"
            );
        }
    }
}

/// A B-pyramid retires its B-references with explicit MMCO commands rather than
/// leaving them to the sliding window. Parsing `dec_ref_pic_marking()` is
/// therefore not optional: ignoring it silently corrupts the DPB, and the
/// decoded pictures with it.
///
/// This pins both halves: the B-pyramid streams really do carry MMCO, and the
/// streams without B-references really do not.
#[test]
fn parses_explicit_reference_marking() {
    let markings = |data: &[u8]| -> Vec<(bool, Vec<Mmco>)> {
        let sps = sps_of(data);
        let pps = pps_of(data, &sps);
        iter_nal_units(data)
            .iter()
            .filter(|n| n.nal_type.is_slice())
            .map(|nal| {
                let h = parse_slice_header(nal, &sps, &pps).unwrap();
                (h.marking.adaptive, h.marking.ops.clone())
            })
            .collect()
    };

    // B-pyramid: at least one picture marks a short-term reference unused.
    for (name, data) in [("bframes", bframes()), ("multislice", multislice())] {
        let markings = markings(&data);
        assert!(
            markings.iter().any(|(adaptive, _)| *adaptive),
            "{name}: B-pyramid stream must use adaptive reference marking"
        );
        assert!(
            markings
                .iter()
                .flat_map(|(_, ops)| ops)
                .any(|op| matches!(op, Mmco::ForgetShort { .. })),
            "{name}: expected an MMCO 1 retiring a short-term reference"
        );
    }

    // No B-references: pure sliding window, so no MMCO anywhere.
    for (name, data) in [("baseline", baseline()), ("zerolatency", zerolatency())] {
        for (adaptive, ops) in markings(&data) {
            assert!(
                !adaptive && ops.is_empty(),
                "{name}: expected sliding-window marking only"
            );
        }
    }
}

/// The B-frame stream really does contain disposable (non-reference) pictures,
/// and the zerolatency one does not. This is what makes the two streams
/// distinct tests rather than duplicates.
#[test]
fn fixtures_differ_in_reference_structure() {
    let disposable = |data: &[u8]| {
        iter_nal_units(data)
            .iter()
            .filter(|n| n.nal_type.is_slice())
            .filter(|n| n.ref_idc == 0)
            .count()
    };

    assert!(
        disposable(&bframes()) > 0,
        "the bframes stream should contain non-reference B-frames"
    );
    assert_eq!(
        disposable(&zerolatency()),
        0,
        "a zerolatency stream should have every picture as a reference"
    );
}

/// POC type 0 streams carry an explicit pic_order_cnt_lsb; POC type 2 streams
/// derive POC from decode order and carry none.
#[test]
fn poc_type_matches_stream_structure() {
    // x264 picks POC type 2 when no reordering is needed (POC == decode
    // order), and type 0 when B-frames force display order to diverge. The two
    // cases exercise both POC paths in the decoder's DPB.
    assert_eq!(
        sps_of(&baseline()).pic_order_cnt_type,
        2,
        "a stream without B-frames should use POC type 2"
    );
    assert_eq!(
        sps_of(&zerolatency()).pic_order_cnt_type,
        2,
        "a zerolatency stream should use POC type 2"
    );
    assert_eq!(
        sps_of(&bframes()).pic_order_cnt_type,
        0,
        "a stream with B-frames must carry explicit POC (type 0)"
    );
}

/// Level and reference-frame counts are read as they were written.
#[test]
fn parses_level_and_ref_frames() {
    for (name, data, expected_refs) in [
        ("baseline", baseline(), 3u8),
        ("zerolatency", zerolatency(), 3),
        ("bframes", bframes(), 4),
    ] {
        let sps = sps_of(&data);
        assert_eq!(sps.level_idc, 13, "{name}: level_idc");
        assert_eq!(sps.max_num_ref_frames, expected_refs, "{name}: ref frames");
        // The decoder sizes its DPB from this; it must fit the spec maximum.
        assert!(sps.max_num_ref_frames <= 16, "{name}: ref frames in range");
    }
}

/// `split_stream` must split a stream into exactly one unit per coded picture,
/// losing no bytes and keeping parameter sets with the picture they configure.
#[test]
fn splits_stream_into_coded_frames() {
    for (name, data) in [
        ("baseline", baseline()),
        ("zerolatency", zerolatency()),
        ("bframes", bframes()),
        ("multislice", multislice()),
    ] {
        let units = split_stream(&data);

        // Each stream is 30 coded pictures.
        assert_eq!(units.len(), 30, "{name}: one access unit per picture");

        // Every unit holds exactly one picture-start slice.
        for (i, unit) in units.iter().enumerate() {
            let picture_starts = iter_nal_units(unit)
                .iter()
                .filter(|n| n.nal_type.is_slice())
                .filter(|n| n.payload().first().is_some_and(|b| b & 0x80 != 0))
                .count();
            assert_eq!(
                picture_starts, 1,
                "{name}: unit {i} must contain exactly one picture"
            );
        }

        // The split must be lossless and contiguous: concatenating the units
        // reproduces the stream from the first unit's start onward.
        let total: usize = units.iter().map(|u| u.len()).sum();
        let first_offset = data.len() - total;
        let rejoined: Vec<u8> = units.concat();
        assert_eq!(
            rejoined,
            &data[first_offset..],
            "{name}: units must tile the stream without gaps or overlap"
        );

        // The SPS and PPS must travel with the first picture, or the decoder
        // could not configure a session before the IDR.
        let first = units[0];
        assert!(
            iter_nal_units(first)
                .iter()
                .any(|n| n.nal_type == NalType::Sps),
            "{name}: first access unit must carry the SPS"
        );
        assert!(
            iter_nal_units(first)
                .iter()
                .any(|n| n.nal_type == NalType::Pps),
            "{name}: first access unit must carry the PPS"
        );
        assert!(
            iter_nal_units(first)
                .iter()
                .any(|n| n.nal_type == NalType::IdrSlice),
            "{name}: first access unit must be the IDR"
        );
    }
}

/// A picture split across several slice NALs must still form a single access
/// unit. Without this stream, splitting per slice and splitting per picture
/// are indistinguishable, since the others have one slice per picture.
#[test]
fn multislice_pictures_form_one_access_unit() {
    let data = multislice();
    let slice_nals = iter_nal_units(&data)
        .iter()
        .filter(|n| n.nal_type.is_slice())
        .count();
    let units = split_stream(&data);

    // The stream really is multi-slice: 4 slices per picture, 30 pictures.
    assert_eq!(slice_nals, 120, "stream should hold 120 slice NALs");
    assert_eq!(units.len(), 30, "but only 30 access units");

    // Every unit carries all 4 slices of its picture.
    for (i, unit) in units.iter().enumerate() {
        let slices = iter_nal_units(unit)
            .iter()
            .filter(|n| n.nal_type.is_slice())
            .count();
        assert_eq!(slices, 4, "access unit {i} should hold all 4 slices");
    }
}

#[test]
fn vui_reorder_matches_streams() {
    // (stream, expected max_num_reorder_frames present and value)
    for (name, data, expect) in [
        ("baseline", baseline(), Some(0u32)),
        ("zerolatency", zerolatency(), Some(0)),
        ("bframes", bframes(), Some(2)),
        ("multislice", multislice(), Some(2)),
    ] {
        let sps = sps_of(&data);
        // Only assert when the stream signals it; if None, skip (fallback path).
        if let Some(v) = expect {
            assert_eq!(sps.max_num_reorder_frames, Some(v), "{name}: reorder depth");
        }
    }
}

/// Group the slices of a stream by hand, as a decoder does.
fn grouped<'a>(data: &'a [u8], pictures: &mut Vec<Picture<'a>>) -> usize {
    let mut sps_map: HashMap<u8, Sps> = HashMap::new();
    let mut pps_map: HashMap<u8, Pps> = HashMap::new();
    let mut sps_seen = 0usize;
    for nal in iter_nal_units(data) {
        match nal.nal_type {
            NalType::Sps => {
                let sps = parse_sps(nal.payload()).unwrap();
                sps_seen += 1;
                sps_map.insert(sps.sps_id, sps);
            }
            NalType::Pps => {
                let pps = parse_pps(nal.payload(), |id: u8| {
                    sps_map.get(&id).map(|s: &Sps| s.chroma_format_idc)
                })
                .unwrap();
                pps_map.insert(pps.pps_id, pps);
            }
            t if t.is_slice() => {
                group_slices(pictures, &nal, &sps_map, &pps_map).unwrap();
            }
            _ => {}
        }
    }
    sps_seen
}

/// A chunk carrying a parameter set *change* must not apply it backwards.
///
/// A stream signals a new resolution by resending an SPS under an id it has
/// already used. Pictures grouped before that point belong to the old SPS,
/// and if the parameter sets were resolved by id after the whole chunk had
/// been scanned, every picture in it would be decoded against the last SPS
/// seen.
#[test]
fn a_later_parameter_set_does_not_reach_back() {
    // Both streams use SPS id 0, so concatenating them is exactly the
    // id-reuse case, and `group_slices` sees the second SPS partway
    // through.
    let mut stream = baseline();
    stream.extend_from_slice(&multislice());

    let mut pictures: Vec<Picture> = Vec::new();
    let sps_seen = grouped(&stream, &mut pictures);

    assert!(sps_seen >= 2, "stream should carry more than one SPS");
    assert_ne!(
        pictures[0].sps, pictures[59].sps,
        "the two streams must differ in SPS content, or this test proves nothing"
    );
    assert_eq!(pictures.len(), 60, "30 pictures from each stream");

    // Every picture must carry the parameter sets that were in effect when
    // it was grouped, so the two halves keep their own.
    let first_sps = &pictures[0].sps;
    let second_sps = &pictures[59].sps;
    assert_eq!(
        first_sps.sps_id, second_sps.sps_id,
        "the streams should reuse the same id, or this proves nothing"
    );
    for (i, picture) in pictures.iter().enumerate().take(30) {
        assert_eq!(&picture.sps, first_sps, "picture {i} took a later SPS");
    }
    for (i, picture) in pictures.iter().enumerate().skip(30) {
        assert_eq!(&picture.sps, second_sps, "picture {i} kept an earlier SPS");
    }
}

/// Joining a stream after its parameter sets were sent must be reported as
/// needing a keyframe, not as a failure and not by silently decoding
/// garbage. This is the ordinary case for a client that connects to a live
/// stream partway through, and it is what `DecodeStatus::NeedsKeyframe`
/// exists to say.
#[test]
fn slices_without_parameter_sets_ask_for_a_keyframe() {
    let data = bframes();

    // Deliberately empty: the SPS and PPS went past before we tuned in.
    let sps_map: HashMap<u8, Sps> = HashMap::new();
    let pps_map: HashMap<u8, Pps> = HashMap::new();
    let mut pictures: Vec<Picture> = Vec::new();

    let mut slices = 0usize;
    for nal in iter_nal_units(&data) {
        if !nal.nal_type.is_slice() {
            continue;
        }
        slices += 1;
        match group_slices(&mut pictures, &nal, &sps_map, &pps_map).unwrap() {
            Grouped::NeedsParameterSets(missing) => {
                let reason = missing.reason();
                assert!(
                    reason.contains("PPS"),
                    "should name the missing parameter set, got {reason:?}"
                );
            }
            Grouped::Added => panic!("a slice was grouped with no parameter sets to group it"),
        }
    }

    assert!(slices > 0, "stream should contain slices");
    assert!(
        pictures.is_empty(),
        "no picture can be formed without parameter sets"
    );
}

/// Group the slices of a multi-slice stream (4 slices per picture). Exercises
/// `group_slices` without a GPU.
#[test]
fn groups_multislice_pictures() {
    let data = multislice();
    let mut pictures: Vec<Picture> = Vec::new();
    grouped(&data, &mut pictures);

    // 120 slice NALs must group into 30 pictures of 4 slices each.
    assert_eq!(pictures.len(), 30, "expected 30 pictures");
    for (i, picture) in pictures.iter().enumerate() {
        assert_eq!(picture.slices.len(), 4, "picture {i} should have 4 slices");
    }

    // The first picture is the IDR and is intra-coded.
    assert_eq!(pictures[0].nal_type, NalType::IdrSlice);
    assert!(pictures[0].is_intra, "IDR must be intra");
    assert_ne!(pictures[0].ref_idc, 0, "IDR must be a reference");

    // frame_num must be constant within a picture and advance between them.
    assert_eq!(pictures[0].header.frame_num, 0);
    assert!(
        pictures[1].header.frame_num > 0,
        "frame_num must advance after the IDR"
    );
}

#[test]
fn parameter_sets_split_a_stream_into_pictures() {
    let mut sets = ParameterSets::default();
    let data = bframes();
    let (pictures, missing) = sets.split_pictures(&data).unwrap();
    assert_eq!(pictures.len(), 30);
    assert_eq!(missing, None);
    let orders: Vec<u32> = pictures[..6]
        .iter()
        .map(|p| p.header.pic_order_cnt_lsb)
        .collect();
    assert_eq!(orders, vec![0, 8, 4, 2, 6, 16]);
    assert!(pictures[0].is_intra);
    assert!(!pictures[1].is_intra);
    assert_eq!(pictures[3].ref_idc, 0);

    // The sets stay for the chunks that follow.
    let later = pyramid_slice(pyramid()[1], 1, 0, 5);
    let (pictures, missing) = sets.split_pictures(&later).unwrap();
    assert_eq!(pictures.len(), 1);
    assert_eq!(missing, None);
}

#[test]
fn the_first_missing_set_is_named() {
    let mut sets = ParameterSets::default();
    let slices = pyramid_slice(pyramid()[0], 0, 0, 1);
    let (pictures, missing) = sets.split_pictures(&slices).unwrap();
    assert!(pictures.is_empty());
    assert_eq!(missing, Some(MissingSet::Pps(0)));
    assert_eq!(MissingSet::Pps(0).reason(), "PPS 0 not yet received");

    // A PPS without the SPS it refers to is no help.
    let mut data = nal(3, 8, &plain_pps(true));
    data.extend(slices);
    let mut sets = ParameterSets::default();
    let (pictures, missing) = sets.split_pictures(&data).unwrap();
    assert!(pictures.is_empty());
    assert_eq!(missing, Some(MissingSet::Sps(0)));
    assert_eq!(MissingSet::Sps(12).reason(), "SPS 12 not yet received");
}

#[test]
fn a_dropped_first_slice_does_not_merge_pictures() {
    // The second picture has lost its first slice; its frame number gives it away.
    let mut data = nal(3, 7, &X264_SPS);
    data.extend(nal(3, 8, &X264_PPS));
    data.extend(pyramid_slice(pyramid()[0], 0, 0, 1));
    data.extend(pyramid_slice(pyramid()[0], 0, 75, 2));
    data.extend(pyramid_slice(pyramid()[1], 1, 75, 3));
    let mut sets = ParameterSets::default();
    let (pictures, _) = sets.split_pictures(&data).unwrap();
    let counts: Vec<usize> = pictures.iter().map(|p| p.slices.len()).collect();
    assert_eq!(counts, vec![2, 1]);
}

#[test]
fn decoding_starts_at_a_keyframe() {
    let mut sets = ParameterSets::default();
    let head = [nal(3, 7, &X264_SPS), nal(3, 8, &X264_PPS)].concat();
    let (pictures, missing) = sets.split_pictures(&head).unwrap();
    let plan = plan_frames(&pictures, missing, true);
    assert_eq!(plan.status, DecodeStatus::Buffered);
    assert!(plan.awaiting_keyframe);

    // A picture that is no keyframe cannot be decoded before one.
    let p = pyramid_slice(pyramid()[1], 1, 0, 1);
    let (pictures, missing) = sets.split_pictures(&p).unwrap();
    let plan = plan_frames(&pictures, missing, true);
    assert_eq!(plan.first, 1);
    assert_eq!(plan.status, DecodeStatus::NeedsKeyframe);
    assert!(plan.awaiting_keyframe);
    // It can once there was one.
    let plan = plan_frames(&pictures, missing, false);
    assert_eq!((plan.first, plan.status), (0, DecodeStatus::Decoded));

    // A keyframe later in the same chunk takes priority.
    let mut mixed = p.clone();
    mixed.extend(pyramid_slice(pyramid()[0], 0, 0, 2));
    mixed.extend(p);
    let (pictures, missing) = sets.split_pictures(&mixed).unwrap();
    let plan = plan_frames(&pictures, missing, true);
    assert_eq!(plan.first, 1);
    assert_eq!(plan.status, DecodeStatus::Decoded);
    assert!(!plan.awaiting_keyframe);
}

#[test]
fn parameter_sets_are_compared_by_content() {
    let first = sps_of(&baseline());
    let second = sps_of(&bframes());
    let pps = pps_of(&bframes(), &second);
    assert!(same_parameters(&first, &pps, &sps_of(&baseline()), &pps));
    assert!(!same_parameters(&first, &pps, &second, &pps));
    let mut cycled = sps_of(&baseline());
    cycled.offsets_for_ref_frame = vec![1];
    assert!(!same_parameters(&first, &pps, &cycled, &pps));
    let mut other = pps;
    other.weighted_pred_flag = false;
    assert!(!same_parameters(&first, &pps, &first, &other));
}

#[test]
fn framing_does_not_depend_on_the_cuts() {
    for data in [bframes(), multislice()] {
        let mut whole = ByteFramer::default();
        let mut expected: Vec<u8> = Vec::new();
        for chunk in whole.push(&data, 7) {
            expected.extend(chunk.data);
        }
        let tail = whole.finish().map(|c| c.data);
        for step in [1, 2, 3, 5, 17, 100] {
            let mut framer = ByteFramer::default();
            let mut out: Vec<u8> = Vec::new();
            for piece in data.chunks(step) {
                for chunk in framer.push(piece, 7) {
                    // What is given out ends where a picture begins.
                    out.extend(chunk.data);
                }
            }
            assert_eq!(out, expected, "step {step}");
            assert_eq!(framer.finish().map(|c| c.data), tail, "step {step}");
        }
        let tail = tail.unwrap();
        assert_eq!([expected, tail].concat(), data);
    }
}

#[test]
fn a_picture_has_the_timestamp_of_its_first_byte() {
    let data = baseline();
    let starts = picture_starts(&data);
    assert_eq!(starts.len(), 30);
    let mut framer = ByteFramer::default();
    // The first call ends inside the second picture.
    let cut = starts[1] + 6;
    let first = framer.push(&data[..cut], 100);
    assert_eq!(first.len(), 1);
    assert_eq!(first[0].pts, 100);
    assert_eq!(first[0].data, &data[..starts[1]]);
    // The second picture began in the first call, those behind it in this one.
    let second = framer.push(&data[cut..starts[4] + 6], 200);
    let stamped: Vec<(u64, usize)> = second.iter().map(|c| (c.pts, c.data.len())).collect();
    assert_eq!(
        stamped,
        vec![
            (100, starts[2] - starts[1]),
            (200, starts[4] - starts[2])
        ]
    );
    let tail = framer.finish().unwrap();
    assert_eq!(tail.pts, 200);
    assert_eq!(tail.data, &data[starts[4]..starts[4] + 6]);
    assert!(framer.finish().is_none());
}

#[test]
fn nothing_is_complete_before_a_second_picture() {
    let data = baseline();
    let starts = picture_starts(&data);
    assert_eq!(complete_prefix(&data[..starts[1]]), 0);
    assert_eq!(complete_prefix(&data), starts[29]);
    assert_eq!(complete_prefix(&[]), 0);
}

/// The error that a payload is refused with, in words.
fn refusal<T>(result: Result<T, PixelForgeError>) -> String {
    match result {
        Ok(_) => panic!("the payload should have been refused"),
        Err(error) => error.message(),
    }
}

#[test]
fn malformed_parameter_sets_say_why() {
    assert_eq!(
        refusal(parse_sps(&[66, 0])),
        "bitstream: read past end of NAL unit"
    );
    assert_eq!(
        refusal(parse_sps(&[66, 0, 13, 0, 0, 0, 0, 0x80])),
        "bitstream: invalid Exp-Golomb code"
    );
    let mut b = Bits::new();
    b.u(8, 66).u(8, 0).u(8, 13).ue(0).ue(0).ue(3);
    assert_eq!(
        refusal(parse_sps(&b.payload())),
        "H.264 SPS: invalid pic_order_cnt_type 3"
    );
    let mut b = Bits::new();
    b.ue(0).ue(0).u(1, 0).u(1, 0).ue(1);
    assert_eq!(
        refusal(parse_pps(&b.payload(), |_: u8| None)),
        "H.264 PPS: slice groups (FMO) are not supported"
    );
}

/// A P slice of the x264 stream whose header goes on with the given bits behind
/// the override flag.
fn p_slice(rest: &Bits) -> Vec<u8> {
    let mut b = Bits::new();
    b.ue(0).ue(5).ue(0).u(4, 1).u(6, 2);
    b.bits.extend_from_slice(&rest.bits);
    slice_data(&mut b, 1);
    let mut out = vec![0x41];
    out.extend(b.payload());
    out
}

fn parse_x264_slice(data: &[u8]) -> String {
    let sps = parse_sps(&X264_SPS).unwrap();
    let pps = parse_pps(&X264_PPS, |_: u8| Some(1)).unwrap();
    let nal = NalUnit {
        nal_type: NalType::Slice,
        ref_idc: 2,
        data,
    };
    refusal(parse_slice_header(&nal, &sps, &pps))
}

#[test]
fn malformed_slice_headers_say_why() {
    let mut b = Bits::new();
    b.u(1, 1).ue(32);
    assert_eq!(
        parse_x264_slice(&p_slice(&b)),
        "H.264 decode: num_ref_idx_active_minus1 out of range"
    );
    let mut b = Bits::new();
    b.u(1, 1).ue(0).u(1, 1).ue(7);
    assert_eq!(
        parse_x264_slice(&p_slice(&b)),
        "H.264 decode: invalid modification_of_pic_nums_idc 7"
    );
    let mut b = Bits::new();
    b.u(1, 1).ue(0).u(1, 0).ue(0).ue(0).u(2, 0).u(1, 1).ue(9);
    assert_eq!(
        parse_x264_slice(&p_slice(&b)),
        "H.264 decode: invalid memory_management_control_operation 9"
    );
    let mut b = Bits::new();
    b.u(1, 1).ue(0).u(1, 0).ue(0).ue(0).u(2, 0).u(1, 1);
    for _ in 0..200 {
        b.ue(5);
    }
    assert_eq!(
        parse_x264_slice(&p_slice(&b)),
        "H.264 decode: runaway dec_ref_pic_marking"
    );
}
