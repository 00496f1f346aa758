//! From NAL units to pictures: the parameter sets seen so far, and the slices
//! that make up each picture.

use crate::decoder::bitreader::{cursor, payload_bits, BitReader, Cursor};
use crate::decoder::config::DecodeStatus;
use crate::decoder::h264::framing::{
    begins_picture, law_cut_keeps_nal_units, law_picture_begins_at_first_macroblock, opens_at,
    start_offsets,
};
use crate::decoder::h264::nal::{
    is_slice_type, iter_nal_units, lemma_nal_nonempty, nal_units, units, NalType, NalUnit, NalView,
};
use crate::decoder::h264::parser::{
    parse_pps, parse_slice_header, parse_sps, parses, Pps, SliceHeader, SliceType, Sps,
};
use crate::decoder::h264::syntax::{
    pps_asks_chroma, pps_head, pps_syntax, slice_header, slice_identity, sps_syntax, PocView,
    SliceHeaderView, SpsView,
};
use crate::error::PixelForgeError;
use crate::text::{append_number, decimal};
use std::collections::HashMap;
use vstd::prelude::*;

verus! {

broadcast use vstd::std_specs::hash::group_hash_axioms;

/// A parameter set that a slice needs and that has not been seen.
#[derive(Clone, Copy, Debug, PartialEq, Eq, Structural)]
pub enum MissingSet {
    Pps(u8),
    Sps(u8),
}

impl MissingSet {
    /// What is missing, in words.
    pub open spec fn text(self) -> Seq<char> {
        match self {
            MissingSet::Pps(id) => "PPS "@ + decimal(id as nat) + " not yet received"@,
            MissingSet::Sps(id) => "SPS "@ + decimal(id as nat) + " not yet received"@,
        }
    }

    /// What is missing, in words.
    pub fn reason(&self) -> (reason: String)
        ensures
            reason@ == self.text(),
    {
        let mut out = String::new();
        let id: u8 = match *self {
            MissingSet::Pps(id) => {
                out.append("PPS ");
                id
            },
            MissingSet::Sps(id) => {
                out.append("SPS ");
                id
            },
        };
        append_number(&mut out, id as u32);
        out.append(" not yet received");
        assert(out@ =~= self.text());
        out
    }
}

/// What [`group_slices`] did with a slice.
#[derive(Clone, Copy, Debug, PartialEq, Eq, Structural)]
pub enum Grouped {
    /// Attached to a picture, new or existing.
    Added,
    /// Skipped: the parameter sets it needs have not been seen, so the stream
    /// was joined after they were sent.
    NeedsParameterSets(MissingSet),
}

/// The slices making up one picture, gathered from the input.
#[derive(Debug)]
pub struct Picture<'a> {
    pub header: SliceHeader,
    pub nal_type: NalType,
    pub ref_idc: u8,
    pub is_intra: bool,
    pub slices: Vec<&'a [u8]>,
    /// The parameter sets in effect when this picture was grouped.
    ///
    /// Captured here rather than looked up later, because a chunk can carry a
    /// parameter set *change*: an SPS reusing an id it has already used, which
    /// is how a stream signals a new resolution. Resolving by id after the
    /// whole chunk has been scanned would decode every picture in it against
    /// the last SPS seen, so a resolution change would apply retroactively to
    /// the pictures before it.
    pub sps: Sps,
    pub pps: Pps,
}

/// The mathematical view of a [`Picture`].
#[verifier::ext_equal]
pub struct PictureGroup {
    pub header: SliceHeaderView,
    pub nal_type: NalType,
    pub ref_idc: u8,
    pub is_intra: bool,
    pub slices: Seq<Seq<u8>>,
    pub sps: SpsView,
    pub pps: Pps,
}

/// The bytes of a list of slices.
pub open spec fn slice_bytes(slices: Seq<&[u8]>) -> Seq<Seq<u8>> {
    Seq::new(slices.len(), |i: int| slices[i]@)
}

impl<'a> View for Picture<'a> {
    type V = PictureGroup;

    open spec fn view(&self) -> PictureGroup {
        PictureGroup {
            header: self.header@,
            nal_type: self.nal_type,
            ref_idc: self.ref_idc,
            is_intra: self.is_intra,
            slices: slice_bytes(self.slices@),
            sps: self.sps@,
            pps: self.pps,
        }
    }
}

/// The views of a list of pictures.
pub open spec fn groups(pictures: Seq<Picture>) -> Seq<PictureGroup> {
    Seq::new(pictures.len(), |i: int| pictures[i]@)
}

/// The sequence parameter sets that a map holds.
pub open spec fn sps_views(map: Map<u8, Sps>) -> Map<u8, SpsView> {
    Map::new(|id: u8| map.contains_key(id), |id: u8| map[id]@)
}

/// The id of the PPS that a slice uses, which comes third in its header.
pub open spec fn slice_pps_id(c: Cursor) -> (u8, Cursor) {
    let (_first_mb_in_slice, c) = c.ue();
    let (_slice_type, c) = c.ue();
    let (pps_id, c) = c.ue();
    (pps_id as u8, c)
}

/// Whether a slice begins a new picture behind the pictures so far (clause
/// 7.4.1.2.4, frame-picture subset).
pub open spec fn starts_picture(
    pictures: Seq<PictureGroup>,
    header: SliceHeaderView,
    nal_type: NalType,
) -> bool {
    pictures.len() == 0 || {
        let last = pictures.last();
        ||| header.first_mb_in_slice == 0
        ||| last.header.frame_num != header.frame_num
        ||| last.header.pps_id != header.pps_id
        ||| last.nal_type != nal_type
        ||| last.header.pic_order_cnt_lsb != header.pic_order_cnt_lsb
        ||| last.header.idr_pic_id != header.idr_pic_id
    }
}

/// Whether slices of this type use no prediction from other pictures.
pub open spec fn is_intra_type(slice_type: SliceType) -> bool {
    slice_type == SliceType::I || slice_type == SliceType::Si
}

/// The pictures once a slice with the given header was added to them.
pub open spec fn with_slice(
    pictures: Seq<PictureGroup>,
    header: SliceHeaderView,
    nal: NalView,
    sps: SpsView,
    pps: Pps,
) -> Seq<PictureGroup> {
    let intra = is_intra_type(header.slice_type);
    if starts_picture(pictures, header, nal.nal_type) {
        pictures.push(
            PictureGroup {
                header,
                nal_type: nal.nal_type,
                ref_idc: nal.ref_idc,
                is_intra: intra,
                slices: seq![nal.data],
                sps,
                pps,
            },
        )
    } else {
        let last = pictures.last();
        // A picture is intra only if *every* slice is intra.
        pictures.drop_last().push(
            PictureGroup {
                is_intra: last.is_intra && intra,
                slices: last.slices.push(nal.data),
                ..last
            },
        )
    }
}

/// The pictures once a slice NAL unit was grouped with them, and what became of
/// the slice.
pub open spec fn grouped(
    pictures: Seq<PictureGroup>,
    nal: NalView,
    sps_map: Map<u8, SpsView>,
    pps_map: Map<u8, Pps>,
) -> (Seq<PictureGroup>, Result<Grouped, PixelForgeError>) {
    let start = cursor(payload_bits(nal.data.skip(1)));
    let (pps_id, place) = slice_pps_id(start);
    if place.error is Some {
        (pictures, Err(place.error->Some_0))
    } else if !pps_map.contains_key(pps_id) {
        (pictures, Ok(Grouped::NeedsParameterSets(MissingSet::Pps(pps_id))))
    } else {
        let pps = pps_map[pps_id];
        if !sps_map.contains_key(pps.sps_id) {
            (pictures, Ok(Grouped::NeedsParameterSets(MissingSet::Sps(pps.sps_id))))
        } else {
            let sps = sps_map[pps.sps_id];
            let (header, place) = slice_header(
                start,
                nal.nal_type == NalType::IdrSlice,
                nal.ref_idc,
                sps,
                pps,
            );
            if place.error is Some {
                (pictures, Err(place.error->Some_0))
            } else {
                (with_slice(pictures, header, nal, sps, pps), Ok(Grouped::Added))
            }
        }
    }
}

/// Peek the id of the PPS that a slice uses.
fn peek_pps_id(payload: &[u8]) -> (result: Result<u8, PixelForgeError>)
    ensures
        parses(result, slice_pps_id(cursor(payload_bits(payload@)))),
{
    let mut probe = BitReader::new(payload);
    let _first_mb_in_slice: u32 = probe.ue()?;
    let _slice_type: u32 = probe.ue()?;
    Ok(probe.ue()? as u8)
}

/// Append a slice NAL to the picture in progress, or begin a new picture.
pub fn group_slices<'a>(
    pictures: &mut Vec<Picture<'a>>,
    nal: &NalUnit<'a>,
    sps_map: &HashMap<u8, Sps>,
    pps_map: &HashMap<u8, Pps>,
) -> (result: Result<Grouped, PixelForgeError>)
    requires
        nal.data@.len() >= 1,
    ensures
        (groups(final(pictures)@), result) == grouped(
            groups(old(pictures)@),
            nal@,
            sps_views(sps_map@),
            pps_map@,
        ),
{
    // Peek just far enough to find which PPS (and hence SPS) applies.
    let pps_id: u8 = peek_pps_id(nal.payload())?;

    // Missing parameter sets: we joined the stream before they were sent. Not a
    // fault: signal that a keyframe (which carries fresh sets) is needed.
    let pps: Pps = match pps_map.get(&pps_id) {
        Some(pps) => *pps,
        None => {
            return Ok(Grouped::NeedsParameterSets(MissingSet::Pps(pps_id)));
        },
    };
    let sps: &Sps = match sps_map.get(&pps.sps_id) {
        Some(sps) => sps,
        None => {
            return Ok(Grouped::NeedsParameterSets(MissingSet::Sps(pps.sps_id)));
        },
    };
    let header = parse_slice_header(nal, sps, &pps)?;
    let is_intra = matches!(header.slice_type, SliceType::I | SliceType::Si);
    let ghost before = groups(pictures@);

    // Picture boundary detection (clause 7.4.1.2.4, frame-picture subset).
    //
    // `first_mb_in_slice == 0` marks the first slice of a picture and is
    // sufficient for conforming streams; the syntax comparisons additionally
    // catch a picture boundary that a truncated or spliced stream would
    // otherwise hide (e.g. a dropped first slice).
    let starts_new = if pictures.len() == 0 {
        true
    } else {
        let prev: &Picture = &pictures[pictures.len() - 1];
        assert(before.last() == prev@);
        header.first_mb_in_slice == 0 || prev.header.frame_num != header.frame_num
            || prev.header.pps_id != header.pps_id || prev.nal_type != nal.nal_type
            || prev.header.pic_order_cnt_lsb != header.pic_order_cnt_lsb || prev.header.idr_pic_id
            != header.idr_pic_id
    };
    let ghost header_view = header@;
    if starts_new {
        let mut slices: Vec<&'a [u8]> = Vec::new();
        slices.push(nal.data);
        assert(slice_bytes(slices@) =~= seq![nal.data@]);
        let picture = Picture {
            header,
            nal_type: nal.nal_type,
            ref_idc: nal.ref_idc,
            is_intra,
            slices,
            sps: sps.clone(),
            pps,
        };
        pictures.push(picture);
        assert(groups(pictures@) =~= before.push(picture@));
    } else {
        let mut picture = match pictures.pop() {
            Some(picture) => picture,
            None => {
                return Ok(Grouped::Added);
            },
        };
        let ghost last = picture@;
        assert(last == before.last());
        // A picture is intra only if *every* slice is intra.
        picture.is_intra = picture.is_intra && is_intra;
        picture.slices.push(nal.data);
        assert(slice_bytes(picture.slices@) =~= last.slices.push(nal.data@));
        pictures.push(picture);
        assert(groups(pictures@) =~= before.drop_last().push(picture@));
    }
    assert(groups(pictures@) =~= with_slice(before, header_view, nal@, sps@, pps));
    Ok(Grouped::Added)
}

/// The parameter sets seen so far, by id.
pub struct ParameterSets {
    sps_map: HashMap<u8, Sps>,
    pps_map: HashMap<u8, Pps>,
}

/// The mathematical view of [`ParameterSets`].
#[verifier::ext_equal]
pub struct SetsView {
    pub sps: Map<u8, SpsView>,
    pub pps: Map<u8, Pps>,
}

impl View for ParameterSets {
    type V = SetsView;

    closed spec fn view(&self) -> SetsView {
        SetsView { sps: sps_views(self.sps_map@), pps: self.pps_map@ }
    }
}

/// How far the NAL units of a chunk have been taken in.
#[verifier::ext_equal]
pub struct Progress {
    pub sets: SetsView,
    pub pictures: Seq<PictureGroup>,
    /// The first parameter set that a slice was skipped for.
    pub missing: Option<MissingSet>,
    pub error: Option<PixelForgeError>,
}

/// The chroma format of the SPS with the given id, where that is known.
pub open spec fn chroma_format(sets: SetsView, sps_id: u8) -> Option<u8> {
    if sets.sps.contains_key(sps_id) {
        Some(sets.sps[sps_id].chroma.chroma_format_idc)
    } else {
        None
    }
}

/// One NAL unit further. Parameter sets are absorbed, slices are grouped, and
/// everything else is left out. Once there is an error, nothing more happens.
#[verifier::opaque]
pub open spec fn absorbed(at: Progress, nal: NalView) -> Progress {
    let start = cursor(payload_bits(nal.data.skip(1)));
    if at.error is Some {
        at
    } else if nal.nal_type == NalType::Sps {
        let (sps, place) = sps_syntax(start);
        if place.error is Some {
            Progress { error: place.error, ..at }
        } else {
            Progress {
                sets: SetsView { sps: at.sets.sps.insert(sps.sps_id, sps), ..at.sets },
                ..at
            }
        }
    } else if nal.nal_type == NalType::Pps {
        let (pps, place) = pps_syntax(start, chroma_format(at.sets, pps_head(start).0.sps_id));
        if place.error is Some {
            Progress { error: place.error, ..at }
        } else {
            Progress {
                sets: SetsView { pps: at.sets.pps.insert(pps.pps_id, pps), ..at.sets },
                ..at
            }
        }
    } else if nal.nal_type == NalType::Slice || nal.nal_type == NalType::IdrSlice {
        let (pictures, result) = grouped(at.pictures, nal, at.sets.sps, at.sets.pps);
        match result {
            Err(error) => Progress { error: Some(error), ..at },
            Ok(Grouped::Added) => Progress { pictures, ..at },
            Ok(Grouped::NeedsParameterSets(set)) => Progress {
                missing: if at.missing is None { Some(set) } else { at.missing },
                ..at
            },
        }
    } else {
        at
    }
}

/// A list of NAL units further.
pub open spec fn absorbed_all(at: Progress, nals: Seq<NalView>) -> Progress
    decreases nals.len(),
{
    if nals.len() == 0 || at.error is Some {
        at
    } else {
        absorbed_all(absorbed(at, nals[0]), nals.skip(1))
    }
}

/// A chunk before its first NAL unit.
pub open spec fn unread(sets: SetsView) -> Progress {
    Progress { sets, pictures: Seq::empty(), missing: None, error: None }
}

/// A PPS that does not ask for the chroma format does not depend on it.
proof fn lemma_chroma_unasked(c: Cursor, a: Option<u8>, b: Option<u8>)
    requires
        !pps_asks_chroma(c),
    ensures
        pps_syntax(c, a) == pps_syntax(c, b),
{
    reveal(pps_syntax);
}

impl Default for ParameterSets {
    /// No parameter set has been seen.
    fn default() -> (sets: Self)
        ensures
            sets@ == (SetsView { sps: Map::empty(), pps: Map::empty() }),
    {
        let sets = ParameterSets { sps_map: HashMap::new(), pps_map: HashMap::new() };
        assert(sets@.sps =~= Map::empty());
        sets
    }
}

impl ParameterSets {
    /// Absorb a sequence parameter set.
    fn absorb_sps(&mut self, payload: &[u8]) -> (result: Result<(), PixelForgeError>)
        ensures
            ({
                let (sps, place) = sps_syntax(cursor(payload_bits(payload@)));
                match result {
                    Ok(()) => place.error is None && final(self)@ == (SetsView {
                        sps: old(self)@.sps.insert(sps.sps_id, sps),
                        ..old(self)@
                    }),
                    Err(error) => place.error == Some(error) && final(self)@ == old(self)@,
                }
            }),
    {
        let sps = parse_sps(payload)?;
        let id: u8 = sps.sps_id;
        let ghost view = sps@;
        self.sps_map.insert(id, sps);
        assert(self@.sps =~= old(self)@.sps.insert(id, view));
        Ok(())
    }

    /// Absorb a picture parameter set.
    fn absorb_pps(&mut self, payload: &[u8]) -> (result: Result<(), PixelForgeError>)
        ensures
            ({
                let start = cursor(payload_bits(payload@));
                let (pps, place) = pps_syntax(
                    start,
                    chroma_format(old(self)@, pps_head(start).0.sps_id),
                );
                match result {
                    Ok(()) => place.error is None && final(self)@ == (SetsView {
                        pps: old(self)@.pps.insert(pps.pps_id, pps),
                        ..old(self)@
                    }),
                    Err(error) => place.error == Some(error) && final(self)@ == old(self)@,
                }
            }),
    {
        let ghost start = cursor(payload_bits(payload@));
        let ghost sets = self@;
        let sps_map = &self.sps_map;
        let lookup = |id: u8| -> (chroma: Option<u8>)
            ensures
                chroma == if sps_map@.contains_key(id) {
                    Some(sps_map@[id].chroma_format_idc)
                } else {
                    None
                },
            {
                match sps_map.get(&id) {
                    Some(sps) => Some(sps.chroma_format_idc),
                    None => None,
                }
            };
        let result = parse_pps(payload, lookup);
        proof {
            let asked = choose|chroma: Option<u8>|
                {
                    &&& #[trigger] parses(result, pps_syntax(start, chroma))
                    &&& pps_asks_chroma(start) ==> call_ensures(
                        lookup,
                        (pps_head(start).0.sps_id,),
                        chroma,
                    )
                };
            assert(parses(result, pps_syntax(start, asked)));
            let known = chroma_format(sets, pps_head(start).0.sps_id);
            if !pps_asks_chroma(start) {
                lemma_chroma_unasked(start, asked, known);
            }
            assert(parses(result, pps_syntax(start, known)));
        }
        let pps: Pps = result?;
        self.pps_map.insert(pps.pps_id, pps);
        Ok(())
    }

    /// Absorb a parameter set, or group a slice.
    fn absorb<'a>(
        &mut self,
        nal: &NalUnit<'a>,
        pictures: &mut Vec<Picture<'a>>,
        missing: &mut Option<MissingSet>,
    ) -> (result: Result<(), PixelForgeError>)
        requires
            nal.data@.len() >= 1,
        ensures
            absorbed(
                Progress {
                    sets: old(self)@,
                    pictures: groups(old(pictures)@),
                    missing: *old(missing),
                    error: None,
                },
                nal@,
            ) == (Progress {
                sets: final(self)@,
                pictures: groups(final(pictures)@),
                missing: *final(missing),
                error: match result {
                    Ok(()) => None,
                    Err(error) => Some(error),
                },
            }),
    {
        proof {
            reveal(absorbed);
        }
        match nal.nal_type {
            NalType::Sps => self.absorb_sps(nal.payload()),
            NalType::Pps => self.absorb_pps(nal.payload()),
            NalType::Slice | NalType::IdrSlice => {
                match group_slices(pictures, nal, &self.sps_map, &self.pps_map)? {
                    Grouped::Added => {},
                    // Missing parameter sets: skip the slice, remember why.
                    Grouped::NeedsParameterSets(set) => {
                        if missing.is_none() {
                            *missing = Some(set);
                        }
                    },
                }
                Ok(())
            },
            // SEI, AUD, and everything else is not needed by the driver.
            _ => Ok(()),
        }
    }

    /// Group the NAL units of `data` into pictures, absorbing any parameter sets
    /// encountered. Returns the pictures plus, if any slice was skipped for
    /// missing parameter sets, the first that was missing.
    pub fn split_pictures<'a>(&mut self, data: &'a [u8]) -> (result: Result<
        (Vec<Picture<'a>>, Option<MissingSet>),
        PixelForgeError,
    >)
        ensures
            ({
                let done = absorbed_all(unread(old(self)@), units(nal_units(data@, 0)));
                &&& final(self)@ == done.sets
                &&& match result {
                    Ok((pictures, missing)) => done.error is None && groups(pictures@)
                        == done.pictures && missing == done.missing,
                    Err(error) => done.error == Some(error),
                }
            }),
    {
        let nals = iter_nal_units(data);
        let ghost list = units(nal_units(data@, 0));
        let ghost done = absorbed_all(unread(self@), list);
        let mut pictures: Vec<Picture<'a>> = Vec::new();
        let mut missing: Option<MissingSet> = None;
        let mut i: usize = 0;
        assert(list.skip(0) =~= list);
        assert(groups(pictures@) =~= Seq::empty());
        while i < nals.len()
            invariant
                i <= nals@.len(),
                list == units(nal_units(data@, 0)),
                nals@.len() == list.len(),
                forall|k: int| 0 <= k < nals@.len() ==> #[trigger] nals@[k]@ == list[k],
                done == absorbed_all(unread(old(self)@), list),
                done == absorbed_all(
                    Progress { sets: self@, pictures: groups(pictures@), missing, error: None },
                    list.skip(i as int),
                ),
            decreases nals@.len() - i,
        {
            proof {
                reveal_with_fuel(absorbed_all, 2);
                lemma_nal_nonempty(data@, 0, i as int);
            }
            let nal: NalUnit = nals[i];
            assert(list.skip(i as int)[0] == nal@);
            assert(list.skip(i as int).skip(1) =~= list.skip(i + 1));
            self.absorb(&nal, &mut pictures, &mut missing)?;
            i = i + 1;
        }
        Ok((pictures, missing))
    }
}

/// Which pictures of a chunk are decoded, and what the chunk comes to.
#[derive(Clone, Copy, Debug, PartialEq, Eq, Structural)]
pub struct FramesPlan {
    /// The first picture that can be decoded; all that follow it can be too.
    pub first: usize,
    /// The status of the chunk, once those pictures are decoded.
    pub status: DecodeStatus,
    /// Whether decoding still waits for a keyframe then.
    pub awaiting_keyframe: bool,
}

/// Whether a picture cannot be decoded yet: it refers to pictures that were never
/// seen.
pub open spec fn undecodable(picture: PictureGroup, awaiting_keyframe: bool) -> bool {
    awaiting_keyframe && picture.nal_type != NalType::IdrSlice
}

/// The number of leading pictures that cannot be decoded.
pub open spec fn decodable_from(pictures: Seq<PictureGroup>, awaiting_keyframe: bool) -> int
    decreases pictures.len(),
{
    if pictures.len() == 0 || !undecodable(pictures[0], awaiting_keyframe) {
        0
    } else {
        1 + decodable_from(pictures.skip(1), awaiting_keyframe)
    }
}

/// Which pictures of a chunk are decoded, `skipped` being whether a slice was left
/// out for want of its parameter sets.
pub open spec fn frames_plan(
    pictures: Seq<PictureGroup>,
    skipped: bool,
    awaiting_keyframe: bool,
) -> FramesPlan {
    let first = decodable_from(pictures, awaiting_keyframe);
    FramesPlan {
        first: first as usize,
        status: if first < pictures.len() {
            DecodeStatus::Decoded
        } else if skipped || pictures.len() > 0 {
            DecodeStatus::NeedsKeyframe
        } else {
            DecodeStatus::Buffered
        },
        awaiting_keyframe: awaiting_keyframe && first == pictures.len(),
    }
}

/// Decide which pictures of a chunk to decode.
///
/// A non-IDR picture before the first keyframe references reference pictures and
/// POC state that do not exist yet. It is skipped and a keyframe asked for,
/// rather than decoding garbage. That is only asked for when nothing is decoded:
/// if a keyframe arrives later in the same chunk, its pictures take priority.
pub fn plan_frames(
    pictures: &Vec<Picture>,
    missing: Option<MissingSet>,
    awaiting_keyframe: bool,
) -> (plan: FramesPlan)
    ensures
        plan.first <= pictures@.len(),
        forall|i: int|
            0 <= i < plan.first ==> undecodable(#[trigger] groups(pictures@)[i], awaiting_keyframe),
        plan.first < pictures@.len() ==> !undecodable(
            groups(pictures@)[plan.first as int],
            awaiting_keyframe,
        ),
        plan.awaiting_keyframe == (awaiting_keyframe && plan.first == pictures@.len()),
        plan.status == if plan.first < pictures@.len() {
            DecodeStatus::Decoded
        } else if missing is Some || pictures@.len() > 0 {
            DecodeStatus::NeedsKeyframe
        } else {
            DecodeStatus::Buffered
        },
        plan == frames_plan(groups(pictures@), missing is Some, awaiting_keyframe),
{
    let ghost all = groups(pictures@);
    assert(all.skip(0) =~= all);
    let mut first: usize = 0;
    while first < pictures.len() && awaiting_keyframe && pictures[first].nal_type
        != NalType::IdrSlice
        invariant
            first <= pictures@.len(),
            all == groups(pictures@),
            forall|i: int|
                0 <= i < first ==> undecodable(#[trigger] groups(pictures@)[i], awaiting_keyframe),
            decodable_from(all, awaiting_keyframe) == first + decodable_from(
                all.skip(first as int),
                awaiting_keyframe,
            ),
        decreases pictures@.len() - first,
    {
        assert(all.skip(first as int)[0] == all[first as int]);
        assert(all.skip(first as int).skip(1) =~= all.skip(first + 1));
        first = first + 1;
    }
    assert(decodable_from(all.skip(first as int), awaiting_keyframe) == 0) by {
        if first < pictures.len() {
            assert(all.skip(first as int)[0] == all[first as int]);
        }
    }
    let status = if first < pictures.len() {
        DecodeStatus::Decoded
    } else if missing.is_some() || pictures.len() > 0 {
        DecodeStatus::NeedsKeyframe
    } else {
        DecodeStatus::Buffered
    };
    FramesPlan { first, status, awaiting_keyframe: awaiting_keyframe && first == pictures.len() }
}

/// Whether two sets of parameters are the same, in content and not only by id.
///
/// An SPS may be resent with different content under an id it has already used,
/// which is how a resolution change is signalled. A session is only kept for
/// parameter sets that are the same ones.
pub fn same_parameters(sps: &Sps, pps: &Pps, other_sps: &Sps, other_pps: &Pps) -> (same: bool)
    ensures
        same == (sps@ == other_sps@ && *pps == *other_pps),
{
    let n: usize = sps.offsets_for_ref_frame.len();
    if n != other_sps.offsets_for_ref_frame.len() {
        return false;
    }
    let mut i: usize = 0;
    while i < n
        invariant
            i <= n,
            n == sps.offsets_for_ref_frame@.len(),
            n == other_sps.offsets_for_ref_frame@.len(),
            forall|k: int|
                0 <= k < i ==> sps.offsets_for_ref_frame@[k] == other_sps.offsets_for_ref_frame@[k],
        decreases n - i,
    {
        if sps.offsets_for_ref_frame[i] != other_sps.offsets_for_ref_frame[i] {
            assert(sps@.poc.offsets_for_ref_frame[i as int]
                != other_sps@.poc.offsets_for_ref_frame[i as int]);
            return false;
        }
        i = i + 1;
    }
    assert(sps.offsets_for_ref_frame@ =~= other_sps.offsets_for_ref_frame@);
    same_scalars(sps, other_sps) && *pps == *other_pps
}

/// Whether two sequence parameter sets agree but for their offsets.
fn same_scalars(a: &Sps, b: &Sps) -> (same: bool)
    ensures
        same == (SpsView {
            poc: PocView { offsets_for_ref_frame: Seq::empty(), ..a@.poc },
            ..a@
        } == SpsView { poc: PocView { offsets_for_ref_frame: Seq::empty(), ..b@.poc }, ..b@ }),
{
    a.profile_idc == b.profile_idc && a.constraint_set_flags == b.constraint_set_flags
        && a.level_idc == b.level_idc && a.sps_id == b.sps_id && a.chroma_format_idc
        == b.chroma_format_idc && a.separate_colour_plane_flag == b.separate_colour_plane_flag
        && a.bit_depth_luma_minus8 == b.bit_depth_luma_minus8 && a.bit_depth_chroma_minus8
        == b.bit_depth_chroma_minus8 && a.qpprime_y_zero_transform_bypass_flag
        == b.qpprime_y_zero_transform_bypass_flag && a.seq_scaling_matrix_present_flag
        == b.seq_scaling_matrix_present_flag && a.log2_max_frame_num_minus4
        == b.log2_max_frame_num_minus4 && a.pic_order_cnt_type == b.pic_order_cnt_type
        && a.log2_max_pic_order_cnt_lsb_minus4 == b.log2_max_pic_order_cnt_lsb_minus4
        && a.delta_pic_order_always_zero_flag == b.delta_pic_order_always_zero_flag
        && a.offset_for_non_ref_pic == b.offset_for_non_ref_pic && a.offset_for_top_to_bottom_field
        == b.offset_for_top_to_bottom_field && a.max_num_ref_frames == b.max_num_ref_frames
        && a.gaps_in_frame_num_value_allowed_flag == b.gaps_in_frame_num_value_allowed_flag
        && a.pic_width_in_mbs_minus1 == b.pic_width_in_mbs_minus1
        && a.pic_height_in_map_units_minus1 == b.pic_height_in_map_units_minus1
        && a.frame_mbs_only_flag == b.frame_mbs_only_flag && a.mb_adaptive_frame_field_flag
        == b.mb_adaptive_frame_field_flag && a.direct_8x8_inference_flag
        == b.direct_8x8_inference_flag && a.frame_cropping_flag == b.frame_cropping_flag
        && a.frame_crop_left_offset == b.frame_crop_left_offset && a.frame_crop_right_offset
        == b.frame_crop_right_offset && a.frame_crop_top_offset == b.frame_crop_top_offset
        && a.frame_crop_bottom_offset == b.frame_crop_bottom_offset && match (
        a.max_num_reorder_frames,
        b.max_num_reorder_frames,
    ) {
        (Some(x), Some(y)) => x == y,
        (None, None) => true,
        _ => false,
    }
}

/// Whether a picture is still the one it was, but for slices that were added.
pub open spec fn same_picture(a: PictureGroup, b: PictureGroup) -> bool {
    &&& a.header == b.header
    &&& a.nal_type == b.nal_type
    &&& a.ref_idc == b.ref_idc
    &&& a.sps == b.sps
    &&& a.pps == b.pps
}

/// A later NAL unit never reaches back: whatever parameter sets follow, a picture
/// keeps those that were in effect when it was grouped.
pub proof fn law_parameter_sets_do_not_reach_back(at: Progress, nals: Seq<NalView>, i: int)
    requires
        0 <= i < at.pictures.len(),
    ensures
        absorbed_all(at, nals).pictures.len() >= at.pictures.len(),
        same_picture(at.pictures[i], absorbed_all(at, nals).pictures[i]),
    decreases nals.len(),
{
    if nals.len() > 0 && at.error is None {
        reveal(absorbed);
        let next = absorbed(at, nals[0]);
        assert(next.pictures.len() >= at.pictures.len());
        assert(same_picture(at.pictures[i], next.pictures[i]));
        law_parameter_sets_do_not_reach_back(next, nals.skip(1), i);
    }
}

/// Without its parameter sets a slice forms no picture: a stream that is joined
/// after they were sent asks for a keyframe.
pub proof fn law_no_picture_without_parameter_sets(
    pictures: Seq<PictureGroup>,
    nal: NalView,
    sps_map: Map<u8, SpsView>,
    pps_map: Map<u8, Pps>,
)
    requires
        forall|id: u8|
            #[trigger] pps_map.contains_key(id) ==> !sps_map.contains_key(pps_map[id].sps_id),
    ensures
        grouped(pictures, nal, sps_map, pps_map).0 == pictures,
        grouped(pictures, nal, sps_map, pps_map).1 != Ok::<Grouped, PixelForgeError>(
            Grouped::Added,
        ),
{
}

/// Whether `big` has come as far as `small`, behind the pictures `before`.
spec fn follows(big: Progress, small: Progress, before: Seq<PictureGroup>) -> bool {
    &&& big.sets == small.sets
    &&& big.error == small.error
    &&& big.pictures == before + small.pictures
}

proof fn lemma_absorbed_follows(
    big: Progress,
    small: Progress,
    before: Seq<PictureGroup>,
    nal: NalView,
)
    requires
        follows(big, small, before),
        nal.data.len() >= 1,
        small.pictures.len() > 0 || !is_slice_type(nal.nal_type) || (begins_picture(nal)
            && absorbed(small, nal).pictures.len() > 0),
    ensures
        follows(absorbed(big, nal), absorbed(small, nal), before),
{
    reveal(absorbed);
    if is_slice_type(nal.nal_type) && small.error is None {
        let start = cursor(payload_bits(nal.data.skip(1)));
        let (pps_id, place) = slice_pps_id(start);
        let sets = small.sets;
        if place.error is None && sets.pps.contains_key(pps_id) {
            let pps = sets.pps[pps_id];
            if sets.sps.contains_key(pps.sps_id) {
                let sps = sets.sps[pps.sps_id];
                let idr = nal.nal_type == NalType::IdrSlice;
                let (header, place) = slice_header(start, idr, nal.ref_idc, sps, pps);
                if small.pictures.len() > 0 {
                    assert(big.pictures.last() == small.pictures.last());
                    assert(big.pictures.drop_last() =~= before + small.pictures.drop_last());
                } else if place.error is None {
                    law_picture_begins_at_first_macroblock(nal);
                    lemma_header_first_field(start, idr, nal.ref_idc, sps, pps);
                    assert(header.first_mb_in_slice == 0);
                }
                assert(with_slice(big.pictures, header, nal, sps, pps) =~= before + with_slice(
                    small.pictures,
                    header,
                    nal,
                    sps,
                    pps,
                ));
            }
        }
    }
}

proof fn lemma_header_first_field(c: Cursor, idr: bool, ref_idc: u8, sps: SpsView, pps: Pps)
    ensures
        slice_header(c, idr, ref_idc, sps, pps).0.first_mb_in_slice == c.ue().0,
{
    reveal(slice_identity);
}

proof fn lemma_all_follow(
    big: Progress,
    small: Progress,
    before: Seq<PictureGroup>,
    nals: Seq<NalView>,
    k: int,
)
    requires
        follows(big, small, before),
        forall|i: int| 0 <= i < nals.len() ==> (#[trigger] nals[i]).data.len() >= 1,
        small.pictures.len() > 0 || opens_at(nals, k) && absorbed_all(
            small,
            nals.take(k + 1),
        ).pictures.len() > 0,
    ensures
        follows(absorbed_all(big, nals), absorbed_all(small, nals), before),
    decreases nals.len(),
{
    if nals.len() > 0 && small.error is None {
        let next = absorbed(small, nals[0]);
        if small.pictures.len() == 0 {
            assert(nals.take(k + 1)[0] == nals[0]);
            assert(nals.take(k + 1).skip(1) =~= nals.skip(1).take(k));
            if k == 0 {
                assert(nals.take(1).skip(1) =~= Seq::empty());
                reveal_with_fuel(absorbed_all, 2);
                assert(absorbed_all(small, nals.take(1)) == next);
            } else {
                assert(!is_slice_type(nals[0].nal_type));
                assert(nals.skip(1)[k - 1] == nals[k]);
                assert forall|j: int| 0 <= j < k - 1 implies !is_slice_type(
                    (#[trigger] nals.skip(1)[j]).nal_type,
                ) by {
                    assert(nals.skip(1)[j] == nals[j + 1]);
                }
            }
        } else {
            reveal(absorbed);
        }
        lemma_absorbed_follows(big, small, before, nals[0]);
        assert forall|i: int| 0 <= i < nals.skip(1).len() implies (
        #[trigger] nals.skip(1)[i]).data.len() >= 1 by {
            assert(nals.skip(1)[i] == nals[i + 1]);
        }
        lemma_all_follow(absorbed(big, nals[0]), next, before, nals.skip(1), k - 1);
    }
}

proof fn lemma_absorbed_concat(at: Progress, a: Seq<NalView>, b: Seq<NalView>)
    ensures
        absorbed_all(at, a + b) == absorbed_all(absorbed_all(at, a), b),
    decreases a.len(),
{
    if a.len() == 0 {
        assert(a + b =~= b);
    } else if at.error is None {
        assert((a + b)[0] == a[0]);
        assert((a + b).skip(1) =~= a.skip(1) + b);
        lemma_absorbed_concat(absorbed(at, a[0]), a.skip(1), b);
    }
}

/// The pictures of a stream do not depend on where it is cut: at any picture
/// start, the pictures of the two parts, one after the other, are the pictures of
/// the whole. (The first slice behind the cut must have its parameter sets, as
/// otherwise it forms no picture at all.)
pub proof fn law_pictures_ignore_cuts(sets: SetsView, stream: Seq<u8>, cut: int, k: int)
    requires
        start_offsets(stream).contains(cut),
        absorbed_all(unread(sets), units(nal_units(stream.take(cut), 0))).error is None,
        opens_at(units(nal_units(stream.skip(cut), 0)), k),
        absorbed_all(
            unread(absorbed_all(unread(sets), units(nal_units(stream.take(cut), 0))).sets),
            units(nal_units(stream.skip(cut), 0)).take(k + 1),
        ).pictures.len() > 0,
    ensures
        ({
            let first = absorbed_all(unread(sets), units(nal_units(stream.take(cut), 0)));
            let second = absorbed_all(
                unread(first.sets),
                units(nal_units(stream.skip(cut), 0)),
            );
            let whole = absorbed_all(unread(sets), units(nal_units(stream, 0)));
            &&& whole.pictures == first.pictures + second.pictures
            &&& whole.sets == second.sets
            &&& whole.error == second.error
        }),
{
    let a = units(nal_units(stream.take(cut), 0));
    let b = units(nal_units(stream.skip(cut), 0));
    let first = absorbed_all(unread(sets), a);
    let found = law_cut_keeps_nal_units(stream, cut);
    lemma_absorbed_concat(unread(sets), a, b);
    assert(first.pictures + unread(first.sets).pictures =~= first.pictures);
    assert forall|i: int| 0 <= i < b.len() implies (#[trigger] b[i]).data.len() >= 1 by {
        lemma_nal_nonempty(stream.skip(cut), 0, i);
    }
    lemma_all_follow(first, unread(first.sets), first.pictures, b, k);
}

/// Decoding begins at a keyframe and then leaves nothing out: while one is awaited,
/// every other picture is undecodable, and from there on none is.
pub proof fn law_decoding_begins_at_a_keyframe(picture: PictureGroup)
    ensures
        undecodable(picture, true) <==> picture.nal_type != NalType::IdrSlice,
        !undecodable(picture, false),
{
}

/// A keyframe is asked for only where nothing can be decoded: a chunk without
/// pictures asks for one where slices had to be left out, one that starts with a
/// keyframe never does, and a picture that cannot be decoded counts like slices that
/// had to be left out. Once a keyframe was seen, every picture is decoded.
pub proof fn law_keyframe_is_asked_for_where_needed(
    pictures: Seq<PictureGroup>,
    skipped: bool,
    awaiting_keyframe: bool,
)
    requires
        pictures.len() < usize::MAX,
    ensures
        ({
            let plan = frames_plan(pictures, skipped, awaiting_keyframe);
            &&& pictures.len() == 0 ==> plan.status == (if skipped {
                DecodeStatus::NeedsKeyframe
            } else {
                DecodeStatus::Buffered
            }) && plan.awaiting_keyframe == awaiting_keyframe && plan.first == 0
            &&& pictures.len() > 0 && (!awaiting_keyframe || pictures[0].nal_type
                == NalType::IdrSlice) ==> plan.first == 0 && plan.status == DecodeStatus::Decoded
                && !plan.awaiting_keyframe
            &&& pictures.len() > 0 && awaiting_keyframe && pictures[0].nal_type
                != NalType::IdrSlice ==> {
                let later = frames_plan(pictures.skip(1), true, true);
                &&& plan.first == later.first + 1
                &&& plan.status == later.status
                &&& plan.awaiting_keyframe == later.awaiting_keyframe
            }
        }),
{
    lemma_decodable_from(pictures, awaiting_keyframe);
    if pictures.len() > 0 {
        lemma_decodable_from(pictures.skip(1), true);
    }
}

proof fn lemma_decodable_from(pictures: Seq<PictureGroup>, awaiting_keyframe: bool)
    ensures
        0 <= decodable_from(pictures, awaiting_keyframe) <= pictures.len(),
    decreases pictures.len(),
{
    if pictures.len() > 0 {
        lemma_decodable_from(pictures.skip(1), awaiting_keyframe);
    }
}

} // verus!
