//! The session that pictures are decoded in: its plan, its DPB, and the steps that
//! one picture takes through it.
//!
//! Decoding a picture begins with its order count and reference state, takes a
//! slot, is recorded and submitted, and ends with the picture published and the
//! references retired. What is recorded and submitted is planned here; the device
//! does the work in between.

use crate::decoder::common::{
    plan_barriers, DecodeBarriers, LayoutChange, LAYOUT_UNDEFINED, LAYOUT_VIDEO_DECODE_DPB,
    LAYOUT_VIDEO_DECODE_DST,
};
use crate::decoder::display::{DecodedPicture, SessionFrames};
use crate::decoder::frames::SlotPins;
use crate::decoder::h264::dpb::{
    begun, ended, fresh, law_no_slot_leaks, law_window_makes_room, lemma_slots_and_order_kept,
    marking_fits, oldest, picture_of, refreshed, slid, tidy, window, DecodeDpb, DpbView,
    PictureState, PictureView, MAX_DPB_SLOTS,
};
use crate::decoder::h264::nal::NalType;
use crate::decoder::h264::parser::{Pps, Sps};
use crate::decoder::h264::poc::poc_fits;
use crate::decoder::h264::sequence::{state_in, Decode};
use crate::decoder::h264::session::{
    find_slot, law_slot_is_always_available, no_free_slot, plan_decode, reference_info,
    slots_needed, DecodePlan, FormatPlan, PictureInfo, ReferenceInfo, SlotStep, StreamPlan,
};
use crate::decoder::h264::stream::{same_parameters, Picture, PictureGroup};
use crate::decoder::h264::syntax::SpsView;
use crate::decoder::pool::FrameAccess;
use crate::error::{InvalidInput, PixelForgeError};
use vstd::prelude::*;

verus! {

/// A session and the state of its DPB.
pub struct ActiveSession {
    /// The parameter sets the session was made for, kept whole rather than by id
    /// so that a stream reusing an id for different content, which is how a
    /// resolution change is signalled, is seen as the change it is.
    sps: Sps,
    pps: Pps,
    plan: StreamPlan,
    format: FormatPlan,
    dpb: DecodeDpb,
    /// Whether each slot has been written at least once.
    slot_active: Vec<bool>,
    /// Which set of images the session decodes into.
    generation: u64,
}

/// The mathematical view of an [`ActiveSession`].
#[verifier::ext_equal]
pub struct ActiveView {
    pub sps: SpsView,
    pub pps: Pps,
    pub plan: StreamPlan,
    pub format: FormatPlan,
    pub dpb: DpbView,
    pub slot_active: Seq<bool>,
    pub generation: u64,
}

impl View for ActiveSession {
    type V = ActiveView;

    closed spec fn view(&self) -> ActiveView {
        ActiveView {
            sps: self.sps@,
            pps: self.pps,
            plan: self.plan,
            format: self.format,
            dpb: self.dpb@,
            slot_active: self.slot_active@,
            generation: self.generation,
        }
    }
}

impl ActiveView {
    /// Whether the DPB has the slots that were planned.
    pub open spec fn wf(self) -> bool {
        &&& self.dpb.wf()
        &&& self.dpb.slot_count == self.plan.slot_count
        &&& self.slot_active.len() == self.plan.slot_count
    }
}

/// Whether a picture is an IDR picture.
pub open spec fn is_idr(picture: PictureGroup) -> bool {
    picture.nal_type == NalType::IdrSlice
}

/// The state of a picture in a DPB.
pub open spec fn state_of(dpb: DpbView, picture: PictureGroup) -> PictureView {
    picture_of(
        dpb,
        picture.header,
        picture.sps,
        is_idr(picture),
        picture.ref_idc != 0,
        picture.is_intra,
    )
}

/// A picture that was decoded into `slot`, as it is to be shown: without the columns
/// and rows that cropping takes away.
pub open spec fn shown(
    plan: StreamPlan,
    generation: u64,
    sps: SpsView,
    state: PictureView,
    slot: u8,
    pts: u64,
) -> DecodedPicture {
    DecodedPicture {
        slot,
        pixel_format: plan.profile.pixel_format,
        bit_depth: plan.profile.bit_depth,
        generation,
        width: vstd::math::max(sps.coded_width() - sps.cropped_columns(), 0) as u32,
        height: vstd::math::max(sps.coded_height() - sps.cropped_rows(), 0) as u32,
        coded_width: plan.coded_width,
        coded_height: plan.coded_height,
        pts,
        display_order: state.poc,
        is_keyframe: state.is_idr,
    }
}

impl ActiveSession {
    /// A session with an empty DPB.
    pub fn new(sps: Sps, pps: Pps, plan: StreamPlan, format: FormatPlan, generation: u64) -> (
    session: Self)
        requires
            plan.slot_count <= MAX_DPB_SLOTS,
        ensures
            session@.wf(),
            session@.sps == sps@,
            session@.pps == pps,
            session@.plan == plan,
            session@.format == format,
            session@.generation == generation,
            session@.dpb == fresh(plan.slot_count as nat),
            tidy(session@.dpb, None),
            session@.slot_active == Seq::new(plan.slot_count as nat, |i: int| false),
    {
        let mut slot_active: Vec<bool> = Vec::new();
        while slot_active.len() < plan.slot_count
            invariant
                slot_active@.len() <= plan.slot_count,
                slot_active@ == Seq::new(slot_active@.len(), |i: int| false),
            decreases plan.slot_count - slot_active@.len(),
        {
            slot_active.push(false);
            assert(slot_active@ =~= Seq::new(slot_active@.len(), |i: int| false));
        }
        let dpb = DecodeDpb::new(plan.slot_count);
        ActiveSession { sps, pps, plan, format, dpb, slot_active, generation }
    }

    /// Whether the session serves these parameter sets: only when they are the
    /// same ones, not merely the same ids. An SPS may be resent with different
    /// content under an id it has already used.
    pub fn serves(&self, sps: &Sps, pps: &Pps) -> (serves: bool)
        ensures
            serves == (self@.sps == sps@ && self@.pps == *pps),
    {
        same_parameters(&self.sps, &self.pps, sps, pps)
    }

    /// The plan of the session.
    pub fn plan(&self) -> (plan: StreamPlan)
        ensures
            plan == self@.plan,
    {
        self.plan
    }

    /// What the session allows for the pictures it decodes.
    pub fn frames(&self) -> (frames: SessionFrames)
        ensures
            frames == (SessionFrames {
                pinnable: self@.plan.pinnable,
                spare_slots: self@.plan.spare_slots,
                access: FrameAccess {
                    sampleable: self@.format.sampleable,
                    plane_views: self@.format.plane_views,
                },
                format: self@.format.picture_format,
            }),
    {
        SessionFrames {
            pinnable: self.plan.pinnable,
            spare_slots: self.plan.spare_slots,
            access: FrameAccess {
                sampleable: self.format.sampleable,
                plane_views: self.format.plane_views,
            },
            format: self.format.picture_format,
        }
    }

    /// Whether the order count of a picture fits in an `i32`, which
    /// [`Self::begin_picture`] needs of a frame picture.
    pub fn picture_fits(&self, picture: &Picture) -> (fits: bool)
        ensures
            fits == (picture@.header.field_pic_flag || poc_fits(
                self@.dpb.poc,
                picture@.header,
                picture@.sps,
                is_idr(picture@),
                picture@.ref_idc != 0,
            )),
    {
        picture.header.field_pic_flag || self.dpb.picture_fits(
            picture.nal_type,
            picture.ref_idc,
            &picture.header,
            &picture.sps,
        )
    }

    /// Compute the order count and reference state of the picture about to be
    /// decoded.
    pub fn begin_picture(&mut self, picture: &Picture) -> (result: Result<
        PictureState,
        PixelForgeError,
    >)
        requires
            old(self)@.wf(),
            picture@.header.field_pic_flag || poc_fits(
                old(self)@.dpb.poc,
                picture@.header,
                picture@.sps,
                is_idr(picture@),
                picture@.ref_idc != 0,
            ),
        ensures
            final(self)@.wf(),
            final(self)@ == (ActiveView { dpb: final(self)@.dpb, ..old(self)@ }),
            ({
                let kind = picture@.sps.poc.pic_order_cnt_type;
                let dpb = old(self)@.dpb;
                match result {
                    Ok(state) => {
                        &&& !picture@.header.field_pic_flag
                        &&& kind <= 2
                        &&& state@ == state_of(dpb, picture@)
                        &&& final(self)@.dpb == begun(
                            dpb,
                            picture@.header,
                            picture@.sps,
                            is_idr(picture@),
                            picture@.ref_idc != 0,
                        )
                    },
                    Err(error) => if picture@.header.field_pic_flag {
                        &&& error == PixelForgeError::InvalidInput(InvalidInput::FieldPicture)
                        &&& final(self)@.dpb == dpb
                    } else {
                        &&& kind > 2
                        &&& error == PixelForgeError::InvalidInput(
                            InvalidInput::UnsupportedPicOrderCntType(kind),
                        )
                        &&& final(self)@.dpb == if is_idr(picture@) {
                            dpb.flushed()
                        } else {
                            dpb
                        }
                    },
                }
            }),
            tidy(old(self)@.dpb, None) ==> tidy(final(self)@.dpb, None),
    {
        let result = self.dpb.begin_picture(
            picture.nal_type,
            picture.ref_idc,
            &picture.header,
            &picture.sps,
            picture.is_intra,
        );
        result
    }

    /// Find a slot for the current picture.
    pub fn find_slot(&mut self, pins: &SlotPins) -> (result: Result<SlotStep, PixelForgeError>)
        requires
            old(self)@.wf(),
        ensures
            final(self)@.wf(),
            final(self)@ == (ActiveView { dpb: final(self)@.dpb, ..old(self)@ }),
            match result {
                Ok(SlotStep::Use(slot)) => {
                    &&& slot < old(self)@.plan.slot_count
                    &&& !old(self)@.dpb.used[slot as int] && !pins@.contains(slot)
                    &&& forall|s: u8|
                        s < slot ==> old(self)@.dpb.used[s as int] || #[trigger] pins@.contains(s)
                    &&& final(self)@.dpb == (DpbView {
                        used: old(self)@.dpb.used.update(slot as int, true),
                        ..old(self)@.dpb
                    })
                    &&& tidy(old(self)@.dpb, None) ==> tidy(final(self)@.dpb, Some(slot))
                },
                Ok(SlotStep::Wait) => {
                    &&& no_free_slot(old(self)@.dpb, pins@)
                    &&& pins@ != Set::<u8>::empty()
                    &&& final(self)@.dpb == old(self)@.dpb
                },
                Err(error) => {
                    &&& no_free_slot(old(self)@.dpb, pins@)
                    &&& pins@ == Set::<u8>::empty()
                    &&& error == PixelForgeError::InvalidInput(InvalidInput::NoFreeSlot)
                    &&& final(self)@.dpb == old(self)@.dpb
                },
            },
    {
        find_slot(&mut self.dpb, pins)
    }

    /// Plan what is recorded to decode a picture into `slot`.
    pub fn plan_decode(&self, picture: &Picture, state: &PictureState, slot: u8) -> (plan:
        DecodePlan)
        ensures
            ({
                let refs = self@.dpb.refs;
                &&& plan.references@ == Seq::new(refs.len(), |i: int| reference_info(refs[i]))
                &&& plan.begin_slots@ == Seq::new(refs.len(), |i: int| refs[i].slot as i32).push(
                    -1i32,
                )
                &&& plan.setup == (ReferenceInfo {
                    slot,
                    used_for_long_term_reference: false,
                    frame_num: state@.frame_num,
                    poc: (state@.poc, state@.poc),
                })
                &&& plan.reset == !self@.slot_active.contains(true)
                &&& plan.picture == (PictureInfo {
                    is_intra: state@.is_intra,
                    idr_pic_flag: state@.is_idr,
                    is_reference: state@.is_reference,
                    seq_parameter_set_id: picture.sps.sps_id,
                    pic_parameter_set_id: picture.header.pps_id,
                    frame_num: state@.frame_num,
                    idr_pic_id: state@.idr_pic_id,
                    poc: (state@.poc, state@.poc),
                })
            }),
    {
        plan_decode(
            self.dpb.references(),
            state,
            slot,
            self.slot_active.as_slice(),
            picture.sps.sps_id,
            picture.header.pps_id,
        )
    }

    /// Plan the layout changes before the decode into `slot`.
    pub fn plan_barriers(&self, slot: u8) -> (barriers: DecodeBarriers)
        requires
            self@.wf(),
            slot < self@.plan.slot_count,
        ensures
            barriers.slot == (LayoutChange {
                old_layout: if self@.slot_active[slot as int] {
                    LAYOUT_VIDEO_DECODE_DPB
                } else {
                    LAYOUT_UNDEFINED
                },
                new_layout: LAYOUT_VIDEO_DECODE_DPB,
            }),
            barriers.output == if self@.plan.coincide {
                None
            } else {
                Some(
                    LayoutChange {
                        old_layout: LAYOUT_UNDEFINED,
                        new_layout: LAYOUT_VIDEO_DECODE_DST,
                    },
                )
            },
    {
        plan_barriers(self.slot_active[slot as usize], !self.plan.coincide)
    }

    /// Whether the marking and the size of a picture that has begun fit in machine
    /// integers, which [`Self::publish`] needs.
    pub fn publish_fits(&self, picture: &Picture, state: &PictureState) -> (fits: bool)
        ensures
            fits == (marking_fits(self@.dpb.refs, state@, picture@.sps)
                && picture@.sps.coded_width() <= u32::MAX && picture@.sps.coded_height()
                <= u32::MAX && picture@.sps.cropped_columns() <= u32::MAX
                && picture@.sps.cropped_rows() <= u32::MAX),
    {
        self.dpb.marking_fits(state, &picture.sps) && picture.sps.dimensions_fit()
    }

    /// Publish a picture whose decode into `slot` was submitted, then retire
    /// references.
    pub fn publish(&mut self, picture: &Picture, state: &PictureState, slot: u8, pts: u64) -> (
    decoded: DecodedPicture)
        requires
            old(self)@.wf(),
            slot < old(self)@.plan.slot_count,
            marking_fits(old(self)@.dpb.refs, state@, picture@.sps),
            picture@.sps.coded_width() <= u32::MAX,
            picture@.sps.coded_height() <= u32::MAX,
            picture@.sps.cropped_columns() <= u32::MAX,
            picture@.sps.cropped_rows() <= u32::MAX,
        ensures
            final(self)@.wf(),
            final(self)@ == (ActiveView {
                dpb: ended(old(self)@.dpb, slot, state@, picture@.sps),
                slot_active: old(self)@.slot_active.update(slot as int, true),
                ..old(self)@
            }),
            ({
                let sps = picture@.sps;
                let plan = old(self)@.plan;
                decoded == (DecodedPicture {
                    slot,
                    pixel_format: plan.profile.pixel_format,
                    bit_depth: plan.profile.bit_depth,
                    generation: old(self)@.generation,
                    width: vstd::math::max(sps.coded_width() - sps.cropped_columns(), 0) as u32,
                    height: vstd::math::max(sps.coded_height() - sps.cropped_rows(), 0) as u32,
                    coded_width: plan.coded_width,
                    coded_height: plan.coded_height,
                    pts,
                    display_order: state@.poc,
                    is_keyframe: state@.is_idr,
                })
            }),
            decoded == shown(
                old(self)@.plan,
                old(self)@.generation,
                picture@.sps,
                state@,
                slot,
                pts,
            ),
            tidy(old(self)@.dpb, Some(slot)) && (state@.is_reference && state@.is_idr ==> old(
                self,
            )@.dpb.refs.len() == 0) ==> tidy(final(self)@.dpb, None),
    {
        proof {
            lemma_slots_and_order_kept(self@.dpb, slot, state@, picture@.sps);
            if tidy(self@.dpb, Some(slot)) && (state@.is_reference && state@.is_idr
                ==> self@.dpb.refs.len() == 0) {
                law_no_slot_leaks(self@.dpb, slot, state@, picture@.sps);
            }
        }
        self.slot_active.set(slot as usize, true);
        let (width, height) = picture.sps.display_dimensions();
        let decoded = DecodedPicture {
            slot,
            pixel_format: self.plan.profile.pixel_format,
            bit_depth: self.plan.profile.bit_depth,
            generation: self.generation,
            width,
            height,
            coded_width: self.plan.coded_width,
            coded_height: self.plan.coded_height,
            pts,
            display_order: state.poc,
            is_keyframe: state.is_idr,
        };
        self.dpb.end_picture(slot, state, &picture.sps);
        decoded
    }
}

/// Whether no reference is a long-term one.
pub open spec fn all_short(dpb: DpbView) -> bool {
    forall|i: int| 0 <= i < dpb.refs.len() ==> !(#[trigger] dpb.refs[i]).long_term
}

/// Whether a picture leaves its marking to the sliding window, or has none.
pub open spec fn slides(state: PictureView) -> bool {
    !state.is_reference || (if state.is_idr {
        !state.marking.long_term_reference_flag
    } else {
        !state.marking.adaptive
    })
}

proof fn lemma_slid_short(dpb: DpbView, max_refs: nat)
    requires
        all_short(dpb),
    ensures
        all_short(slid(dpb, max_refs)),
    decreases dpb.refs.len(),
{
    let first = oldest(dpb.refs);
    if let Some(i) = first {
        if dpb.refs.len() >= max_refs && 0 <= i < dpb.refs.len() {
            let next = DpbView { refs: dpb.refs.remove(i), ..dpb.freed(dpb.refs[i].slot) };
            assert forall|k: int| 0 <= k < next.refs.len() implies !(
            #[trigger] next.refs[k]).long_term by {
                assert(next.refs[k] == dpb.refs[if k < i {
                    k
                } else {
                    k + 1
                }]);
            }
            lemma_slid_short(next, max_refs);
        }
    }
}

/// A stream whose marking is left to the sliding window keeps within the
/// references it announced, picture after picture.
pub proof fn law_window_bounds_references(
    dpb: DpbView,
    slot: u8,
    state: PictureView,
    sps: SpsView,
)
    requires
        all_short(dpb),
        dpb.refs.len() <= window(sps),
        slides(state),
    ensures
        all_short(ended(dpb, slot, state, sps)),
        ended(dpb, slot, state, sps).refs.len() <= window(sps),
        window(sps) < slots_needed(sps),
{
    if state.is_reference && !state.is_idr {
        let numbered = DpbView {
            refs: refreshed(dpb.refs, state.frame_num, sps.max_frame_num()),
            ..dpb
        };
        assert forall|i: int| 0 <= i < numbered.refs.len() implies !(
        #[trigger] numbered.refs[i]).long_term by {
            assert(!dpb.refs[i].long_term);
        }
        law_window_makes_room(numbered, window(sps));
        lemma_slid_short(numbered, window(sps));
        let room = slid(numbered, window(sps));
        if room.refs.len() >= window(sps) {
            assert(room.refs[0].long_term);
        }
    }
}

/// Decoding never stalls: after any picture of a stream whose marking is left to
/// the sliding window, there is a slot for the next one, as long as frames pin no
/// more slots than the session has to spare.
pub proof fn law_decoding_never_stalls(
    dpb: DpbView,
    slot: u8,
    state: PictureView,
    sps: SpsView,
    pins: Set<u8>,
    spare: nat,
)
    requires
        tidy(dpb, Some(slot)),
        all_short(dpb),
        dpb.refs.len() <= window(sps),
        slides(state),
        state.is_reference && state.is_idr ==> dpb.refs.len() == 0,
        dpb.slot_count == slots_needed(sps) + spare,
        pins.finite(),
        pins.len() <= spare,
    ensures
        !no_free_slot(ended(dpb, slot, state, sps), pins),
{
    law_no_slot_leaks(dpb, slot, state, sps);
    law_window_bounds_references(dpb, slot, state, sps);
    let after = ended(dpb, slot, state, sps);
    lemma_slots_and_order_kept(dpb, slot, state, sps);
    law_slot_is_always_available(after, pins, sps, spare);
}

/// A picture is decoded as its NAL units say: it is a keyframe where they are IDR
/// slices, others may refer to it where their reference number is not zero, and it
/// is intra where all its slices are.
pub proof fn law_picture_is_decoded_as_sent(dpb: DpbView, picture: PictureGroup)
    ensures
        state_of(dpb, picture).is_idr <==> picture.nal_type == NalType::IdrSlice,
        state_of(dpb, picture).is_reference <==> picture.ref_idc != 0,
        state_of(dpb, picture).is_intra == picture.is_intra,
        state_of(dpb, picture).marking == picture.header.marking,
        state_of(dpb, picture) == state_in(
            dpb,
            Decode {
                header: picture.header,
                sps: picture.sps,
                idr: picture.nal_type == NalType::IdrSlice,
                reference: picture.ref_idc != 0,
                intra: picture.is_intra,
                slot: 0,
            },
        ),
{
}

/// A picture is shown without what was cropped: what is shown and what is cropped
/// add up to what was coded. It is shown in the order of its order count, with the
/// time and in the format that it was decoded with, and is a keyframe where it is an
/// IDR picture.
pub proof fn law_shown_and_cropped_are_coded(
    plan: StreamPlan,
    generation: u64,
    sps: SpsView,
    state: PictureView,
    slot: u8,
    pts: u64,
)
    requires
        sps.cropped_columns() <= sps.coded_width() <= u32::MAX,
        sps.cropped_rows() <= sps.coded_height() <= u32::MAX,
    ensures
        ({
            let picture = shown(plan, generation, sps, state, slot, pts);
            &&& picture.width + sps.cropped_columns() == sps.coded_width()
            &&& picture.height + sps.cropped_rows() == sps.coded_height()
            &&& picture.coded_width == plan.coded_width
            &&& picture.coded_height == plan.coded_height
            &&& picture.display_order == state.poc
            &&& picture.is_keyframe <==> state.is_idr
            &&& picture.pts == pts
            &&& picture.slot == slot
            &&& picture.generation == generation
            &&& picture.pixel_format == plan.profile.pixel_format
            &&& picture.bit_depth == plan.profile.bit_depth
        }),
{
    assert(sps.cropped_columns() >= 0 && sps.cropped_rows() >= 0);
}

} // verus!
