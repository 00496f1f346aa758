//! Decode-side H.264 reference picture management.
//!
//! A decoder reconstructs the reference state that the encoder implied from the
//! bitstream syntax: compute POC, hand the driver the current reference set, and
//! retire pictures.
//!
//! Retirement follows whichever process the bitstream asks for: the sliding
//! window (clause 8.2.5.3), or the explicit MMCO commands in
//! `dec_ref_pic_marking()` (clause 8.2.5.4). Both are required: x264 emits MMCO
//! whenever B-pyramid is enabled, and applying the sliding window in its place
//! silently decodes the wrong pictures.

use crate::decoder::frames::SlotPins;
use crate::decoder::h264::nal::NalType;
use crate::decoder::h264::parser::{RefPicMarking, SliceHeader, Sps};
use crate::decoder::h264::poc::{
    is_i32, poc_advance, poc_fits, poc_of, poc_reset, PocState,
};
use crate::decoder::h264::syntax::{MarkingView, Mmco, SliceHeaderView, SpsView};
use crate::error::{InvalidInput, PixelForgeError};
use vstd::prelude::*;

verus! {

/// Maximum DPB slots addressable by the H.264 spec (16 frames + 1 current).
pub const MAX_DPB_SLOTS: usize = 17;

/// A picture currently held in the DPB as a reference.
#[derive(Clone, Copy, Debug, PartialEq, Eq)]
pub struct RefPicture {
    /// DPB slot index this picture lives in.
    pub slot: u8,
    /// `frame_num` from the slice header.
    pub frame_num: u16,
    /// Wrapped frame number used for sliding-window ordering (`FrameNumWrap`).
    ///
    /// For frame pictures this is also `PicNum`, which is what MMCO operands
    /// are expressed in, so it must be refreshed against the current picture
    /// before any marking is applied (clause 8.2.4.1).
    pub frame_num_wrap: i32,
    /// Picture order count (top and bottom; identical for frame pictures).
    pub poc: (i32, i32),
    /// Whether this is a long-term reference.
    pub long_term: bool,
    /// `LongTermFrameIdx`, meaningful only when `long_term` is set. For frame
    /// pictures this doubles as `LongTermPicNum`.
    pub long_term_frame_idx: u32,
}

/// Per-picture POC and reference state derived from the bitstream.
#[derive(Debug)]
pub struct PictureState {
    /// Picture order count of the current picture.
    pub poc: i32,
    /// `frame_num` of the current picture.
    pub frame_num: u16,
    /// Whether the current picture is an IDR.
    pub is_idr: bool,
    /// Whether the current picture is used for reference (`nal_ref_idc != 0`).
    pub is_reference: bool,
    /// Whether the current picture contains only intra slices.
    pub is_intra: bool,
    /// `idr_pic_id` (only meaningful for IDR pictures).
    pub idr_pic_id: u16,
    /// `dec_ref_pic_marking()` from the slice header, driving how this picture
    /// retires earlier references once decoding completes.
    ///
    /// A picture carrying MMCO 5 already has `poc` and `frame_num` rebased to
    /// zero by [`DecodeDpb::begin_picture`].
    pub marking: RefPicMarking,
}

/// The mathematical view of a [`PictureState`].
#[verifier::ext_equal]
pub struct PictureView {
    pub poc: i32,
    pub frame_num: u16,
    pub is_idr: bool,
    pub is_reference: bool,
    pub is_intra: bool,
    pub idr_pic_id: u16,
    pub marking: MarkingView,
}

impl View for PictureState {
    type V = PictureView;

    open spec fn view(&self) -> PictureView {
        PictureView {
            poc: self.poc,
            frame_num: self.frame_num,
            is_idr: self.is_idr,
            is_reference: self.is_reference,
            is_intra: self.is_intra,
            idr_pic_id: self.idr_pic_id,
            marking: self.marking@,
        }
    }
}

/// Decode-side DPB: POC state machine plus the reference picture set.
pub struct DecodeDpb {
    /// Reference pictures, most recently decoded last.
    refs: Vec<RefPicture>,
    /// Which slots are occupied (by a reference or the in-flight picture).
    slot_used: [bool; MAX_DPB_SLOTS],
    /// Number of slots the session was created with.
    slot_count: usize,
    /// `MaxLongTermFrameIdx`, or `None` for "no long-term frame indices"
    /// (the initial state and the state after an IDR without
    /// `long_term_reference_flag`). Set by MMCO 4.
    max_long_term_frame_idx: Option<u32>,
    /// What the next picture order count is predicted from.
    poc: PocState,
}

/// The mathematical view of a [`DecodeDpb`].
#[verifier::ext_equal]
pub struct DpbView {
    /// The references, in the order they were decoded.
    pub refs: Seq<RefPicture>,
    /// For each slot, whether a reference or the current picture occupies it.
    pub used: Seq<bool>,
    /// Number of slots that may be allocated.
    pub slot_count: nat,
    /// `MaxLongTermFrameIdx`.
    pub max_long_term_frame_idx: Option<u32>,
    /// What the next picture order count is predicted from.
    pub poc: PocState,
}

/// No slot is occupied.
pub open spec fn all_free() -> Seq<bool> {
    Seq::new(MAX_DPB_SLOTS as nat, |slot: int| false)
}

/// An empty DPB with the given number of slots, as a session begins with it.
pub open spec fn fresh(slot_count: nat) -> DpbView {
    DpbView {
        refs: Seq::empty(),
        used: all_free(),
        slot_count,
        max_long_term_frame_idx: None,
        poc: poc_reset(),
    }
}

impl DpbView {
    /// Every reference lies in an existing slot.
    pub open spec fn wf(self) -> bool {
        &&& self.used.len() == MAX_DPB_SLOTS
        &&& self.slot_count <= MAX_DPB_SLOTS
        &&& forall|i: int| 0 <= i < self.refs.len() ==> #[trigger] self.refs[i].slot < MAX_DPB_SLOTS
    }

    /// Empty, with nothing to predict from, as an IDR leaves it.
    pub open spec fn flushed(self) -> DpbView {
        DpbView { refs: Seq::empty(), used: all_free(), poc: poc_reset(), ..self }
    }

    /// With `slot` freed.
    pub open spec fn freed(self, slot: u8) -> DpbView {
        DpbView { used: self.used.update(slot as int, false), ..self }
    }
}

/// Whether a header asks for the memory management reset, MMCO 5.
pub open spec fn resets(header: SliceHeaderView, reference: bool) -> bool {
    reference && header.marking.ops.contains(Mmco::ForgetAll)
}

/// The DPB while a picture with the given header is being decoded.
pub open spec fn begun(
    dpb: DpbView,
    header: SliceHeaderView,
    sps: SpsView,
    idr: bool,
    reference: bool,
) -> DpbView {
    let empty = if idr { dpb.flushed() } else { dpb };
    if resets(header, reference) {
        DpbView { poc: poc_reset(), ..empty }
    } else {
        DpbView { poc: poc_advance(dpb.poc, header, sps, idr, reference), ..empty }
    }
}

/// The state of a picture with the given header. MMCO 5 makes it behave like the
/// start of a new sequence, with order count and frame number zero.
pub open spec fn picture_of(
    dpb: DpbView,
    header: SliceHeaderView,
    sps: SpsView,
    idr: bool,
    reference: bool,
    intra: bool,
) -> PictureView {
    let reset = resets(header, reference);
    PictureView {
        poc: if reset { 0 } else { poc_of(dpb.poc, header, sps, idr, reference) as i32 },
        frame_num: if reset { 0 } else { header.frame_num as u16 },
        is_idr: idr,
        is_reference: reference,
        is_intra: intra,
        idr_pic_id: header.idr_pic_id,
        marking: header.marking,
    }
}

/// `FrameNumWrap` of a reference, relative to the current frame number.
pub open spec fn frame_num_wrap(frame_num: u16, current: u16, max_frame_num: nat) -> int {
    if frame_num > current {
        frame_num - max_frame_num
    } else {
        frame_num as int
    }
}

/// The references with `FrameNumWrap` brought up to date.
pub open spec fn refreshed(refs: Seq<RefPicture>, current: u16, max_frame_num: nat) -> Seq<
    RefPicture,
> {
    Seq::new(
        refs.len(),
        |i: int|
            RefPicture {
                frame_num_wrap: frame_num_wrap(refs[i].frame_num, current, max_frame_num) as i32,
                ..refs[i]
            },
    )
}

/// The index of the short-term reference with the smallest `FrameNumWrap`, the
/// first of them where several have it.
pub open spec fn oldest(refs: Seq<RefPicture>) -> Option<int>
    decreases refs.len(),
{
    if refs.len() == 0 {
        None
    } else {
        let earlier = oldest(refs.drop_last());
        let last = refs.last();
        if last.long_term {
            earlier
        } else {
            match earlier {
                Some(i) if refs[i].frame_num_wrap <= last.frame_num_wrap => Some(i),
                _ => Some(refs.len() - 1),
            }
        }
    }
}

/// Sliding-window marking (clause 8.2.5.3): the oldest short-term references go
/// until there is room for one more among `max_refs`, or none is left.
pub open spec fn slid(dpb: DpbView, max_refs: nat) -> DpbView
    decreases dpb.refs.len(),
{
    match oldest(dpb.refs) {
        Some(i) if dpb.refs.len() >= max_refs && 0 <= i < dpb.refs.len() => slid(
            DpbView { refs: dpb.refs.remove(i), ..dpb.freed(dpb.refs[i].slot) },
            max_refs,
        ),
        _ => dpb,
    }
}

/// A set of references that a marking operation drops.
#[derive(Clone, Copy, Debug, PartialEq, Eq, Structural)]
pub enum Selection {
    /// The short-term references with this `PicNum`.
    Short { pic_num: i32 },
    /// The long-term references with this index.
    Long { idx: u32 },
    /// The long-term references with an index above the bound, or all of them
    /// where there is none.
    LongAbove { max: Option<u32> },
    /// Every reference.
    All,
}

impl Selection {
    /// Whether a reference belongs to the set.
    pub open spec fn selects(self, r: RefPicture) -> bool {
        match self {
            Selection::Short { pic_num } => !r.long_term && r.frame_num_wrap == pic_num,
            Selection::Long { idx } => r.long_term && r.long_term_frame_idx == idx,
            Selection::LongAbove { max } => r.long_term && match max {
                Some(bound) => r.long_term_frame_idx > bound,
                None => true,
            },
            Selection::All => true,
        }
    }
}

/// Whether a dropped reference occupied `slot`.
pub open spec fn drops_slot(refs: Seq<RefPicture>, selection: Selection, slot: int) -> bool {
    exists|i: int| 0 <= i < refs.len() && #[trigger] refs[i].slot == slot && selection.selects(refs[i])
}

/// The references that are not selected.
pub open spec fn unselected(refs: Seq<RefPicture>, selection: Selection) -> Seq<RefPicture> {
    refs.filter(|r: RefPicture| !selection.selects(r))
}

/// The DPB without the selected references, their slots freed.
pub open spec fn without(dpb: DpbView, selection: Selection) -> DpbView {
    DpbView {
        refs: unselected(dpb.refs, selection),
        used: Seq::new(
            dpb.used.len(),
            |slot: int| dpb.used[slot] && !drops_slot(dpb.refs, selection, slot),
        ),
        ..dpb
    }
}

/// The references with the first short-term one whose `PicNum` is `pic_num`
/// turned into a long-term one.
pub open spec fn converted(refs: Seq<RefPicture>, pic_num: int, idx: u32) -> Seq<RefPicture>
    decreases refs.len(),
{
    if refs.len() == 0 {
        refs
    } else if !refs[0].long_term && refs[0].frame_num_wrap == pic_num {
        refs.update(0, RefPicture { long_term: true, long_term_frame_idx: idx, ..refs[0] })
    } else {
        seq![refs[0]] + converted(refs.skip(1), pic_num, idx)
    }
}

/// `PicNumX`: the picture number that an operation speaks of.
pub open spec fn pic_num_x(current: u16, difference_minus1: u32) -> int {
    current - ((difference_minus1 as i32) + 1)
}

/// The DPB after one memory management control operation (clause 8.2.5.4).
pub open spec fn marked_by(dpb: DpbView, op: Mmco, current: u16) -> DpbView {
    match op {
        Mmco::ForgetShort { difference_of_pic_nums_minus1 } => without(
            dpb,
            Selection::Short {
                pic_num: pic_num_x(current, difference_of_pic_nums_minus1) as i32,
            },
        ),
        Mmco::ForgetLong { long_term_pic_num } => without(
            dpb,
            Selection::Long { idx: long_term_pic_num },
        ),
        Mmco::ShortToLong { difference_of_pic_nums_minus1, long_term_frame_idx } => {
            // A long-term index is unique: whatever holds it is displaced.
            let displaced = without(dpb, Selection::Long { idx: long_term_frame_idx });
            DpbView {
                refs: converted(
                    displaced.refs,
                    pic_num_x(current, difference_of_pic_nums_minus1),
                    long_term_frame_idx,
                ),
                ..displaced
            }
        },
        Mmco::MaxLongTermIdx { max_long_term_frame_idx_plus1 } => {
            // 0 means "no long-term frame indices", so every long-term
            // reference goes; otherwise those above the bound go.
            let max: Option<u32> = if max_long_term_frame_idx_plus1 == 0 {
                None
            } else {
                Some((max_long_term_frame_idx_plus1 - 1) as u32)
            };
            without(
                DpbView { max_long_term_frame_idx: max, ..dpb },
                Selection::LongAbove { max },
            )
        },
        Mmco::ForgetAll => without(
            DpbView { max_long_term_frame_idx: None, ..dpb },
            Selection::All,
        ),
        Mmco::CurrentToLong { long_term_frame_idx } => without(
            dpb,
            Selection::Long { idx: long_term_frame_idx },
        ),
    }
}

/// The long-term index that the current picture has after an operation, `idx`
/// being the one it had before.
pub open spec fn current_idx(op: Mmco, idx: Option<u32>) -> Option<u32> {
    match op {
        Mmco::CurrentToLong { long_term_frame_idx } => Some(long_term_frame_idx),
        _ => idx,
    }
}

/// The DPB after a list of operations, with the long-term index that the current
/// picture gets, where it gets one.
pub open spec fn marked(dpb: DpbView, ops: Seq<Mmco>, current: u16, idx: Option<u32>) -> (
    DpbView,
    Option<u32>,
)
    decreases ops.len(),
{
    if ops.len() == 0 {
        (dpb, idx)
    } else {
        marked(marked_by(dpb, ops[0], current), ops.skip(1), current, current_idx(ops[0], idx))
    }
}

/// The DPB with the current picture added to the references, as a long-term one
/// where it has an index.
pub open spec fn with_current(
    dpb: DpbView,
    slot: u8,
    state: PictureView,
    idx: Option<u32>,
) -> DpbView {
    DpbView {
        refs: dpb.refs.push(
            RefPicture {
                slot,
                frame_num: state.frame_num,
                frame_num_wrap: state.frame_num as i32,
                poc: (state.poc, state.poc),
                long_term: idx is Some,
                long_term_frame_idx: match idx {
                    Some(idx) => idx,
                    None => 0,
                },
            },
        ),
        ..dpb
    }
}

/// The number of references that the sliding window makes room among.
pub open spec fn window(sps: SpsView) -> nat {
    vstd::math::max(sps.frame.max_num_ref_frames as int, 1) as nat
}

/// The DPB after a picture was decoded into `slot` (clause 8.2.5).
pub open spec fn ended(dpb: DpbView, slot: u8, state: PictureView, sps: SpsView) -> DpbView {
    if !state.is_reference {
        dpb.freed(slot)
    } else {
        let numbered = DpbView {
            refs: refreshed(dpb.refs, state.frame_num, sps.max_frame_num()),
            ..dpb
        };
        if state.is_idr {
            let idx: Option<u32> = if state.marking.long_term_reference_flag {
                Some(0)
            } else {
                None
            };
            with_current(
                DpbView { refs: Seq::empty(), max_long_term_frame_idx: idx, ..numbered },
                slot,
                state,
                idx,
            )
        } else if state.marking.adaptive {
            let (done, idx) = marked(numbered, state.marking.ops, state.frame_num, None);
            with_current(done, slot, state, idx)
        } else {
            with_current(slid(numbered, window(sps)), slot, state, None)
        }
    }
}

/// Whether `FrameNumWrap` of every reference can be computed in `i32` arithmetic.
/// The largest `MaxFrameNum` does not fit itself, but it is subtracted only where a
/// reference has a larger frame number than the current picture.
pub open spec fn numbers_fit(refs: Seq<RefPicture>, current: u16, sps: SpsView) -> bool {
    sps.log2_max_frame_num_minus4 < 27 || forall|i: int|
        0 <= i < refs.len() ==> (#[trigger] refs[i]).frame_num <= current
}

/// Whether the picture number that an operation speaks of can be computed in
/// `i32` arithmetic.
pub open spec fn op_fits(op: Mmco, current: u16) -> bool {
    match op {
        Mmco::ForgetShort { difference_of_pic_nums_minus1: difference } => difference as i32
            != i32::MAX && is_i32(pic_num_x(current, difference)),
        Mmco::ShortToLong {
            difference_of_pic_nums_minus1: difference,
            long_term_frame_idx,
        } => difference as i32 != i32::MAX && is_i32(pic_num_x(current, difference)),
        _ => true,
    }
}

/// Whether the marking that a picture asks for can be carried out: the numbers of
/// the references and those that its operations speak of fit in an `i32`.
pub open spec fn marking_fits(refs: Seq<RefPicture>, state: PictureView, sps: SpsView) -> bool {
    state.is_reference ==> {
        &&& sps.log2_max_frame_num_minus4 < 28
        &&& numbers_fit(refs, state.frame_num, sps)
        &&& !state.is_idr && state.marking.adaptive ==> forall|i: int|
            0 <= i < state.marking.ops.len() ==> op_fits(
                #[trigger] state.marking.ops[i],
                state.frame_num,
            )
    }
}

impl View for DecodeDpb {
    type V = DpbView;

    closed spec fn view(&self) -> DpbView {
        DpbView {
            refs: self.refs@,
            used: self.slot_used@,
            slot_count: self.slot_count as nat,
            max_long_term_frame_idx: self.max_long_term_frame_idx,
            poc: self.poc,
        }
    }
}

impl DecodeDpb {
    /// An empty DPB with `slot_count` slots, or with [`MAX_DPB_SLOTS`] if that is
    /// fewer.
    pub fn new(slot_count: usize) -> (dpb: Self)
        ensures
            dpb@ == fresh(vstd::math::min(slot_count as int, MAX_DPB_SLOTS as int) as nat),
            dpb@.wf(),
    {
        let dpb = Self {
            refs: Vec::new(),
            slot_used: [false; 17],
            slot_count: if slot_count < MAX_DPB_SLOTS { slot_count } else { MAX_DPB_SLOTS },
            max_long_term_frame_idx: None,
            poc: PocState {
                prev_poc_msb: 0,
                prev_poc_lsb: 0,
                prev_frame_num_offset: 0,
                prev_frame_num: 0,
            },
        };
        assert(dpb.slot_used@ =~= all_free());
        dpb
    }

    /// Current reference pictures, in the order they were decoded.
    pub fn references(&self) -> (refs: &[RefPicture])
        ensures
            refs@ == self@.refs,
    {
        self.refs.as_slice()
    }

    /// Whether the order count of a picture with this header stays within the
    /// range of an `i32`, which [`Self::begin_picture`] needs.
    pub fn picture_fits(
        &self,
        nal_type: NalType,
        ref_idc: u8,
        header: &SliceHeader,
        sps: &Sps,
    ) -> (fits: bool)
        ensures
            fits == poc_fits(
                self@.poc,
                header@,
                sps@,
                nal_type == NalType::IdrSlice,
                ref_idc != 0,
            ),
    {
        if sps.pic_order_cnt_type > 2 {
            return true;
        }
        self.poc.advance(header, sps, nal_type == NalType::IdrSlice, ref_idc != 0).is_some()
    }

    /// Compute the POC and reference state for the picture about to be decoded.
    ///
    /// Implements the frame-picture subset of clause 8.2.1. Must be called
    /// exactly once per picture, before [`Self::try_allocate_slot`].
    pub fn begin_picture(
        &mut self,
        nal_type: NalType,
        ref_idc: u8,
        header: &SliceHeader,
        sps: &Sps,
        is_intra: bool,
    ) -> (result: Result<PictureState, PixelForgeError>)
        requires
            old(self)@.wf(),
            header.field_pic_flag || poc_fits(
                old(self)@.poc,
                header@,
                sps@,
                nal_type == NalType::IdrSlice,
                ref_idc != 0,
            ),
        ensures
            final(self)@.wf(),
            ({
                let idr = nal_type == NalType::IdrSlice;
                let kind = sps@.poc.pic_order_cnt_type;
                if header.field_pic_flag {
                    &&& result matches Err(error) && error == PixelForgeError::InvalidInput(
                        InvalidInput::FieldPicture,
                    )
                    &&& final(self)@ == old(self)@
                } else if kind > 2 {
                    &&& result matches Err(error) && error == PixelForgeError::InvalidInput(
                        InvalidInput::UnsupportedPicOrderCntType(kind),
                    )
                    &&& final(self)@ == if idr { old(self)@.flushed() } else { old(self)@ }
                } else {
                    &&& result matches Ok(state) && state@ == picture_of(
                        old(self)@,
                        header@,
                        sps@,
                        idr,
                        ref_idc != 0,
                        is_intra,
                    )
                    &&& final(self)@ == begun(old(self)@, header@, sps@, idr, ref_idc != 0)
                }
            }),
    {
        if header.field_pic_flag {
            return Err(PixelForgeError::InvalidInput(InvalidInput::FieldPicture));
        }
        let is_idr = nal_type == NalType::IdrSlice;
        let is_reference = ref_idc != 0;
        let before: PocState = self.poc;
        let reset: PocState = PocState {
            prev_poc_msb: 0,
            prev_poc_lsb: 0,
            prev_frame_num_offset: 0,
            prev_frame_num: 0,
        };
        if is_idr {
            // An IDR empties the DPB and resets all POC state.
            self.refs.clear();
            self.slot_used = [false; 17];
            self.poc = reset;
            assert(self.slot_used@ =~= all_free());
        }
        if sps.pic_order_cnt_type > 2 {
            return Err(
                PixelForgeError::InvalidInput(
                    InvalidInput::UnsupportedPicOrderCntType(sps.pic_order_cnt_type),
                ),
            );
        }
        let (mut poc, next): (i32, PocState) = match before.advance(
            header,
            sps,
            is_idr,
            is_reference,
        ) {
            Some(advanced) => advanced,
            None => (0, before),
        };
        self.poc = next;

        // MMCO 5 makes the current picture behave like the start of a new
        // sequence: it is inferred to have frame_num 0, its POC is rebased so
        // that PicOrderCnt(CurrPic) becomes 0, and the POC predictors reset
        // (clauses 8.2.1 and 8.2.5.4).
        let mut frame_num: u16 = header.frame_num as u16;
        if is_reference && has_reset(&header.marking.ops) {
            poc = 0;
            frame_num = 0;
            self.poc = reset;
        }
        Ok(
            PictureState {
                poc,
                frame_num,
                is_idr,
                is_reference,
                is_intra,
                idr_pic_id: header.idr_pic_id,
                marking: header.marking.clone(),
            },
        )
    }

    /// Reserve a DPB slot for the current picture, if one is available.
    ///
    /// The current picture always needs a slot, even when it is not a
    /// reference, because Vulkan decodes into a DPB resource. Slots pinned by
    /// a handed-out frame are skipped: the caller is still reading them.
    /// `None` means every slot is either a live reference or pinned.
    pub fn try_allocate_slot(&mut self, pins: &SlotPins) -> (slot: Option<u8>)
        requires
            old(self)@.wf(),
        ensures
            final(self)@.wf(),
            match slot {
                Some(slot) => {
                    &&& slot < old(self)@.slot_count
                    &&& !old(self)@.used[slot as int]
                    &&& !pins@.contains(slot)
                    &&& forall|s: u8|
                        s < slot ==> old(self)@.used[s as int] || #[trigger] pins@.contains(s)
                    &&& final(self)@ == (DpbView {
                        used: old(self)@.used.update(slot as int, true),
                        ..old(self)@
                    })
                },
                None => {
                    &&& forall|s: u8|
                        s < old(self)@.slot_count ==> old(self)@.used[s as int]
                            || #[trigger] pins@.contains(s)
                    &&& final(self)@ == old(self)@
                },
            },
    {
        let mut slot: usize = 0;
        while slot < self.slot_count
            invariant
                self@ == old(self)@,
                self@.wf(),
                slot <= self.slot_count,
                forall|s: u8|
                    s < slot ==> old(self)@.used[s as int] || #[trigger] pins@.contains(s),
            decreases self.slot_count - slot,
        {
            if !self.slot_used[slot] && !pins.is_pinned(slot as u8) {
                self.slot_used[slot] = true;
                return Some(slot as u8);
            }
            slot = slot + 1;
        }
        None
    }

    /// Whether any slot is held by a frame the caller has not dropped, which
    /// means waiting could free one.
    pub fn has_pinned_slots(&self, pins: &SlotPins) -> (pinned: bool)
        ensures
            pinned == (pins@ != Set::<u8>::empty()),
    {
        pins.any_pinned()
    }

    /// Release a slot that was allocated for a non-reference picture.
    pub fn release_slot(&mut self, slot: u8)
        requires
            old(self)@.wf(),
            slot < MAX_DPB_SLOTS,
        ensures
            final(self)@.wf(),
            final(self)@ == old(self)@.freed(slot),
    {
        self.slot_used[slot as usize] = false;
    }
}

impl Selection {
    /// Whether a reference belongs to the set.
    fn holds(&self, r: &RefPicture) -> (selected: bool)
        ensures
            selected == self.selects(*r),
    {
        match *self {
            Selection::Short { pic_num } => !r.long_term && r.frame_num_wrap == pic_num,
            Selection::Long { idx } => r.long_term && r.long_term_frame_idx == idx,
            Selection::LongAbove { max } => r.long_term && match max {
                Some(bound) => r.long_term_frame_idx > bound,
                None => true,
            },
            Selection::All => true,
        }
    }
}

impl DecodeDpb {
    /// Recompute `FrameNumWrap` (== `PicNum` for frames) for every retained
    /// reference, relative to the current picture (clause 8.2.4.1).
    fn refresh_pic_nums(&mut self, current: u16, sps: &Sps)
        requires
            old(self)@.wf(),
            sps.log2_max_frame_num_minus4 < 28,
            numbers_fit(old(self)@.refs, current, sps@),
        ensures
            final(self)@.wf(),
            final(self)@ == (DpbView {
                refs: refreshed(old(self)@.refs, current, sps@.max_frame_num()),
                ..old(self)@
            }),
    {
        proof {
            vstd::arithmetic::power2::lemma2_to64();
            if sps.log2_max_frame_num_minus4 < 27 {
                vstd::arithmetic::power2::lemma_pow2_strictly_increases(
                    (sps.log2_max_frame_num_minus4 + 4) as nat,
                    31,
                );
            }
        }
        let max_frame_num: u32 = sps.max_frame_num();
        let ghost all = self.refs@;
        let ghost wanted = refreshed(all, current, sps@.max_frame_num());
        let mut i: usize = 0;
        while i < self.refs.len()
            invariant
                i <= self.refs@.len(),
                self.refs@.len() == all.len(),
                all == old(self)@.refs,
                wanted == refreshed(all, current, max_frame_num as nat),
                max_frame_num as nat == sps@.max_frame_num(),
                max_frame_num <= i32::MAX || forall|k: int|
                    0 <= k < all.len() ==> (#[trigger] all[k]).frame_num <= current,
                self.slot_used == old(self).slot_used,
                self.slot_count == old(self).slot_count,
                self.max_long_term_frame_idx == old(self).max_long_term_frame_idx,
                self.poc == old(self).poc,
                forall|k: int| 0 <= k < i ==> self.refs@[k] == wanted[k],
                forall|k: int| i <= k < all.len() ==> self.refs@[k] == all[k],
            decreases self.refs@.len() - i,
        {
            let mut r: RefPicture = self.refs[i];
            assert(r == all[i as int]);
            r.frame_num_wrap = if r.frame_num > current {
                r.frame_num as i32 - max_frame_num as i32
            } else {
                r.frame_num as i32
            };
            self.refs.set(i, r);
            i = i + 1;
        }
        assert(self.refs@ =~= wanted);
        assert forall|k: int| 0 <= k < self@.refs.len() implies #[trigger] self@.refs[k].slot
            < MAX_DPB_SLOTS by {
            assert(all[k].slot < MAX_DPB_SLOTS);
        }
    }

    /// The short-term reference with the smallest `FrameNumWrap`.
    fn oldest_short_term(&self) -> (victim: Option<usize>)
        ensures
            match victim {
                Some(i) => oldest(self@.refs) == Some(i as int) && i < self@.refs.len(),
                None => oldest(self@.refs) is None,
            },
    {
        let mut victim: Option<usize> = None;
        let mut i: usize = 0;
        while i < self.refs.len()
            invariant
                i <= self.refs@.len(),
                victim matches Some(v) ==> v < i,
                oldest(self.refs@.take(i as int)) == match victim {
                    Some(v) => Some(v as int),
                    None => None,
                },
            decreases self.refs@.len() - i,
        {
            assert(self.refs@.take(i + 1).drop_last() =~= self.refs@.take(i as int));
            let r: RefPicture = self.refs[i];
            if !r.long_term {
                victim = match victim {
                    Some(v) if self.refs[v].frame_num_wrap <= r.frame_num_wrap => Some(v),
                    _ => Some(i),
                };
            }
            i = i + 1;
        }
        assert(self.refs@.take(i as int) =~= self.refs@);
        victim
    }

    /// Sliding-window marking (clause 8.2.5.3): evict the short-term reference
    /// with the smallest `FrameNumWrap` until there is room for the current
    /// picture.
    fn sliding_window(&mut self, sps: &Sps)
        requires
            old(self)@.wf(),
        ensures
            final(self)@.wf(),
            final(self)@ == slid(old(self)@, window(sps@)),
    {
        let max_refs: usize = if sps.max_num_ref_frames < 1 {
            1
        } else {
            sps.max_num_ref_frames as usize
        };
        loop
            invariant
                self@.wf(),
                max_refs == window(sps@),
                slid(self@, max_refs as nat) == slid(old(self)@, max_refs as nat),
            ensures
                self@.wf(),
                self@ == slid(old(self)@, window(sps@)),
            decreases self@.refs.len(),
        {
            if self.refs.len() < max_refs {
                break;
            }
            match self.oldest_short_term() {
                Some(i) => {
                    let ghost before = self@;
                    let removed: RefPicture = self.refs[i];
                    assert(before.refs[i as int].slot < MAX_DPB_SLOTS);
                    self.refs.remove(i);
                    self.slot_used[removed.slot as usize] = false;
                    assert forall|k: int| 0 <= k < self@.refs.len() implies #[trigger] self@.refs[k].slot
                        < MAX_DPB_SLOTS by {
                        assert(self@.refs[k] == before.refs[if k < i { k } else { k + 1 }]);
                    }
                },
                // Only long-term refs remain; nothing to slide out.
                None => {
                    break;
                },
            }
        }
    }

    /// Drop every selected reference, freeing its slot.
    fn remove_refs(&mut self, selection: Selection)
        requires
            old(self)@.wf(),
        ensures
            final(self)@.wf(),
            final(self)@ == without(old(self)@, selection),
    {
        let ghost all = self.refs@;
        let mut kept: Vec<RefPicture> = Vec::new();
        let mut i: usize = 0;
        reveal(Seq::filter);
        assert(unselected(all.take(0), selection) =~= Seq::empty());
        while i < self.refs.len()
            invariant
                i <= all.len(),
                self.refs@ == all,
                all == old(self)@.refs,
                old(self)@.wf(),
                self.slot_count == old(self).slot_count,
                self.max_long_term_frame_idx == old(self).max_long_term_frame_idx,
                self.poc == old(self).poc,
                kept@ == unselected(all.take(i as int), selection),
                forall|k: int| 0 <= k < kept@.len() ==> #[trigger] kept@[k].slot < MAX_DPB_SLOTS,
                forall|slot: int|
                    0 <= slot < MAX_DPB_SLOTS ==> #[trigger] self.slot_used@[slot] == (old(
                        self,
                    ).slot_used@[slot] && !drops_slot(all.take(i as int), selection, slot)),
            decreases all.len() - i,
        {
            let r: RefPicture = self.refs[i];
            let ghost seen = all.take(i as int);
            let ghost next = all.take(i + 1);
            assert(next.drop_last() =~= seen);
            assert(next.last() == r);
            assert(old(self)@.refs[i as int].slot < MAX_DPB_SLOTS);
            reveal(Seq::filter);
            proof {
                assert forall|slot: int| drops_slot(next, selection, slot) == (drops_slot(
                    seen,
                    selection,
                    slot,
                ) || (r.slot == slot && selection.selects(r))) by {
                    if drops_slot(next, selection, slot) {
                        let k = choose|k: int|
                            0 <= k < next.len() && #[trigger] next[k].slot == slot
                                && selection.selects(next[k]);
                        if k < i {
                            assert(seen[k] == next[k]);
                        }
                    }
                    if drops_slot(seen, selection, slot) {
                        let k = choose|k: int|
                            0 <= k < seen.len() && #[trigger] seen[k].slot == slot
                                && selection.selects(seen[k]);
                        assert(next[k] == seen[k]);
                    }
                    if r.slot == slot && selection.selects(r) {
                        assert(next[i as int].slot == slot);
                    }
                }
            }
            if selection.holds(&r) {
                self.slot_used[r.slot as usize] = false;
            } else {
                kept.push(r);
            }
            i = i + 1;
        }
        assert(all.take(i as int) =~= all);
        self.refs = kept;
        assert(self@.used =~= without(old(self)@, selection).used);
    }

    /// Turn the first short-term reference with the given `PicNum` into a
    /// long-term one.
    fn convert_ref(&mut self, pic_num: i32, idx: u32)
        requires
            old(self)@.wf(),
        ensures
            final(self)@.wf(),
            final(self)@ == (DpbView {
                refs: converted(old(self)@.refs, pic_num as int, idx),
                ..old(self)@
            }),
    {
        let ghost all = self.refs@;
        let mut i: usize = 0;
        assert(all.skip(0) =~= all);
        assert(all.take(0) + converted(all, pic_num as int, idx) =~= converted(
            all,
            pic_num as int,
            idx,
        ));
        while i < self.refs.len()
            invariant
                i <= all.len(),
                all == self.refs@,
                self@ == old(self)@,
                self@.wf(),
                converted(all, pic_num as int, idx) == all.take(i as int) + converted(
                    all.skip(i as int),
                    pic_num as int,
                    idx,
                ),
            decreases all.len() - i,
        {
            let mut r: RefPicture = self.refs[i];
            let ghost rest = all.skip(i as int);
            assert(rest[0] == r);
            assert(rest.skip(1) =~= all.skip(i + 1));
            if !r.long_term && r.frame_num_wrap == pic_num {
                r.long_term = true;
                r.long_term_frame_idx = idx;
                assert(self@.refs[i as int].slot < MAX_DPB_SLOTS);
                self.refs.set(i, r);
                assert(self.refs@ =~= all.take(i as int) + rest.update(0, r));
                return ;
            }
            assert(all.take(i + 1) + converted(rest.skip(1), pic_num as int, idx) =~= all.take(
                i as int,
            ) + (seq![rest[0]] + converted(rest.skip(1), pic_num as int, idx)));
            i = i + 1;
        }
        assert(all.take(i as int) + converted(all.skip(i as int), pic_num as int, idx) =~= all);
    }

    /// Apply one memory management control operation.
    fn apply_op(&mut self, op: Mmco, current: u16)
        requires
            old(self)@.wf(),
            op_fits(op, current),
        ensures
            final(self)@.wf(),
            final(self)@ == marked_by(old(self)@, op, current),
    {
        match op {
            Mmco::ForgetShort { difference_of_pic_nums_minus1 } => {
                let pic_num: i32 = current as i32 - (difference_of_pic_nums_minus1 as i32 + 1);
                self.remove_refs(Selection::Short { pic_num });
            },
            Mmco::ForgetLong { long_term_pic_num } => {
                self.remove_refs(Selection::Long { idx: long_term_pic_num });
            },
            Mmco::ShortToLong { difference_of_pic_nums_minus1, long_term_frame_idx } => {
                let pic_num: i32 = current as i32 - (difference_of_pic_nums_minus1 as i32 + 1);
                // A long-term index is unique: whatever holds it is displaced.
                self.remove_refs(Selection::Long { idx: long_term_frame_idx });
                self.convert_ref(pic_num, long_term_frame_idx);
            },
            Mmco::MaxLongTermIdx { max_long_term_frame_idx_plus1 } => {
                // 0 means "no long-term frame indices", so every long-term
                // reference goes; otherwise those above the bound go.
                let max: Option<u32> = if max_long_term_frame_idx_plus1 == 0 {
                    None
                } else {
                    Some(max_long_term_frame_idx_plus1 - 1)
                };
                self.max_long_term_frame_idx = max;
                self.remove_refs(Selection::LongAbove { max });
            },
            Mmco::ForgetAll => {
                self.max_long_term_frame_idx = None;
                self.remove_refs(Selection::All);
            },
            Mmco::CurrentToLong { long_term_frame_idx } => {
                self.remove_refs(Selection::Long { idx: long_term_frame_idx });
            },
        }
    }

    /// Explicit marking (clause 8.2.5.4). Encoders that use B-pyramid rely on
    /// this to retire a B-reference at a point the sliding window would not.
    /// Returns the long-term index that the current picture gets, if any.
    fn apply_mmco(&mut self, ops: &Vec<Mmco>, current: u16) -> (idx: Option<u32>)
        requires
            old(self)@.wf(),
            forall|i: int| 0 <= i < ops@.len() ==> op_fits(#[trigger] ops@[i], current),
        ensures
            final(self)@.wf(),
            (final(self)@, idx) == marked(old(self)@, ops@, current, None),
    {
        let mut idx: Option<u32> = None;
        let mut i: usize = 0;
        assert(ops@.skip(0) =~= ops@);
        while i < ops.len()
            invariant
                i <= ops@.len(),
                self@.wf(),
                forall|k: int| 0 <= k < ops@.len() ==> op_fits(#[trigger] ops@[k], current),
                marked(self@, ops@.skip(i as int), current, idx) == marked(
                    old(self)@,
                    ops@,
                    current,
                    None,
                ),
            decreases ops@.len() - i,
        {
            let op: Mmco = ops[i];
            assert(ops@.skip(i as int)[0] == op);
            assert(ops@.skip(i as int).skip(1) =~= ops@.skip(i + 1));
            self.apply_op(op, current);
            if let Mmco::CurrentToLong { long_term_frame_idx } = op {
                idx = Some(long_term_frame_idx);
            }
            i = i + 1;
        }
        idx
    }

    /// Insert the just-decoded picture into the reference set.
    fn push_current(&mut self, slot: u8, state: &PictureState, idx: Option<u32>)
        requires
            old(self)@.wf(),
            slot < MAX_DPB_SLOTS,
        ensures
            final(self)@.wf(),
            final(self)@ == with_current(old(self)@, slot, state@, idx),
    {
        self.refs.push(
            RefPicture {
                slot,
                frame_num: state.frame_num,
                frame_num_wrap: state.frame_num as i32,
                poc: (state.poc, state.poc),
                long_term: idx.is_some(),
                long_term_frame_idx: match idx {
                    Some(idx) => idx,
                    None => 0,
                },
            },
        );
    }

    /// Whether the number of every reference fits in an `i32`.
    fn numbers_fit(&self, current: u16, sps: &Sps) -> (fit: bool)
        ensures
            fit == numbers_fit(self@.refs, current, sps@),
    {
        if sps.log2_max_frame_num_minus4 < 27 {
            return true;
        }
        let mut i: usize = 0;
        while i < self.refs.len()
            invariant
                i <= self.refs@.len(),
                sps.log2_max_frame_num_minus4 >= 27,
                forall|k: int| 0 <= k < i ==> (#[trigger] self.refs@[k]).frame_num <= current,
            decreases self.refs@.len() - i,
        {
            if self.refs[i].frame_num > current {
                return false;
            }
            i = i + 1;
        }
        true
    }

    /// Whether the marking that a picture asks for can be carried out in `i32`
    /// arithmetic, which [`Self::end_picture`] needs.
    pub fn marking_fits(&self, state: &PictureState, sps: &Sps) -> (fits: bool)
        ensures
            fits == marking_fits(self@.refs, state@, sps@),
    {
        if !state.is_reference {
            return true;
        }
        if sps.log2_max_frame_num_minus4 >= 28 || !self.numbers_fit(state.frame_num, sps) {
            return false;
        }
        if state.is_idr || !state.marking.adaptive {
            return true;
        }
        let ops: &Vec<Mmco> = &state.marking.ops;
        let mut i: usize = 0;
        while i < ops.len()
            invariant
                i <= ops@.len(),
                ops@ == state@.marking.ops,
                state.is_reference && !state.is_idr && state.marking.adaptive,
                sps.log2_max_frame_num_minus4 < 28,
                numbers_fit(self@.refs, state.frame_num, sps@),
                forall|k: int|
                    0 <= k < i ==> op_fits(#[trigger] ops@[k], state.frame_num),
            decreases ops@.len() - i,
        {
            let difference: Option<u32> = match ops[i] {
                Mmco::ForgetShort { difference_of_pic_nums_minus1 } => Some(
                    difference_of_pic_nums_minus1,
                ),
                Mmco::ShortToLong { difference_of_pic_nums_minus1, .. } => Some(
                    difference_of_pic_nums_minus1,
                ),
                _ => None,
            };
            if let Some(difference) = difference {
                let number: i64 = state.frame_num as i64 - (difference as i32 as i64 + 1);
                if difference as i32 == i32::MAX || number > i32::MAX as i64 || number
                    < i32::MIN as i64 {
                    assert(!op_fits(state@.marking.ops[i as int], state.frame_num));
                    return false;
                }
            }
            i = i + 1;
        }
        true
    }

    /// Retire references and insert the just-decoded picture (clause 8.2.5).
    ///
    /// Dispatches to the explicit marking process when the slice header carries
    /// MMCO commands, and to the sliding window otherwise. If
    /// `state.is_reference` is false the picture's slot is released and the
    /// reference set is untouched.
    pub fn end_picture(&mut self, slot: u8, state: &PictureState, sps: &Sps)
        requires
            old(self)@.wf(),
            slot < MAX_DPB_SLOTS,
            marking_fits(old(self)@.refs, state@, sps@),
        ensures
            final(self)@.wf(),
            final(self)@ == ended(old(self)@, slot, state@, sps@),
    {
        if !state.is_reference {
            self.release_slot(slot);
            return ;
        }
        // PicNum is derived relative to the current picture and MMCO operands
        // are expressed in it, so this must happen before any marking.
        self.refresh_pic_nums(state.frame_num, sps);
        if state.is_idr {
            // begin_picture already emptied the DPB.
            self.refs.clear();
            let idx: Option<u32> = if state.marking.long_term_reference_flag {
                Some(0)
            } else {
                None
            };
            self.max_long_term_frame_idx = idx;
            self.push_current(slot, state, idx);
        } else if state.marking.adaptive {
            let idx: Option<u32> = self.apply_mmco(&state.marking.ops, state.frame_num);
            self.push_current(slot, state, idx);
        } else {
            self.sliding_window(sps);
            self.push_current(slot, state, None);
        }
    }
}

/// Whether a list of operations has the memory management reset, MMCO 5.
fn has_reset(ops: &Vec<Mmco>) -> (reset: bool)
    ensures
        reset == ops@.contains(Mmco::ForgetAll),
{
    let mut i: usize = 0;
    while i < ops.len()
        invariant
            i <= ops@.len(),
            forall|k: int| 0 <= k < i ==> ops@[k] != Mmco::ForgetAll,
        decreases ops@.len() - i,
    {
        if ops[i] == Mmco::ForgetAll {
            return true;
        }
        i = i + 1;
    }
    false
}

/// Whether a reference occupies `slot`.
pub open spec fn holds_slot(refs: Seq<RefPicture>, slot: int) -> bool {
    exists|i: int| 0 <= i < refs.len() && #[trigger] refs[i].slot == slot
}

/// Whether no two references share a slot.
pub open spec fn distinct_slots(refs: Seq<RefPicture>) -> bool {
    forall|i: int, j: int|
        0 <= i < j < refs.len() ==> #[trigger] refs[i].slot != #[trigger] refs[j].slot
}

/// Whether the occupied slots are exactly those of the references and of the
/// current picture, no two of which share one, and all of which are among the slots
/// of the session.
pub open spec fn tidy(dpb: DpbView, current: Option<u8>) -> bool {
    &&& dpb.wf()
    &&& distinct_slots(dpb.refs)
    &&& forall|i: int| 0 <= i < dpb.refs.len() ==> #[trigger] dpb.refs[i].slot < dpb.slot_count
    &&& current matches Some(slot) ==> slot < dpb.slot_count && !holds_slot(dpb.refs, slot as int)
    &&& forall|slot: int|
        0 <= slot < MAX_DPB_SLOTS ==> (#[trigger] dpb.used[slot] <==> holds_slot(dpb.refs, slot) || (
        current matches Some(own) && own == slot))
}

/// An empty DPB is tidy, and so is one that an IDR picture has flushed.
pub proof fn law_flush_is_tidy(dpb: DpbView)
    requires
        dpb.slot_count <= MAX_DPB_SLOTS,
    ensures
        tidy(dpb.flushed(), None),
{
}

/// Taking a free slot for the current picture keeps a DPB tidy.
pub proof fn law_allocation_is_tidy(dpb: DpbView, slot: u8)
    requires
        tidy(dpb, None),
        slot < dpb.slot_count,
        !dpb.used[slot as int],
    ensures
        tidy(DpbView { used: dpb.used.update(slot as int, true), ..dpb }, Some(slot)),
{
}

proof fn lemma_filter(refs: Seq<RefPicture>, selection: Selection)
    ensures
        ({
            let kept = unselected(refs, selection);
            &&& forall|k: int|
                0 <= k < kept.len() ==> exists|i: int|
                    0 <= i < refs.len() && #[trigger] kept[k] == #[trigger] refs[i]
                        && !selection.selects(refs[i])
            &&& forall|i: int|
                0 <= i < refs.len() && !selection.selects(#[trigger] refs[i]) ==> kept.contains(
                    refs[i],
                )
            &&& distinct_slots(refs) ==> distinct_slots(kept)
        }),
    decreases refs.len(),
{
    reveal(Seq::filter);
    let kept = unselected(refs, selection);
    if refs.len() > 0 {
        let part = refs.drop_last();
        let before = unselected(part, selection);
        lemma_filter(part, selection);
        assert forall|k: int| 0 <= k < kept.len() implies exists|i: int|
            0 <= i < refs.len() && #[trigger] kept[k] == #[trigger] refs[i] && !selection.selects(
                refs[i],
            ) by {
            if k < before.len() {
                let i = choose|i: int|
                    0 <= i < part.len() && before[k] == #[trigger] part[i] && !selection.selects(
                        part[i],
                    );
                assert(refs[i] == part[i]);
            } else {
                assert(kept[k] == refs[refs.len() - 1]);
            }
        }
        assert forall|i: int|
            0 <= i < refs.len() && !selection.selects(#[trigger] refs[i]) implies kept.contains(
            refs[i],
        ) by {
            if i < part.len() {
                assert(part[i] == refs[i]);
                let k = choose|k: int| 0 <= k < before.len() && before[k] == refs[i];
                assert(kept[k] == refs[i]);
            } else {
                assert(kept[kept.len() - 1] == refs[i]);
            }
        }
        if distinct_slots(refs) {
            assert(distinct_slots(part)) by {
                assert forall|i: int, j: int| 0 <= i < j < part.len() implies #[trigger] part[i].slot
                    != #[trigger] part[j].slot by {
                    assert(refs[i].slot != refs[j].slot);
                }
            }
            assert forall|a: int, b: int| 0 <= a < b < kept.len() implies #[trigger] kept[a].slot
                != #[trigger] kept[b].slot by {
                if b < before.len() {
                    assert(before[a].slot != before[b].slot);
                } else {
                    let i = choose|i: int|
                        0 <= i < part.len() && before[a] == #[trigger] part[i]
                            && !selection.selects(part[i]);
                    assert(refs[i].slot != refs[refs.len() - 1].slot);
                }
            }
        }
    }
}

proof fn lemma_without_tidy(dpb: DpbView, selection: Selection, current: Option<u8>)
    requires
        tidy(dpb, current),
    ensures
        tidy(without(dpb, selection), current),
{
    let done = without(dpb, selection);
    lemma_filter(dpb.refs, selection);
    assert forall|k: int| 0 <= k < done.refs.len() implies #[trigger] done.refs[k].slot
        < MAX_DPB_SLOTS && holds_slot(dpb.refs, done.refs[k].slot as int) by {
        let i = choose|i: int| 0 <= i < dpb.refs.len() && done.refs[k] == #[trigger] dpb.refs[i];
        assert(dpb.refs[i].slot < MAX_DPB_SLOTS);
    }
    assert forall|slot: int| 0 <= slot < MAX_DPB_SLOTS implies (#[trigger] done.used[slot]
        <==> holds_slot(done.refs, slot) || (current matches Some(own) && own == slot)) by {
        assert(dpb.used[slot] <==> holds_slot(dpb.refs, slot) || (current matches Some(own) && own
            == slot));
        if holds_slot(dpb.refs, slot) {
            let i = choose|i: int| 0 <= i < dpb.refs.len() && #[trigger] dpb.refs[i].slot == slot;
            if selection.selects(dpb.refs[i]) {
                assert(drops_slot(dpb.refs, selection, slot));
                if holds_slot(done.refs, slot) {
                    let k = choose|k: int|
                        0 <= k < done.refs.len() && #[trigger] done.refs[k].slot == slot;
                    let j = choose|j: int|
                        0 <= j < dpb.refs.len() && done.refs[k] == #[trigger] dpb.refs[j]
                            && !selection.selects(dpb.refs[j]);
                    assert(i == j) by {
                        if i < j {
                            assert(dpb.refs[i].slot != dpb.refs[j].slot);
                        } else if j < i {
                            assert(dpb.refs[j].slot != dpb.refs[i].slot);
                        }
                    }
                }
            } else {
                let k = choose|k: int| 0 <= k < done.refs.len() && done.refs[k] == dpb.refs[i];
                assert(done.refs[k].slot == slot);
                if drops_slot(dpb.refs, selection, slot) {
                    let j = choose|j: int|
                        0 <= j < dpb.refs.len() && #[trigger] dpb.refs[j].slot == slot
                            && selection.selects(dpb.refs[j]);
                    assert(i == j) by {
                        if i < j {
                            assert(dpb.refs[i].slot != dpb.refs[j].slot);
                        } else if j < i {
                            assert(dpb.refs[j].slot != dpb.refs[i].slot);
                        }
                    }
                }
            }
        } else {
            if holds_slot(done.refs, slot) {
                let k = choose|k: int|
                    0 <= k < done.refs.len() && #[trigger] done.refs[k].slot == slot;
                assert(holds_slot(dpb.refs, slot));
            }
            if drops_slot(dpb.refs, selection, slot) {
                let j = choose|j: int|
                    0 <= j < dpb.refs.len() && #[trigger] dpb.refs[j].slot == slot
                        && selection.selects(dpb.refs[j]);
                assert(holds_slot(dpb.refs, slot));
            }
        }
    }
}

proof fn lemma_converted(refs: Seq<RefPicture>, pic_num: int, idx: u32)
    ensures
        converted(refs, pic_num, idx).len() == refs.len(),
        forall|i: int|
            0 <= i < refs.len() ==> (#[trigger] converted(refs, pic_num, idx)[i]).slot
                == refs[i].slot,
    decreases refs.len(),
{
    if refs.len() > 0 {
        lemma_converted(refs.skip(1), pic_num, idx);
        let done = converted(refs, pic_num, idx);
        assert forall|i: int| 0 <= i < refs.len() implies (#[trigger] done[i]).slot
            == refs[i].slot by {
            if i > 0 {
                assert(refs.skip(1)[i - 1] == refs[i]);
            }
        }
    }
}

/// Changing references without moving them keeps a DPB tidy.
proof fn lemma_same_slots_tidy(dpb: DpbView, refs: Seq<RefPicture>, current: Option<u8>)
    requires
        tidy(dpb, current),
        refs.len() == dpb.refs.len(),
        forall|i: int| 0 <= i < refs.len() ==> (#[trigger] refs[i]).slot == dpb.refs[i].slot,
    ensures
        tidy(DpbView { refs, ..dpb }, current),
{
    assert forall|slot: int| holds_slot(refs, slot) == holds_slot(dpb.refs, slot) by {
        if holds_slot(refs, slot) {
            let i = choose|i: int| 0 <= i < refs.len() && #[trigger] refs[i].slot == slot;
            assert(dpb.refs[i].slot == slot);
        }
        if holds_slot(dpb.refs, slot) {
            let i = choose|i: int| 0 <= i < dpb.refs.len() && #[trigger] dpb.refs[i].slot == slot;
            assert(refs[i].slot == slot);
        }
    }
    assert forall|i: int, j: int| 0 <= i < j < refs.len() implies #[trigger] refs[i].slot
        != #[trigger] refs[j].slot by {
        assert(dpb.refs[i].slot != dpb.refs[j].slot);
    }
    assert forall|i: int| 0 <= i < refs.len() implies #[trigger] refs[i].slot < MAX_DPB_SLOTS by {
        assert(dpb.refs[i].slot < MAX_DPB_SLOTS);
    }
}

proof fn lemma_marked_tidy(
    dpb: DpbView,
    ops: Seq<Mmco>,
    number: u16,
    idx: Option<u32>,
    current: Option<u8>,
)
    requires
        tidy(dpb, current),
    ensures
        tidy(marked(dpb, ops, number, idx).0, current),
    decreases ops.len(),
{
    if ops.len() > 0 {
        let next = marked_by(dpb, ops[0], number);
        match ops[0] {
            Mmco::ForgetShort { difference_of_pic_nums_minus1 } => {
                lemma_without_tidy(
                    dpb,
                    Selection::Short {
                        pic_num: pic_num_x(number, difference_of_pic_nums_minus1) as i32,
                    },
                    current,
                );
            },
            Mmco::ForgetLong { long_term_pic_num } => {
                lemma_without_tidy(dpb, Selection::Long { idx: long_term_pic_num }, current);
            },
            Mmco::ShortToLong { difference_of_pic_nums_minus1, long_term_frame_idx } => {
                let selection = Selection::Long { idx: long_term_frame_idx };
                let pic_num = pic_num_x(number, difference_of_pic_nums_minus1);
                lemma_without_tidy(dpb, selection, current);
                let displaced = without(dpb, selection);
                lemma_converted(displaced.refs, pic_num, long_term_frame_idx);
                lemma_same_slots_tidy(
                    displaced,
                    converted(displaced.refs, pic_num, long_term_frame_idx),
                    current,
                );
            },
            Mmco::MaxLongTermIdx { max_long_term_frame_idx_plus1 } => {
                let max: Option<u32> = if max_long_term_frame_idx_plus1 == 0 {
                    None
                } else {
                    Some((max_long_term_frame_idx_plus1 - 1) as u32)
                };
                let bounded = DpbView { max_long_term_frame_idx: max, ..dpb };
                assert(tidy(bounded, current));
                lemma_without_tidy(bounded, Selection::LongAbove { max }, current);
            },
            Mmco::ForgetAll => {
                let bounded = DpbView { max_long_term_frame_idx: None, ..dpb };
                assert(tidy(bounded, current));
                lemma_without_tidy(bounded, Selection::All, current);
            },
            Mmco::CurrentToLong { long_term_frame_idx } => {
                lemma_without_tidy(dpb, Selection::Long { idx: long_term_frame_idx }, current);
            },
        }
        assert(tidy(next, current));
        lemma_marked_tidy(next, ops.skip(1), number, current_idx(ops[0], idx), current);
    }
}

/// The oldest short-term reference: none has a smaller `FrameNumWrap`, and there
/// is none only where every reference is long-term.
pub proof fn lemma_oldest(refs: Seq<RefPicture>)
    ensures
        match oldest(refs) {
            Some(i) => 0 <= i < refs.len() && !refs[i].long_term && forall|j: int|
                0 <= j < refs.len() && !(#[trigger] refs[j]).long_term ==> refs[i].frame_num_wrap
                    <= refs[j].frame_num_wrap,
            None => forall|j: int| 0 <= j < refs.len() ==> (#[trigger] refs[j]).long_term,
        },
    decreases refs.len(),
{
    if refs.len() > 0 {
        let part = refs.drop_last();
        lemma_oldest(part);
        assert forall|j: int| 0 <= j < part.len() implies part[j] == #[trigger] refs[j] by {}
    }
}

proof fn lemma_slid_tidy(dpb: DpbView, max_refs: nat, current: Option<u8>)
    requires
        tidy(dpb, current),
    ensures
        tidy(slid(dpb, max_refs), current),
    decreases dpb.refs.len(),
{
    lemma_oldest(dpb.refs);
    if let Some(i) = oldest(dpb.refs) {
        if dpb.refs.len() >= max_refs {
            let victim = dpb.refs[i].slot;
            let next = DpbView { refs: dpb.refs.remove(i), ..dpb.freed(victim) };
            assert(dpb.refs[i].slot < MAX_DPB_SLOTS);
            assert forall|k: int| 0 <= k < next.refs.len() implies #[trigger] next.refs[k].slot
                < MAX_DPB_SLOTS && next.refs[k].slot != victim && holds_slot(
                dpb.refs,
                next.refs[k].slot as int,
            ) by {
                let j = if k < i { k } else { k + 1 };
                assert(next.refs[k] == dpb.refs[j]);
                assert(dpb.refs[j].slot < MAX_DPB_SLOTS);
                if j < i {
                    assert(dpb.refs[j].slot != dpb.refs[i].slot);
                } else {
                    assert(dpb.refs[i].slot != dpb.refs[j].slot);
                }
            }
            assert forall|a: int, b: int| 0 <= a < b < next.refs.len() implies #[trigger] next.refs[a].slot
                != #[trigger] next.refs[b].slot by {
                let x = if a < i { a } else { a + 1 };
                let y = if b < i { b } else { b + 1 };
                assert(dpb.refs[x].slot != dpb.refs[y].slot);
            }
            assert forall|slot: int| 0 <= slot < MAX_DPB_SLOTS implies (
            #[trigger] next.used[slot] <==> holds_slot(next.refs, slot) || (
            current matches Some(own) && own == slot)) by {
                assert(dpb.used[slot] <==> holds_slot(dpb.refs, slot) || (
                current matches Some(own) && own == slot));
                if slot == victim {
                    assert(holds_slot(dpb.refs, slot));
                    if holds_slot(next.refs, slot) {
                        let k = choose|k: int|
                            0 <= k < next.refs.len() && #[trigger] next.refs[k].slot == slot;
                        assert(next.refs[k].slot != victim);
                    }
                } else {
                    if holds_slot(dpb.refs, slot) {
                        let j = choose|j: int|
                            0 <= j < dpb.refs.len() && #[trigger] dpb.refs[j].slot == slot;
                        let k = if j < i { j } else { j - 1 };
                        assert(next.refs[k] == dpb.refs[j]);
                        assert(next.refs[k].slot == slot);
                    }
                    if holds_slot(next.refs, slot) {
                        let k = choose|k: int|
                            0 <= k < next.refs.len() && #[trigger] next.refs[k].slot == slot;
                        assert(holds_slot(dpb.refs, slot));
                    }
                }
            }
            lemma_slid_tidy(next, max_refs, current);
        }
    }
}

proof fn lemma_push_tidy(dpb: DpbView, slot: u8, state: PictureView, idx: Option<u32>)
    requires
        tidy(dpb, Some(slot)),
    ensures
        tidy(with_current(dpb, slot, state, idx), None),
{
    let done = with_current(dpb, slot, state, idx);
    let last = done.refs.len() - 1;
    assert forall|s: int| 0 <= s < MAX_DPB_SLOTS implies (#[trigger] done.used[s] <==> holds_slot(
        done.refs,
        s,
    )) by {
        assert(dpb.used[s] <==> holds_slot(dpb.refs, s) || slot == s);
        if holds_slot(dpb.refs, s) {
            let i = choose|i: int| 0 <= i < dpb.refs.len() && #[trigger] dpb.refs[i].slot == s;
            assert(done.refs[i].slot == s);
        }
        if slot == s {
            assert(done.refs[last].slot == s);
        }
        if holds_slot(done.refs, s) {
            let i = choose|i: int| 0 <= i < done.refs.len() && #[trigger] done.refs[i].slot == s;
            if i < last {
                assert(dpb.refs[i].slot == s);
            }
        }
    }
    assert forall|i: int, j: int| 0 <= i < j < done.refs.len() implies #[trigger] done.refs[i].slot
        != #[trigger] done.refs[j].slot by {
        if j == last {
            assert(dpb.refs[i].slot == done.refs[i].slot);
            assert(holds_slot(dpb.refs, done.refs[i].slot as int));
        } else {
            assert(dpb.refs[i].slot != dpb.refs[j].slot);
        }
    }
}

/// No slot leaks: once a picture has ended, the occupied slots are exactly those
/// of the references, whatever marking the picture asked for. (An IDR picture
/// finds no references, since it flushed them when it began.)
pub proof fn law_no_slot_leaks(dpb: DpbView, slot: u8, state: PictureView, sps: SpsView)
    requires
        tidy(dpb, Some(slot)),
        state.is_reference && state.is_idr ==> dpb.refs.len() == 0,
    ensures
        tidy(ended(dpb, slot, state, sps), None),
{
    if !state.is_reference {
        let done = dpb.freed(slot);
        assert forall|s: int| 0 <= s < MAX_DPB_SLOTS implies (#[trigger] done.used[s]
            <==> holds_slot(done.refs, s)) by {
            assert(dpb.used[s] <==> holds_slot(dpb.refs, s) || slot == s);
        }
    } else {
        let refs = refreshed(dpb.refs, state.frame_num, sps.max_frame_num());
        lemma_same_slots_tidy(dpb, refs, Some(slot));
        let numbered = DpbView { refs, ..dpb };
        if state.is_idr {
            let idx: Option<u32> = if state.marking.long_term_reference_flag {
                Some(0)
            } else {
                None
            };
            assert(refs =~= Seq::empty());
            let empty = DpbView { refs: Seq::empty(), max_long_term_frame_idx: idx, ..numbered };
            assert(tidy(empty, Some(slot)));
            lemma_push_tidy(empty, slot, state, idx);
        } else if state.marking.adaptive {
            lemma_marked_tidy(numbered, state.marking.ops, state.frame_num, None, Some(slot));
            let (done, idx) = marked(numbered, state.marking.ops, state.frame_num, None);
            lemma_push_tidy(done, slot, state, idx);
        } else {
            lemma_slid_tidy(numbered, window(sps), Some(slot));
            lemma_push_tidy(slid(numbered, window(sps)), slot, state, None);
        }
    }
}

proof fn lemma_slid_keeps(dpb: DpbView, max_refs: nat)
    ensures
        slid(dpb, max_refs).slot_count == dpb.slot_count,
        slid(dpb, max_refs).poc == dpb.poc,
    decreases dpb.refs.len(),
{
    if let Some(i) = oldest(dpb.refs) {
        if dpb.refs.len() >= max_refs && 0 <= i < dpb.refs.len() {
            lemma_slid_keeps(
                DpbView { refs: dpb.refs.remove(i), ..dpb.freed(dpb.refs[i].slot) },
                max_refs,
            );
        }
    }
}

proof fn lemma_marked_keeps(dpb: DpbView, ops: Seq<Mmco>, current: u16, idx: Option<u32>)
    ensures
        marked(dpb, ops, current, idx).0.slot_count == dpb.slot_count,
        marked(dpb, ops, current, idx).0.poc == dpb.poc,
    decreases ops.len(),
{
    if ops.len() > 0 {
        lemma_marked_keeps(
            marked_by(dpb, ops[0], current),
            ops.skip(1),
            current,
            current_idx(ops[0], idx),
        );
    }
}

/// The end of a picture changes neither the number of slots nor what order counts
/// are predicted from.
pub proof fn lemma_slots_and_order_kept(dpb: DpbView, slot: u8, state: PictureView, sps: SpsView)
    ensures
        ended(dpb, slot, state, sps).slot_count == dpb.slot_count,
        ended(dpb, slot, state, sps).poc == dpb.poc,
{
    let refs = refreshed(dpb.refs, state.frame_num, sps.max_frame_num());
    let numbered = DpbView { refs, ..dpb };
    lemma_slid_keeps(numbered, window(sps));
    lemma_marked_keeps(numbered, state.marking.ops, state.frame_num, None);
}

/// The sliding window makes room for one more reference among the `max_refs`
/// that a stream may have, unless long-term references alone take up the room.
pub proof fn law_window_makes_room(dpb: DpbView, max_refs: nat)
    ensures
        ({
            let refs = slid(dpb, max_refs).refs;
            refs.len() < max_refs || forall|i: int|
                0 <= i < refs.len() ==> (#[trigger] refs[i]).long_term
        }),
    decreases dpb.refs.len(),
{
    lemma_oldest(dpb.refs);
    if let Some(i) = oldest(dpb.refs) {
        if dpb.refs.len() >= max_refs {
            law_window_makes_room(
                DpbView { refs: dpb.refs.remove(i), ..dpb.freed(dpb.refs[i].slot) },
                max_refs,
            );
        }
    }
}

/// A long-term reference never slides out of the window.
pub proof fn law_long_term_never_slides(dpb: DpbView, max_refs: nat, i: int)
    requires
        0 <= i < dpb.refs.len(),
        dpb.refs[i].long_term,
    ensures
        slid(dpb, max_refs).refs.contains(dpb.refs[i]),
    decreases dpb.refs.len(),
{
    lemma_oldest(dpb.refs);
    if let Some(victim) = oldest(dpb.refs) {
        if dpb.refs.len() >= max_refs {
            let next = DpbView {
                refs: dpb.refs.remove(victim),
                ..dpb.freed(dpb.refs[victim].slot)
            };
            let k = if i < victim { i } else { i - 1 };
            assert(next.refs[k] == dpb.refs[i]);
            law_long_term_never_slides(next, max_refs, k);
        }
    }
}

/// The sliding window retires the oldest: a reference that went has no larger
/// `FrameNumWrap` than a short-term reference that stayed.
pub proof fn law_oldest_slides_first(dpb: DpbView, max_refs: nat, gone: int, kept: int)
    requires
        0 <= gone < dpb.refs.len(),
        !slid(dpb, max_refs).refs.contains(dpb.refs[gone]),
        0 <= kept < slid(dpb, max_refs).refs.len(),
        !slid(dpb, max_refs).refs[kept].long_term,
    ensures
        !dpb.refs[gone].long_term,
        dpb.refs[gone].frame_num_wrap <= slid(dpb, max_refs).refs[kept].frame_num_wrap,
    decreases dpb.refs.len(),
{
    lemma_oldest(dpb.refs);
    let done = slid(dpb, max_refs);
    if dpb.refs[gone].long_term {
        law_long_term_never_slides(dpb, max_refs, gone);
    }
    if let Some(victim) = oldest(dpb.refs) {
        if dpb.refs.len() >= max_refs {
            let next = DpbView {
                refs: dpb.refs.remove(victim),
                ..dpb.freed(dpb.refs[victim].slot)
            };
            if gone == victim {
                lemma_slid_subset(next, max_refs, kept);
                let k = choose|k: int| 0 <= k < next.refs.len() && next.refs[k] == done.refs[kept];
                assert(dpb.refs[if k < victim { k } else { k + 1 }] == done.refs[kept]);
            } else {
                let k = if gone < victim { gone } else { gone - 1 };
                assert(next.refs[k] == dpb.refs[gone]);
                law_oldest_slides_first(next, max_refs, k, kept);
            }
        } else {
            assert(done.refs[gone] == dpb.refs[gone]);
        }
    } else {
        assert(done.refs[gone] == dpb.refs[gone]);
    }
}

proof fn lemma_slid_subset(dpb: DpbView, max_refs: nat, k: int)
    requires
        0 <= k < slid(dpb, max_refs).refs.len(),
    ensures
        dpb.refs.contains(slid(dpb, max_refs).refs[k]),
    decreases dpb.refs.len(),
{
    lemma_oldest(dpb.refs);
    if let Some(victim) = oldest(dpb.refs) {
        if dpb.refs.len() >= max_refs {
            let next = DpbView {
                refs: dpb.refs.remove(victim),
                ..dpb.freed(dpb.refs[victim].slot)
            };
            lemma_slid_subset(next, max_refs, k);
            let j = choose|j: int|
                0 <= j < next.refs.len() && next.refs[j] == slid(dpb, max_refs).refs[k];
            assert(dpb.refs[if j < victim { j } else { j + 1 }] == next.refs[j]);
        }
    }
}

proof fn lemma_empty_stays_empty(dpb: DpbView, op: Mmco, current: u16)
    requires
        dpb.refs.len() == 0,
    ensures
        marked_by(dpb, op, current).refs.len() == 0,
{
    reveal(Seq::filter);
}

proof fn lemma_reset_empties(dpb: DpbView, ops: Seq<Mmco>, current: u16, idx: Option<u32>)
    requires
        dpb.refs.len() == 0 || ops.contains(Mmco::ForgetAll),
    ensures
        marked(dpb, ops, current, idx).0.refs.len() == 0,
    decreases ops.len(),
{
    if ops.len() > 0 {
        let next = marked_by(dpb, ops[0], current);
        if dpb.refs.len() == 0 {
            lemma_empty_stays_empty(dpb, ops[0], current);
        } else if ops[0] == Mmco::ForgetAll {
            lemma_filter(dpb.refs, Selection::All);
            if next.refs.len() > 0 {
                let i = choose|i: int|
                    0 <= i < dpb.refs.len() && next.refs[0] == #[trigger] dpb.refs[i]
                        && !Selection::All.selects(dpb.refs[i]);
            }
        } else {
            let k = choose|k: int| 0 <= k < ops.len() && ops[k] == Mmco::ForgetAll;
            assert(ops.skip(1)[k - 1] == Mmco::ForgetAll);
        }
        lemma_reset_empties(next, ops.skip(1), current, current_idx(ops[0], idx));
    }
}

/// After an IDR picture, and after a picture with the memory management reset,
/// that picture is the only reference.
pub proof fn law_reset_leaves_only_current(
    dpb: DpbView,
    slot: u8,
    state: PictureView,
    sps: SpsView,
)
    requires
        state.is_reference,
        state.is_idr || state.marking.adaptive && state.marking.ops.contains(Mmco::ForgetAll),
    ensures
        ended(dpb, slot, state, sps).refs.len() == 1,
        ended(dpb, slot, state, sps).refs[0].slot == slot,
        ended(dpb, slot, state, sps).refs[0].poc == (state.poc, state.poc),
{
    if !state.is_idr {
        let numbered = DpbView {
            refs: refreshed(dpb.refs, state.frame_num, sps.max_frame_num()),
            ..dpb
        };
        lemma_reset_empties(numbered, state.marking.ops, state.frame_num, None);
    }
}

/// A picture that nothing may refer to leaves the references as they were.
pub proof fn law_disposable_picture_marks_nothing(
    dpb: DpbView,
    slot: u8,
    state: PictureView,
    sps: SpsView,
)
    requires
        !state.is_reference,
    ensures
        ended(dpb, slot, state, sps).refs == dpb.refs,
        ended(dpb, slot, state, sps).max_long_term_frame_idx == dpb.max_long_term_frame_idx,
{
}

} // verus!
