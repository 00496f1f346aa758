//! What holds of a DPB whatever whole pictures have gone through it.

use crate::decoder::h264::dpb::{
    begun, distinct_slots, ended, fresh, holds_slot, law_allocation_is_tidy, law_no_slot_leaks,
    lemma_slots_and_order_kept, picture_of, resets, tidy, DpbView, PictureView, MAX_DPB_SLOTS,
};
use crate::decoder::h264::poc::{
    counted, law_disposable_picture_keeps_prediction, law_frame_numbers_are_recovered,
    law_idr_counts_from_zero, law_reference_is_predicted_from, law_type0_recovers_poc,
    law_type0_state_stays_whole, law_type2_doubles_frame_counts, poc_fits, poc_of, type0_whole,
};
use crate::decoder::h264::references::{
    distinct_indices, keeps_order, law_long_term_indices_stay_unique,
    law_references_keep_their_order, leaves_current_its_index,
};
use crate::decoder::h264::syntax::{Mmco, SliceHeaderView, SpsView};
use vstd::prelude::*;

verus! {

/// A picture that went through a DPB: what its header says, and the slot that it was
/// decoded into.
pub struct Decode {
    pub header: SliceHeaderView,
    pub sps: SpsView,
    pub idr: bool,
    pub reference: bool,
    pub intra: bool,
    pub slot: u8,
}

/// The DPB once a picture has begun.
pub open spec fn after_begin(dpb: DpbView, picture: Decode) -> DpbView {
    begun(dpb, picture.header, picture.sps, picture.idr, picture.reference)
}

/// The state of a picture.
pub open spec fn state_in(dpb: DpbView, picture: Decode) -> PictureView {
    picture_of(
        dpb,
        picture.header,
        picture.sps,
        picture.idr,
        picture.reference,
        picture.intra,
    )
}

/// The DPB once a picture has begun and has taken its slot.
pub open spec fn after_allocation(dpb: DpbView, picture: Decode) -> DpbView {
    let started = after_begin(dpb, picture);
    DpbView { used: started.used.update(picture.slot as int, true), ..started }
}

/// The DPB once a whole picture has gone through it.
pub open spec fn after_picture(dpb: DpbView, picture: Decode) -> DpbView {
    ended(after_allocation(dpb, picture), picture.slot, state_in(dpb, picture), picture.sps)
}

/// Whether a picture took a slot that could be allocated.
pub open spec fn takes_free_slot(dpb: DpbView, picture: Decode) -> bool {
    let started = after_begin(dpb, picture);
    picture.slot < started.slot_count && !started.used[picture.slot as int]
}

/// The DPB that pictures leave behind, one after the other, from an empty one on.
pub open spec fn reached(slot_count: nat, pictures: Seq<Decode>) -> DpbView
    decreases pictures.len(),
{
    if pictures.len() == 0 {
        fresh(slot_count)
    } else {
        after_picture(reached(slot_count, pictures.drop_last()), pictures.last())
    }
}

/// Whether every picture took a slot that could be allocated.
pub open spec fn all_take_free_slots(slot_count: nat, pictures: Seq<Decode>) -> bool
    decreases pictures.len(),
{
    pictures.len() == 0 || {
        &&& all_take_free_slots(slot_count, pictures.drop_last())
        &&& takes_free_slot(reached(slot_count, pictures.drop_last()), pictures.last())
    }
}

proof fn lemma_begin_is_tidy(dpb: DpbView, picture: Decode)
    requires
        tidy(dpb, None),
    ensures
        tidy(after_begin(dpb, picture), None),
        after_begin(dpb, picture).slot_count == dpb.slot_count,
        picture.idr ==> after_begin(dpb, picture).refs.len() == 0,
        !picture.idr ==> after_begin(dpb, picture).refs == dpb.refs,
{
}

/// Every reference has a slot of its own: whatever whole pictures a DPB has taken
/// in, the slots of its references are pairwise distinct and among the slots of the
/// session, they are exactly the occupied ones, and the next picture is never given
/// the slot of a reference that is still held.
pub proof fn law_references_have_slots_of_their_own(
    slot_count: nat,
    pictures: Seq<Decode>,
    next: Decode,
)
    requires
        slot_count <= MAX_DPB_SLOTS,
        all_take_free_slots(slot_count, pictures),
    ensures
        ({
            let dpb = reached(slot_count, pictures);
            &&& tidy(dpb, None)
            &&& distinct_slots(dpb.refs)
            &&& forall|i: int|
                0 <= i < dpb.refs.len() ==> #[trigger] dpb.refs[i].slot < slot_count
            &&& takes_free_slot(dpb, next) ==> !holds_slot(
                after_begin(dpb, next).refs,
                next.slot as int,
            )
        }),
{
    let dpb = reached(slot_count, pictures);
    lemma_reached(slot_count, pictures);
    lemma_begin_is_tidy(dpb, next);
}

proof fn lemma_reached(slot_count: nat, pictures: Seq<Decode>)
    requires
        slot_count <= MAX_DPB_SLOTS,
        all_take_free_slots(slot_count, pictures),
    ensures
        tidy(reached(slot_count, pictures), None),
        reached(slot_count, pictures).slot_count == slot_count,
    decreases pictures.len(),
{
    if pictures.len() > 0 {
        let before = reached(slot_count, pictures.drop_last());
        let picture = pictures.last();
        lemma_reached(slot_count, pictures.drop_last());
        lemma_begin_is_tidy(before, picture);
        law_allocation_is_tidy(after_begin(before, picture), picture.slot);
        let recording = after_allocation(before, picture);
        let state = state_in(before, picture);
        law_no_slot_leaks(recording, picture.slot, state, picture.sps);
        lemma_slots_and_order_kept(recording, picture.slot, state, picture.sps);
    }
}

/// Whatever whole pictures a DPB has taken in, no two of its long-term references
/// share an index, as long as no picture gives its own index away again.
pub proof fn law_reached_indices_are_unique(slot_count: nat, pictures: Seq<Decode>)
    requires
        forall|i: int|
            0 <= i < pictures.len() ==> leaves_current_its_index(
                (#[trigger] pictures[i]).header.marking.ops,
            ),
    ensures
        distinct_indices(reached(slot_count, pictures).refs),
    decreases pictures.len(),
{
    if pictures.len() > 0 {
        let part = pictures.drop_last();
        assert forall|i: int| 0 <= i < part.len() implies leaves_current_its_index(
            (#[trigger] part[i]).header.marking.ops,
        ) by {
            assert(part[i] == pictures[i]);
        }
        law_reached_indices_are_unique(slot_count, part);
        let before = reached(slot_count, part);
        let picture = pictures[pictures.len() - 1];
        law_long_term_indices_stay_unique(
            after_allocation(before, picture),
            picture.slot,
            state_in(before, picture),
            picture.sps,
        );
    }
}

/// References keep their order whatever whole pictures a DPB has taken in: a picture
/// that others may refer to is the last reference once it has ended, behind some of
/// those that it found, in the order they had. Any other picture leaves the
/// references as it found them.
pub proof fn law_reached_references_keep_their_order(slot_count: nat, pictures: Seq<Decode>)
    requires
        pictures.len() > 0,
    ensures
        ({
            let before = reached(slot_count, pictures.drop_last());
            let picture = pictures.last();
            let found = after_begin(before, picture).refs;
            let refs = reached(slot_count, pictures).refs;
            if picture.reference {
                &&& 1 <= refs.len() <= found.len() + 1
                &&& refs.last().slot == picture.slot
                &&& refs.last().frame_num == state_in(before, picture).frame_num
                &&& refs.last().poc == (state_in(before, picture).poc, state_in(
                    before,
                    picture,
                ).poc)
                &&& keeps_order(refs.drop_last(), found)
            } else {
                refs == found
            }
        }),
{
    let before = reached(slot_count, pictures.drop_last());
    let picture = pictures.last();
    if picture.reference {
        law_references_keep_their_order(
            after_allocation(before, picture),
            picture.slot,
            state_in(before, picture),
            picture.sps,
        );
    }
}

/// Whether a picture of POC type 0 counts modulo `max_lsb` and its order count fits
/// in an `i32`.
pub open spec fn counts_modulo(dpb: DpbView, picture: Decode, max_lsb: int) -> bool {
    &&& picture.sps.poc.pic_order_cnt_type == 0
    &&& picture.sps.max_pic_order_cnt_lsb() == max_lsb
    &&& picture.header.pic_order_cnt_lsb < max_lsb
    &&& poc_fits(dpb.poc, picture.header, picture.sps, picture.idr, picture.reference)
}

/// Whether every picture counts modulo `max_lsb`.
pub open spec fn all_count_modulo(slot_count: nat, pictures: Seq<Decode>, max_lsb: int) -> bool
    decreases pictures.len(),
{
    pictures.len() == 0 || {
        &&& all_count_modulo(slot_count, pictures.drop_last(), max_lsb)
        &&& counts_modulo(reached(slot_count, pictures.drop_last()), pictures.last(), max_lsb)
    }
}

proof fn lemma_reached_is_whole(slot_count: nat, pictures: Seq<Decode>, max_lsb: int)
    requires
        0 < max_lsb <= i32::MAX,
        all_count_modulo(slot_count, pictures, max_lsb),
    ensures
        type0_whole(reached(slot_count, pictures).poc, max_lsb),
    decreases pictures.len(),
{
    if pictures.len() > 0 {
        let before = reached(slot_count, pictures.drop_last());
        let picture = pictures.last();
        lemma_reached_is_whole(slot_count, pictures.drop_last(), max_lsb);
        law_type0_state_stays_whole(
            before.poc,
            picture.header,
            picture.sps,
            picture.idr,
            picture.reference,
        );
        lemma_slots_and_order_kept(
            after_allocation(before, picture),
            picture.slot,
            state_in(before, picture),
            picture.sps,
        );
    }
}

/// POC type 0 recovers the order counts that an encoder meant, whatever whole
/// pictures came before: if the count of the next picture lies within half a cycle
/// of that of the last reference, sending it modulo the cycle length is enough.
pub proof fn law_reached_order_counts_are_recovered(
    slot_count: nat,
    pictures: Seq<Decode>,
    next: Decode,
    poc: int,
    max_lsb: int,
)
    requires
        0 < max_lsb <= i32::MAX,
        max_lsb % 2 == 0,
        all_count_modulo(slot_count, pictures, max_lsb),
        counts_modulo(reached(slot_count, pictures), next, max_lsb),
        !next.idr,
        next.header.pic_order_cnt_lsb == poc % max_lsb,
        ({
            let last = reached(slot_count, pictures).poc;
            -max_lsb / 2 < poc - (last.prev_poc_msb + last.prev_poc_lsb) <= max_lsb / 2
        }),
    ensures
        poc_of(
            reached(slot_count, pictures).poc,
            next.header,
            next.sps,
            next.idr,
            next.reference,
        ) == poc,
{
    lemma_reached_is_whole(slot_count, pictures, max_lsb);
    law_type0_recovers_poc(reached(slot_count, pictures).poc, poc, max_lsb);
}

/// The order count of the last reference among pictures: that of the last picture
/// which others may refer to, or zero where the sequence started anew behind it.
pub open spec fn last_reference_count(slot_count: nat, pictures: Seq<Decode>) -> int
    decreases pictures.len(),
{
    if pictures.len() == 0 {
        0
    } else {
        let picture = pictures.last();
        if picture.reference {
            state_in(reached(slot_count, pictures.drop_last()), picture).poc as int
        } else if picture.idr {
            0
        } else {
            last_reference_count(slot_count, pictures.drop_last())
        }
    }
}

/// Whether every picture is of POC type 0 and its order count fits in an `i32`.
pub open spec fn all_count_by_lsb(slot_count: nat, pictures: Seq<Decode>) -> bool
    decreases pictures.len(),
{
    pictures.len() == 0 || {
        let dpb = reached(slot_count, pictures.drop_last());
        let picture = pictures.last();
        &&& all_count_by_lsb(slot_count, pictures.drop_last())
        &&& picture.sps.poc.pic_order_cnt_type == 0
        &&& poc_fits(dpb.poc, picture.header, picture.sps, picture.idr, picture.reference)
    }
}

proof fn lemma_modulo_is_by_lsb(slot_count: nat, pictures: Seq<Decode>, max_lsb: int)
    requires
        all_count_modulo(slot_count, pictures, max_lsb),
    ensures
        all_count_by_lsb(slot_count, pictures),
    decreases pictures.len(),
{
    if pictures.len() > 0 {
        lemma_modulo_is_by_lsb(slot_count, pictures.drop_last(), max_lsb);
    }
}

/// Whatever whole pictures came before, POC type 0 predicts from the last reference:
/// what it keeps adds up to the order count of that picture, which is zero where it
/// had the memory management reset. A disposable picture changes nothing of it.
pub proof fn law_prediction_follows_last_reference(slot_count: nat, pictures: Seq<Decode>)
    requires
        all_count_by_lsb(slot_count, pictures),
    ensures
        reached(slot_count, pictures).poc.prev_poc_msb + reached(
            slot_count,
            pictures,
        ).poc.prev_poc_lsb == last_reference_count(slot_count, pictures),
        pictures.len() > 0 && resets(pictures.last().header, pictures.last().reference)
            ==> last_reference_count(slot_count, pictures) == 0,
        pictures.len() > 0 && !pictures.last().reference && !pictures.last().idr ==> {
            let before = reached(slot_count, pictures.drop_last()).poc;
            let after = reached(slot_count, pictures).poc;
            before.prev_poc_msb == after.prev_poc_msb && before.prev_poc_lsb
                == after.prev_poc_lsb
        },
    decreases pictures.len(),
{
    if pictures.len() > 0 {
        let before = reached(slot_count, pictures.drop_last());
        let picture = pictures.last();
        law_prediction_follows_last_reference(slot_count, pictures.drop_last());
        lemma_slots_and_order_kept(
            after_allocation(before, picture),
            picture.slot,
            state_in(before, picture),
            picture.sps,
        );
        law_disposable_picture_keeps_prediction(before.poc, picture.header, picture.sps);
        if picture.reference {
            law_reference_is_predicted_from(
                before.poc,
                picture.header,
                picture.sps,
                picture.idr,
            );
        }
    }
}

/// The true order count of the last reference, `counts` being those of the pictures:
/// zero where it had the memory management reset, or where there is none since the
/// sequence started.
pub open spec fn true_anchor(pictures: Seq<Decode>, counts: Seq<int>) -> int
    decreases pictures.len(),
{
    if pictures.len() == 0 {
        0
    } else {
        let picture = pictures.last();
        if resets(picture.header, picture.reference) {
            0
        } else if picture.reference {
            counts[pictures.len() - 1]
        } else if picture.idr {
            0
        } else {
            true_anchor(pictures.drop_last(), counts)
        }
    }
}

/// Whether a picture was sent with the remainder of its true count, and can be told
/// from that: an IDR picture has less than a cycle, any other picture lies within
/// half a cycle of the last reference.
pub open spec fn sent_modulo(picture: Decode, count: int, anchor: int, max_lsb: int) -> bool {
    &&& picture.sps.poc.pic_order_cnt_type == 0
    &&& picture.sps.poc.log2_max_pic_order_cnt_lsb_minus4 < 28
    &&& picture.sps.max_pic_order_cnt_lsb() == max_lsb
    &&& picture.header.pic_order_cnt_lsb == count % max_lsb
    &&& i32::MIN + max_lsb <= count <= i32::MAX
    &&& if picture.idr {
        0 <= count < max_lsb
    } else {
        -max_lsb / 2 < count - anchor <= max_lsb / 2
    }
}

/// Whether every picture was sent with the remainder of its true count.
pub open spec fn all_sent_modulo(pictures: Seq<Decode>, counts: Seq<int>, max_lsb: int) -> bool {
    &&& counts.len() == pictures.len()
    &&& forall|k: int|
        0 <= k < pictures.len() ==> sent_modulo(
            #[trigger] pictures[k],
            counts[k],
            true_anchor(pictures.take(k), counts),
            max_lsb,
        )
}

proof fn lemma_true_anchor(pictures: Seq<Decode>, few: Seq<int>, counts: Seq<int>)
    requires
        pictures.len() <= few.len() <= counts.len(),
        forall|k: int| 0 <= k < few.len() ==> few[k] == #[trigger] counts[k],
    ensures
        true_anchor(pictures, few) == true_anchor(pictures, counts),
    decreases pictures.len(),
{
    if pictures.len() > 0 {
        lemma_true_anchor(pictures.drop_last(), few, counts);
        assert(few[pictures.len() - 1] == counts[pictures.len() - 1]);
    }
}

proof fn lemma_true_counts(
    slot_count: nat,
    pictures: Seq<Decode>,
    counts: Seq<int>,
    max_lsb: int,
)
    requires
        0 < max_lsb <= i32::MAX,
        max_lsb % 2 == 0,
        all_sent_modulo(pictures, counts, max_lsb),
    ensures
        all_count_modulo(slot_count, pictures, max_lsb),
        last_reference_count(slot_count, pictures) == true_anchor(pictures, counts),
        pictures.len() > 0 ==> {
            let picture = pictures.last();
            state_in(reached(slot_count, pictures.drop_last()), picture).poc == if resets(
                picture.header,
                picture.reference,
            ) {
                0
            } else {
                counts.last()
            }
        },
    decreases pictures.len(),
{
    if pictures.len() > 0 {
        let part = pictures.drop_last();
        let picture = pictures.last();
        let n = pictures.len() - 1;
        let few = counts.drop_last();
        assert forall|k: int| 0 <= k < part.len() implies sent_modulo(
            #[trigger] part[k],
            few[k],
            true_anchor(part.take(k), few),
            max_lsb,
        ) by {
            assert(part[k] == pictures[k]);
            assert(part.take(k) =~= pictures.take(k));
            lemma_true_anchor(part.take(k), few, counts);
        }
        lemma_true_counts(slot_count, part, few, max_lsb);
        lemma_true_anchor(part, few, counts);
        assert(pictures[n] == picture);
        assert(pictures.take(n) =~= part);
        let before = reached(slot_count, part);
        lemma_modulo_is_by_lsb(slot_count, part, max_lsb);
        law_prediction_follows_last_reference(slot_count, part);
        lemma_reached_is_whole(slot_count, part, max_lsb);
        let count = counts[n];
        vstd::arithmetic::div_mod::lemma_mod_bound(count, max_lsb);
        if picture.idr {
            vstd::arithmetic::div_mod::lemma_small_mod(count as nat, max_lsb as nat);
        } else {
            law_type0_recovers_poc(before.poc, count, max_lsb);
        }
        assert(counts_modulo(before, picture, max_lsb));
    }
}

/// POC type 0 recovers true order counts from their remainders, from the first
/// picture of a session on: if each picture is sent with its count modulo the cycle
/// length, and lies within half a cycle of the last reference decoded before it,
/// then each picture begins with its true count, and with zero where it has the
/// memory management reset.
pub proof fn law_true_counts_are_recovered(
    slot_count: nat,
    pictures: Seq<Decode>,
    counts: Seq<int>,
    max_lsb: int,
    k: int,
)
    requires
        0 < max_lsb <= i32::MAX,
        max_lsb % 2 == 0,
        all_sent_modulo(pictures, counts, max_lsb),
        0 <= k < pictures.len(),
    ensures
        state_in(reached(slot_count, pictures.take(k)), pictures[k]).poc == if resets(
            pictures[k].header,
            pictures[k].reference,
        ) {
            0
        } else {
            counts[k]
        },
{
    let part = pictures.take(k + 1);
    let few = counts.take(k + 1);
    assert(part.drop_last() =~= pictures.take(k));
    assert forall|j: int| 0 <= j < part.len() implies sent_modulo(
        #[trigger] part[j],
        few[j],
        true_anchor(part.take(j), few),
        max_lsb,
    ) by {
        assert(part[j] == pictures[j]);
        assert(part.take(j) =~= pictures.take(j));
        lemma_true_anchor(part.take(j), few, counts);
    }
    lemma_true_counts(slot_count, part, few, max_lsb);
}

/// The frame count that a picture follows: that of the picture before it, or zero
/// at the start, and behind a picture with the memory management reset.
pub open spec fn frame_count_before(pictures: Seq<Decode>, counts: Seq<int>, k: int) -> int {
    if k == 0 || resets(pictures[k - 1].header, pictures[k - 1].reference) {
        0
    } else {
        counts[k - 1]
    }
}

/// Whether a picture of POC type 2 was sent with the remainder of its frame count:
/// none at an IDR picture, and less than a cycle more than before it at any other.
pub open spec fn frame_sent_modulo(picture: Decode, count: int, before: int, max: int) -> bool {
    &&& picture.sps.poc.pic_order_cnt_type == 2
    &&& picture.sps.log2_max_frame_num_minus4 < 27
    &&& picture.sps.max_frame_num() == max
    &&& picture.header.frame_num == count % max
    &&& 0 <= count <= 0x3fff_ffff
    &&& if picture.idr {
        count == 0
    } else {
        before <= count < before + max
    }
}

/// Whether every picture was sent with the remainder of its frame count.
pub open spec fn frames_sent_modulo(pictures: Seq<Decode>, counts: Seq<int>, max: int) -> bool {
    &&& counts.len() == pictures.len()
    &&& forall|k: int|
        0 <= k < pictures.len() ==> frame_sent_modulo(
            #[trigger] pictures[k],
            counts[k],
            frame_count_before(pictures, counts, k),
            max,
        )
}

/// The order count that a picture of POC type 2 has by its frame count.
pub open spec fn order_by_frame_count(picture: Decode, count: int) -> int {
    if resets(picture.header, picture.reference) || picture.idr {
        0
    } else if picture.reference {
        2 * count
    } else {
        2 * count - 1
    }
}

proof fn lemma_frame_count(dpb: DpbView, picture: Decode, count: int, before: int, max: int)
    requires
        frame_sent_modulo(picture, count, before, max),
        before >= 0,
        counted(dpb.poc, before, max),
    ensures
        counted(
            after_picture(dpb, picture).poc,
            if resets(picture.header, picture.reference) {
                0
            } else {
                count
            },
            max,
        ),
        state_in(dpb, picture).poc == order_by_frame_count(picture, count),
{
    lemma_slots_and_order_kept(
        after_allocation(dpb, picture),
        picture.slot,
        state_in(dpb, picture),
        picture.sps,
    );
    law_idr_counts_from_zero(
        dpb.poc,
        SliceHeaderView { frame_num: 0, ..picture.header },
        picture.sps,
        picture.reference,
    );
    if picture.idr {
        vstd::arithmetic::div_mod::lemma_small_mod(0, max as nat);
        law_idr_counts_from_zero(dpb.poc, picture.header, picture.sps, picture.reference);
    } else {
        law_frame_numbers_are_recovered(
            dpb.poc,
            picture.header,
            picture.sps,
            picture.reference,
            before,
            count,
        );
        law_type2_doubles_frame_counts(
            dpb.poc,
            picture.header,
            picture.sps,
            picture.reference,
            before,
            count,
        );
    }
}

proof fn lemma_frame_counts(slot_count: nat, pictures: Seq<Decode>, counts: Seq<int>, max: int)
    requires
        0 < max,
        frames_sent_modulo(pictures, counts, max),
    ensures
        counted(
            reached(slot_count, pictures).poc,
            frame_count_before(pictures, counts, pictures.len() as int),
            max,
        ),
        frame_count_before(pictures, counts, pictures.len() as int) >= 0,
    decreases pictures.len(),
{
    if pictures.len() == 0 {
        vstd::arithmetic::div_mod::lemma_small_mod(0, max as nat);
    } else {
        let part = pictures.drop_last();
        let few = counts.drop_last();
        let n = pictures.len() - 1;
        assert forall|k: int| 0 <= k < part.len() implies frame_sent_modulo(
            #[trigger] part[k],
            few[k],
            frame_count_before(part, few, k),
            max,
        ) by {
            assert(part[k] == pictures[k]);
            assert(frame_count_before(part, few, k) == frame_count_before(pictures, counts, k));
        }
        lemma_frame_counts(slot_count, part, few, max);
        assert(frame_count_before(part, few, n) == frame_count_before(pictures, counts, n));
        assert(pictures[n] == pictures.last());
        lemma_frame_count(
            reached(slot_count, part),
            pictures[n],
            counts[n],
            frame_count_before(pictures, counts, n),
            max,
        );
    }
}

/// POC type 2 from the first picture of a session on: if each picture is sent with
/// its frame count modulo the cycle length, less than a cycle after the picture
/// before it, a reference begins with twice its frame count, and a disposable
/// picture right before that. An IDR picture, and one with the memory management
/// reset, begin with zero.
pub proof fn law_frame_counts_give_order(
    slot_count: nat,
    pictures: Seq<Decode>,
    counts: Seq<int>,
    max: int,
    k: int,
)
    requires
        0 < max,
        frames_sent_modulo(pictures, counts, max),
        0 <= k < pictures.len(),
    ensures
        state_in(reached(slot_count, pictures.take(k)), pictures[k]).poc == order_by_frame_count(
            pictures[k],
            counts[k],
        ),
{
    let part = pictures.take(k);
    let few = counts.take(k);
    assert forall|j: int| 0 <= j < part.len() implies frame_sent_modulo(
        #[trigger] part[j],
        few[j],
        frame_count_before(part, few, j),
        max,
    ) by {
        assert(part[j] == pictures[j]);
        assert(frame_count_before(part, few, j) == frame_count_before(pictures, counts, j));
    }
    lemma_frame_counts(slot_count, part, few, max);
    assert(frame_count_before(part, few, k) == frame_count_before(pictures, counts, k));
    lemma_frame_count(
        reached(slot_count, part),
        pictures[k],
        counts[k],
        frame_count_before(pictures, counts, k),
        max,
    );
}

/// An IDR picture starts anew: what it begins with does not depend on the pictures
/// before it, and it finds no references. A picture that starts no sequence finds
/// those that the pictures before it have left.
pub proof fn law_idr_starts_anew(first: DpbView, second: DpbView, picture: Decode)
    requires
        picture.sps.poc.pic_order_cnt_type <= 2,
    ensures
        picture.idr ==> state_in(first, picture) == state_in(second, picture),
        picture.idr ==> after_begin(first, picture).refs.len() == 0,
        picture.idr ==> after_begin(first, picture).poc == after_begin(second, picture).poc,
        !picture.idr ==> after_begin(first, picture).refs == first.refs,
        !picture.idr ==> after_begin(first, picture).used == first.used,
        after_begin(first, picture).slot_count == first.slot_count,
{
}

/// The memory management reset makes a picture the first of a sequence: it begins
/// with order count and frame number zero, and what follows is predicted as at the
/// start of a session.
pub proof fn law_reset_starts_anew(dpb: DpbView, picture: Decode, slot_count: nat)
    requires
        picture.reference,
        picture.header.marking.ops.contains(Mmco::ForgetAll),
    ensures
        state_in(dpb, picture).poc == 0,
        state_in(dpb, picture).frame_num == 0,
        after_begin(dpb, picture).poc == fresh(slot_count).poc,
{
}

/// A picture begins with what its header says.
pub proof fn law_picture_is_as_sent(dpb: DpbView, picture: Decode)
    requires
        picture.header.frame_num <= u16::MAX,
    ensures
        state_in(dpb, picture).is_idr == picture.idr,
        state_in(dpb, picture).is_reference == picture.reference,
        state_in(dpb, picture).is_intra == picture.intra,
        state_in(dpb, picture).idr_pic_id == picture.header.idr_pic_id,
        state_in(dpb, picture).marking == picture.header.marking,
        state_in(dpb, picture).frame_num == picture.header.frame_num || picture.reference
            && picture.header.marking.ops.contains(Mmco::ForgetAll),
{
}

} // verus!
