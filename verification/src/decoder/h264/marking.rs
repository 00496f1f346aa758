//! What each way of marking does to the references, by how long before the current
//! picture they were decoded.

use crate::decoder::h264::dpb::{
    converted, current_idx, ended, frame_num_wrap, lemma_oldest, marked, marked_by, marking_fits,
    oldest, op_fits, pic_num_x, refreshed, slid, unselected, window, DpbView, PictureView, RefPicture, Selection,
};
use crate::decoder::h264::references::{ascend, lemma_unselected_places};
use crate::decoder::h264::syntax::{Mmco, SpsView};
use vstd::prelude::*;

verus! {

/// Whether one reference is another, as it was: only its `FrameNumWrap` may differ,
/// which goes by the current picture.
pub open spec fn unchanged(before: RefPicture, after: RefPicture) -> bool {
    &&& after.slot == before.slot
    &&& after.frame_num == before.frame_num
    &&& after.poc == before.poc
    &&& after.long_term == before.long_term
    &&& after.long_term_frame_idx == before.long_term_frame_idx
}

/// Whether one reference is another, turned into a long-term one.
pub open spec fn made_long_term(before: RefPicture, after: RefPicture, idx: u32) -> bool {
    &&& after.slot == before.slot
    &&& after.frame_num == before.frame_num
    &&& after.poc == before.poc
    &&& after.long_term
    &&& after.long_term_frame_idx == idx
}

/// Whether `places` says which of the references before each reference is, and those
/// before that satisfy `keep` are just the ones that are left.
pub open spec fn left_at(
    after: Seq<RefPicture>,
    before: Seq<RefPicture>,
    keep: spec_fn(RefPicture) -> bool,
    places: Seq<int>,
) -> bool {
    &&& places.len() == after.len()
    &&& ascend(places, before.len() as int)
    &&& forall|i: int|
        0 <= i < before.len() ==> (keep(#[trigger] before[i]) <==> places.contains(i))
}

/// Whether the references that satisfy `keep` are left, each as it was and in the
/// order they had, and no others.
pub open spec fn keeps_only(
    after: Seq<RefPicture>,
    before: Seq<RefPicture>,
    keep: spec_fn(RefPicture) -> bool,
) -> bool {
    exists|places: Seq<int>| #[trigger]
        left_at(after, before, keep, places) && forall|k: int|
            0 <= k < after.len() ==> unchanged(before[places[k]], #[trigger] after[k])
}

/// Whether a reference was decoded `steps` frame numbers before the picture with
/// number `current`, frame numbers counting modulo `max`.
pub open spec fn frames_ago(r: RefPicture, current: u16, steps: int, max: int) -> bool {
    (current - steps - r.frame_num) % max == 0
}

/// Whether frame numbers are ones that counting modulo `MaxFrameNum` leads to.
pub open spec fn numbered_modulo(refs: Seq<RefPicture>, current: u16, sps: SpsView) -> bool {
    &&& sps.log2_max_frame_num_minus4 <= 12
    &&& current < sps.max_frame_num()
    &&& forall|i: int| 0 <= i < refs.len() ==> (#[trigger] refs[i]).frame_num < sps.max_frame_num()
}

/// Whether a picture that others may refer to asks for one operation.
pub open spec fn asks_for(state: PictureView, op: Mmco) -> bool {
    &&& state.is_reference && !state.is_idr
    &&& state.marking.adaptive
    &&& state.marking.ops == seq![op]
}

/// Whether the last reference is the current picture, with a long-term index where it
/// has one.
pub open spec fn adds_current(
    refs: Seq<RefPicture>,
    slot: u8,
    state: PictureView,
    idx: Option<u32>,
) -> bool {
    &&& refs.len() > 0
    &&& refs.last().slot == slot
    &&& refs.last().frame_num == state.frame_num
    &&& refs.last().poc == (state.poc, state.poc)
    &&& refs.last().long_term == (idx is Some)
    &&& idx matches Some(idx) ==> refs.last().long_term_frame_idx == idx
}

proof fn lemma_max_frame_num(sps: SpsView)
    requires
        sps.log2_max_frame_num_minus4 <= 12,
    ensures
        16 <= sps.max_frame_num() <= 0x1_0000,
{
    vstd::arithmetic::power2::lemma2_to64();
    let n = (sps.log2_max_frame_num_minus4 + 4) as nat;
    if n > 4 {
        vstd::arithmetic::power2::lemma_pow2_strictly_increases(4, n);
    }
    if n < 16 {
        vstd::arithmetic::power2::lemma_pow2_strictly_increases(n, 16);
    }
}

/// A multiple of `m` smaller than `m` is zero.
proof fn lemma_small_multiple(x: int, m: int)
    requires
        m > 0,
        -m < x < m,
    ensures
        x % m == 0 <==> x == 0,
{
    if x > 0 {
        vstd::arithmetic::div_mod::lemma_small_mod(x as nat, m as nat);
    } else if x < 0 {
        vstd::arithmetic::div_mod::lemma_fundamental_div_mod_converse(x, m, -1, x + m);
    } else {
        vstd::arithmetic::div_mod::lemma_small_mod(0, m as nat);
    }
}

/// `FrameNumWrap` tells how long ago a reference was decoded, across a wrap too: it
/// lies as many frame numbers below that of the current picture.
pub proof fn law_wrap_counts_frames(r: RefPicture, current: u16, steps: int, sps: SpsView)
    requires
        sps.log2_max_frame_num_minus4 <= 12,
        r.frame_num < sps.max_frame_num(),
        current < sps.max_frame_num(),
        0 <= steps < sps.max_frame_num(),
    ensures
        frame_num_wrap(r.frame_num, current, sps.max_frame_num()) == current - steps
            <==> frames_ago(r, current, steps, sps.max_frame_num() as int),
{
    let max = sps.max_frame_num() as int;
    lemma_max_frame_num(sps);
    let x = current - steps - r.frame_num;
    let wrap = frame_num_wrap(r.frame_num, current, sps.max_frame_num());
    assert(-max < current - steps - wrap < max);
    lemma_small_multiple(current - steps - wrap, max);
    if r.frame_num > current {
        vstd::arithmetic::div_mod::lemma_mod_multiples_vanish(1, x, max);
        assert(max * 1 + x == current - steps - wrap);
    }
}

proof fn lemma_kept(
    after: Seq<RefPicture>,
    before: Seq<RefPicture>,
    selection: Selection,
    numbered: Seq<RefPicture>,
    keep: spec_fn(RefPicture) -> bool,
)
    requires
        numbered.len() == before.len(),
        forall|i: int| 0 <= i < before.len() ==> unchanged(before[i], #[trigger] numbered[i]),
        forall|i: int|
            0 <= i < before.len() ==> (keep(before[i]) <==> !selection.selects(
                #[trigger] numbered[i],
            )),
        after == unselected(numbered, selection),
    ensures
        keeps_only(after, before, keep),
{
    let places = lemma_unselected_places(numbered, selection);
    assert forall|i: int| 0 <= i < before.len() implies (keep(#[trigger] before[i])
        <==> places.contains(i)) by {
        assert(keep(before[i]) <==> !selection.selects(numbered[i]));
        if places.contains(i) {
            let k = choose|k: int| 0 <= k < places.len() && places[k] == i;
            assert(!selection.selects(numbered[places[k]]));
        }
    }
    assert(left_at(after, before, keep, places));
    assert forall|k: int| 0 <= k < after.len() implies unchanged(
        before[places[k]],
        #[trigger] after[k],
    ) by {
        assert(after[k] == numbered[places[k]]);
        assert(0 <= places[k] < before.len());
    }
}

proof fn lemma_one_op(dpb: DpbView, slot: u8, state: PictureView, sps: SpsView, op: Mmco)
    requires
        asks_for(state, op),
    ensures
        ({
            let numbered = DpbView {
                refs: refreshed(dpb.refs, state.frame_num, sps.max_frame_num()),
                ..dpb
            };
            let done = ended(dpb, slot, state, sps);
            &&& done.refs.drop_last() == marked_by(numbered, op, state.frame_num).refs
            &&& done.max_long_term_frame_idx == marked_by(
                numbered,
                op,
                state.frame_num,
            ).max_long_term_frame_idx
            &&& adds_current(done.refs, slot, state, current_idx(op, None))
        }),
{
    let numbered = DpbView {
        refs: refreshed(dpb.refs, state.frame_num, sps.max_frame_num()),
        ..dpb
    };
    let ops = state.marking.ops;
    assert(ops.len() == 1 && ops[0] == op);
    assert(ops.skip(1) =~= Seq::empty());
    let next = marked_by(numbered, op, state.frame_num);
    let idx = current_idx(op, None);
    assert(marked(next, ops.skip(1), state.frame_num, idx) == (next, idx));
    assert(ended(dpb, slot, state, sps).refs.drop_last() =~= next.refs);
}

/// MMCO 1 with difference `d` retires the short-term references that were decoded
/// `d + 1` frame numbers before the current picture, across a wrap too, and keeps
/// every other reference.
pub proof fn law_forget_short_goes_by_age(
    dpb: DpbView,
    slot: u8,
    state: PictureView,
    sps: SpsView,
    difference_of_pic_nums_minus1: u32,
)
    requires
        asks_for(state, Mmco::ForgetShort { difference_of_pic_nums_minus1 }),
        numbered_modulo(dpb.refs, state.frame_num, sps),
        difference_of_pic_nums_minus1 + 1 < sps.max_frame_num(),
    ensures
        keeps_only(
            ended(dpb, slot, state, sps).refs.drop_last(),
            dpb.refs,
            |r: RefPicture|
                r.long_term || !frames_ago(
                    r,
                    state.frame_num,
                    difference_of_pic_nums_minus1 + 1,
                    sps.max_frame_num() as int,
                ),
        ),
        adds_current(ended(dpb, slot, state, sps).refs, slot, state, None),
{
    let steps = difference_of_pic_nums_minus1 + 1;
    let keep = |r: RefPicture|
        r.long_term || !frames_ago(r, state.frame_num, steps, sps.max_frame_num() as int);
    let numbered = refreshed(dpb.refs, state.frame_num, sps.max_frame_num());
    let pic_num = pic_num_x(state.frame_num, difference_of_pic_nums_minus1) as i32;
    let selection = Selection::Short { pic_num };
    lemma_max_frame_num(sps);
    assert(pic_num == state.frame_num - steps);
    lemma_one_op(dpb, slot, state, sps, Mmco::ForgetShort { difference_of_pic_nums_minus1 });
    assert forall|i: int| 0 <= i < dpb.refs.len() implies (keep(dpb.refs[i])
        <==> !selection.selects(#[trigger] numbered[i])) by {
        law_wrap_counts_frames(dpb.refs[i], state.frame_num, steps, sps);
    }
    lemma_kept(
        ended(dpb, slot, state, sps).refs.drop_last(),
        dpb.refs,
        selection,
        numbered,
        keep,
    );
}

/// MMCO 2 retires the long-term references with the given index, and keeps every
/// other reference.
pub proof fn law_forget_long_goes_by_index(
    dpb: DpbView,
    slot: u8,
    state: PictureView,
    sps: SpsView,
    long_term_pic_num: u32,
)
    requires
        asks_for(state, Mmco::ForgetLong { long_term_pic_num }),
    ensures
        keeps_only(
            ended(dpb, slot, state, sps).refs.drop_last(),
            dpb.refs,
            |r: RefPicture| !(r.long_term && r.long_term_frame_idx == long_term_pic_num),
        ),
        adds_current(ended(dpb, slot, state, sps).refs, slot, state, None),
{
    let keep = |r: RefPicture| !(r.long_term && r.long_term_frame_idx == long_term_pic_num);
    lemma_one_op(dpb, slot, state, sps, Mmco::ForgetLong { long_term_pic_num });
    lemma_kept(
        ended(dpb, slot, state, sps).refs.drop_last(),
        dpb.refs,
        Selection::Long { idx: long_term_pic_num },
        refreshed(dpb.refs, state.frame_num, sps.max_frame_num()),
        keep,
    );
}

/// The first short-term reference that was decoded `steps` frame numbers before the
/// current picture.
pub open spec fn is_first_ago(
    refs: Seq<RefPicture>,
    i: int,
    current: u16,
    steps: int,
    max: int,
) -> bool {
    &&& !refs[i].long_term && frames_ago(refs[i], current, steps, max)
    &&& forall|j: int|
        0 <= j < i ==> (#[trigger] refs[j]).long_term || !frames_ago(refs[j], current, steps, max)
}

proof fn lemma_converted_first(refs: Seq<RefPicture>, pic_num: int, idx: u32, i: int)
    requires
        0 <= i < refs.len(),
    ensures
        converted(refs, pic_num, idx).len() == refs.len(),
        ({
            let first = !refs[i].long_term && refs[i].frame_num_wrap == pic_num && forall|j: int|
                0 <= j < i ==> (#[trigger] refs[j]).long_term || refs[j].frame_num_wrap
                    != pic_num;
            converted(refs, pic_num, idx)[i] == if first {
                RefPicture { long_term: true, long_term_frame_idx: idx, ..refs[i] }
            } else {
                refs[i]
            }
        }),
    decreases refs.len(),
{
    let rest = refs.skip(1);
    if !refs[0].long_term && refs[0].frame_num_wrap == pic_num {
    } else if i > 0 {
        lemma_converted_first(rest, pic_num, idx, i - 1);
        assert(converted(refs, pic_num, idx)[i] == converted(rest, pic_num, idx)[i - 1]);
        assert forall|j: int| 0 <= j < i && (forall|j: int|
            0 <= j < i - 1 ==> (#[trigger] rest[j]).long_term || rest[j].frame_num_wrap
                != pic_num) implies (#[trigger] refs[j]).long_term || refs[j].frame_num_wrap
            != pic_num by {
            if j > 0 {
                assert(refs[j] == rest[j - 1]);
            }
        }
        assert forall|j: int| 0 <= j < i - 1 && (forall|j: int|
            0 <= j < i ==> (#[trigger] refs[j]).long_term || refs[j].frame_num_wrap
                != pic_num) implies (#[trigger] rest[j]).long_term || rest[j].frame_num_wrap
            != pic_num by {
            assert(rest[j] == refs[j + 1]);
        }
    } else if rest.len() > 0 {
        lemma_converted_first(rest, pic_num, idx, 0);
    } else {
        assert(converted(rest, pic_num, idx) =~= rest);
    }
}

/// Whether the references that satisfy `keep` are left in the order they had, and no
/// others: the one at `chosen` as a long-term reference, the rest as they were.
pub open spec fn keeps_and_converts(
    after: Seq<RefPicture>,
    before: Seq<RefPicture>,
    keep: spec_fn(RefPicture) -> bool,
    chosen: spec_fn(int) -> bool,
    idx: u32,
) -> bool {
    exists|places: Seq<int>| #[trigger]
        left_at(after, before, keep, places) && forall|k: int|
            0 <= k < after.len() ==> if chosen(places[k]) {
                made_long_term(before[places[k]], #[trigger] after[k], idx)
            } else {
                unchanged(before[places[k]], after[k])
            }
}

/// MMCO 3 with difference `d` turns the reference that MMCO 1 with the same
/// difference retires into a long-term one: the short-term reference decoded `d + 1`
/// frame numbers before the current picture, across a wrap too. It displaces what
/// had its index. Every other reference stays as it was.
pub proof fn law_short_to_long_goes_by_age(
    dpb: DpbView,
    slot: u8,
    state: PictureView,
    sps: SpsView,
    difference_of_pic_nums_minus1: u32,
    long_term_frame_idx: u32,
)
    requires
        asks_for(
            state,
            Mmco::ShortToLong { difference_of_pic_nums_minus1, long_term_frame_idx },
        ),
        numbered_modulo(dpb.refs, state.frame_num, sps),
        difference_of_pic_nums_minus1 + 1 < sps.max_frame_num(),
    ensures
        keeps_and_converts(
            ended(dpb, slot, state, sps).refs.drop_last(),
            dpb.refs,
            |r: RefPicture| !(r.long_term && r.long_term_frame_idx == long_term_frame_idx),
            |i: int|
                is_first_ago(
                    dpb.refs,
                    i,
                    state.frame_num,
                    difference_of_pic_nums_minus1 + 1,
                    sps.max_frame_num() as int,
                ),
            long_term_frame_idx,
        ),
        adds_current(ended(dpb, slot, state, sps).refs, slot, state, None),
{
    let op = Mmco::ShortToLong { difference_of_pic_nums_minus1, long_term_frame_idx };
    let idx = long_term_frame_idx;
    let steps = difference_of_pic_nums_minus1 + 1;
    let max = sps.max_frame_num() as int;
    let current = state.frame_num;
    let keep = |r: RefPicture| !(r.long_term && r.long_term_frame_idx == long_term_frame_idx);
    let chosen = |i: int| is_first_ago(dpb.refs, i, current, steps, max);
    let numbered = refreshed(dpb.refs, current, sps.max_frame_num());
    let selection = Selection::Long { idx };
    let left = unselected(numbered, selection);
    let pic_num = pic_num_x(current, difference_of_pic_nums_minus1);
    lemma_max_frame_num(sps);
    assert(pic_num == current - steps);
    lemma_one_op(dpb, slot, state, sps, op);
    let after = ended(dpb, slot, state, sps).refs.drop_last();
    assert(after == converted(left, pic_num, idx));
    let places = lemma_unselected_places(numbered, selection);
    if left.len() > 0 {
        lemma_converted_first(left, pic_num, idx, 0);
    } else {
        assert(converted(left, pic_num, idx) =~= left);
    }
    assert forall|i: int| 0 <= i < dpb.refs.len() implies (keep(#[trigger] dpb.refs[i])
        <==> places.contains(i)) by {
        assert(keep(dpb.refs[i]) <==> !selection.selects(numbered[i]));
        if places.contains(i) {
            let k = choose|k: int| 0 <= k < places.len() && places[k] == i;
            assert(!selection.selects(numbered[places[k]]));
        }
    }
    assert(left_at(after, dpb.refs, keep, places));
    assert forall|i: int| 0 <= i < dpb.refs.len() implies (numbered[i].frame_num_wrap == pic_num
        <==> frames_ago(#[trigger] dpb.refs[i], current, steps, max)) by {
        law_wrap_counts_frames(dpb.refs[i], current, steps, sps);
    }
    assert forall|k: int| 0 <= k < after.len() implies if chosen(places[k]) {
        made_long_term(dpb.refs[places[k]], #[trigger] after[k], idx)
    } else {
        unchanged(dpb.refs[places[k]], after[k])
    } by {
        lemma_converted_first(left, pic_num, idx, k);
        let at = places[k];
        assert(0 <= at < dpb.refs.len());
        assert(left[k] == numbered[at]);
        if chosen(at) {
            assert forall|m: int| 0 <= m < k implies (#[trigger] left[m]).long_term
                || left[m].frame_num_wrap != pic_num by {
                assert(places[m] < places[k]);
                assert(left[m] == numbered[places[m]]);
                assert(dpb.refs[places[m]].long_term || !frames_ago(
                    dpb.refs[places[m]],
                    current,
                    steps,
                    max,
                ));
            }
        } else if !dpb.refs[at].long_term && frames_ago(dpb.refs[at], current, steps, max) {
            let j = choose|j: int|
                0 <= j < at && !(#[trigger] dpb.refs[j]).long_term && frames_ago(
                    dpb.refs[j],
                    current,
                    steps,
                    max,
                );
            assert(keep(dpb.refs[j]));
            let m = choose|m: int| 0 <= m < places.len() && places[m] == j;
            if m >= k {
                assert(m == k || places[k] < places[m]);
            }
            assert(left[m] == numbered[places[m]]);
        }
    }
}

/// MMCO 4 retires the long-term references at or above the bound, and keeps every
/// other reference.
pub proof fn law_bound_goes_by_index(
    dpb: DpbView,
    slot: u8,
    state: PictureView,
    sps: SpsView,
    max_long_term_frame_idx_plus1: u32,
)
    requires
        asks_for(state, Mmco::MaxLongTermIdx { max_long_term_frame_idx_plus1 }),
    ensures
        keeps_only(
            ended(dpb, slot, state, sps).refs.drop_last(),
            dpb.refs,
            |r: RefPicture|
                r.long_term ==> r.long_term_frame_idx < max_long_term_frame_idx_plus1,
        ),
        adds_current(ended(dpb, slot, state, sps).refs, slot, state, None),
        match ended(dpb, slot, state, sps).max_long_term_frame_idx {
            Some(max) => max + 1 == max_long_term_frame_idx_plus1,
            None => max_long_term_frame_idx_plus1 == 0,
        },
{
    let keep = |r: RefPicture|
        r.long_term ==> r.long_term_frame_idx < max_long_term_frame_idx_plus1;
    let max: Option<u32> = if max_long_term_frame_idx_plus1 == 0 {
        None
    } else {
        Some((max_long_term_frame_idx_plus1 - 1) as u32)
    };
    lemma_one_op(dpb, slot, state, sps, Mmco::MaxLongTermIdx { max_long_term_frame_idx_plus1 });
    lemma_kept(
        ended(dpb, slot, state, sps).refs.drop_last(),
        dpb.refs,
        Selection::LongAbove { max },
        refreshed(dpb.refs, state.frame_num, sps.max_frame_num()),
        keep,
    );
}

/// MMCO 5 retires every reference, and no long-term index is left.
pub proof fn law_forget_all_forgets_all(
    dpb: DpbView,
    slot: u8,
    state: PictureView,
    sps: SpsView,
)
    requires
        asks_for(state, Mmco::ForgetAll),
    ensures
        ended(dpb, slot, state, sps).refs.len() == 1,
        adds_current(ended(dpb, slot, state, sps).refs, slot, state, None),
        ended(dpb, slot, state, sps).max_long_term_frame_idx is None,
{
    lemma_one_op(dpb, slot, state, sps, Mmco::ForgetAll);
    let numbered = refreshed(dpb.refs, state.frame_num, sps.max_frame_num());
    let places = lemma_unselected_places(numbered, Selection::All);
    if places.len() > 0 {
        assert(!Selection::All.selects(numbered[places[0]]));
    }
    let refs = ended(dpb, slot, state, sps).refs;
    assert(refs.drop_last().len() == 0);
}

/// MMCO 6 makes the current picture a long-term reference. It displaces what had its
/// index, and every other reference stays.
pub proof fn law_current_to_long_takes_the_index(
    dpb: DpbView,
    slot: u8,
    state: PictureView,
    sps: SpsView,
    long_term_frame_idx: u32,
)
    requires
        asks_for(state, Mmco::CurrentToLong { long_term_frame_idx }),
    ensures
        keeps_only(
            ended(dpb, slot, state, sps).refs.drop_last(),
            dpb.refs,
            |r: RefPicture| !(r.long_term && r.long_term_frame_idx == long_term_frame_idx),
        ),
        adds_current(
            ended(dpb, slot, state, sps).refs,
            slot,
            state,
            Some(long_term_frame_idx),
        ),
{
    let keep = |r: RefPicture| !(r.long_term && r.long_term_frame_idx == long_term_frame_idx);
    lemma_one_op(dpb, slot, state, sps, Mmco::CurrentToLong { long_term_frame_idx });
    lemma_kept(
        ended(dpb, slot, state, sps).refs.drop_last(),
        dpb.refs,
        Selection::Long { idx: long_term_frame_idx },
        refreshed(dpb.refs, state.frame_num, sps.max_frame_num()),
        keep,
    );
}

/// Only MMCO 4, MMCO 5 and an IDR picture change which long-term indices there may
/// be.
pub proof fn law_other_operations_keep_the_bound(
    dpb: DpbView,
    slot: u8,
    state: PictureView,
    sps: SpsView,
    op: Mmco,
)
    requires
        asks_for(state, op),
        !(op is MaxLongTermIdx) && !(op is ForgetAll),
    ensures
        ended(dpb, slot, state, sps).max_long_term_frame_idx == dpb.max_long_term_frame_idx,
{
    lemma_one_op(dpb, slot, state, sps, op);
}

/// Operations are carried out one after the other, in the order they are sent.
pub proof fn law_operations_go_in_order(
    dpb: DpbView,
    ops: Seq<Mmco>,
    more: Seq<Mmco>,
    current: u16,
    idx: Option<u32>,
)
    ensures
        ({
            let (between, own) = marked(dpb, ops, current, idx);
            marked(dpb, ops + more, current, idx) == marked(between, more, current, own)
        }),
        marked(dpb, Seq::empty(), current, idx) == (dpb, idx),
    decreases ops.len(),
{
    if ops.len() == 0 {
        assert(ops + more =~= more);
    } else {
        assert((ops + more).skip(1) =~= ops.skip(1) + more);
        assert((ops + more)[0] == ops[0]);
        law_operations_go_in_order(
            marked_by(dpb, ops[0], current),
            ops.skip(1),
            more,
            current,
            current_idx(ops[0], idx),
        );
    }
}

/// An IDR picture is the only reference behind it: a long-term one with index zero
/// where it asks for that, and then that index is the only one there may be.
pub proof fn law_idr_is_the_only_reference(
    dpb: DpbView,
    slot: u8,
    state: PictureView,
    sps: SpsView,
)
    requires
        state.is_reference && state.is_idr,
    ensures
        ended(dpb, slot, state, sps).refs.len() == 1,
        adds_current(
            ended(dpb, slot, state, sps).refs,
            slot,
            state,
            if state.marking.long_term_reference_flag {
                Some(0)
            } else {
                None
            },
        ),
        ended(dpb, slot, state, sps).max_long_term_frame_idx == if state.marking.long_term_reference_flag {
            Some(0u32)
        } else {
            None
        },
{
}

/// How many frame numbers before the current picture a reference was decoded.
pub open spec fn age(r: RefPicture, current: u16, max: int) -> int {
    (current - r.frame_num) % max
}

/// Whether a picture that others may refer to leaves retirement to the window.
pub open spec fn slides(state: PictureView) -> bool {
    state.is_reference && !state.is_idr && !state.marking.adaptive
}

/// While there is room among the references that a stream may have, none of them
/// goes.
pub proof fn law_nothing_slides_while_there_is_room(
    dpb: DpbView,
    slot: u8,
    state: PictureView,
    sps: SpsView,
)
    requires
        slides(state),
        dpb.refs.len() == 0 || dpb.refs.len() < sps.frame.max_num_ref_frames,
    ensures
        keeps_only(
            ended(dpb, slot, state, sps).refs.drop_last(),
            dpb.refs,
            |r: RefPicture| true,
        ),
        adds_current(ended(dpb, slot, state, sps).refs, slot, state, None),
        ended(dpb, slot, state, sps).max_long_term_frame_idx == dpb.max_long_term_frame_idx,
{
    let keep = |r: RefPicture| true;
    let numbered = refreshed(dpb.refs, state.frame_num, sps.max_frame_num());
    let after = ended(dpb, slot, state, sps).refs.drop_last();
    assert(slid(DpbView { refs: numbered, ..dpb }, window(sps)).refs == numbered);
    assert(after =~= numbered);
    let places = Seq::new(after.len(), |k: int| k);
    assert forall|i: int| 0 <= i < dpb.refs.len() implies (keep(#[trigger] dpb.refs[i])
        <==> places.contains(i)) by {
        assert(places[i] == i);
    }
    assert(left_at(after, dpb.refs, keep, places));
}

/// Where there is no room, the window retires the one short-term reference that was
/// decoded the longest ago, and keeps every other reference.
pub proof fn law_window_retires_the_oldest(
    dpb: DpbView,
    slot: u8,
    state: PictureView,
    sps: SpsView,
    short: int,
)
    requires
        slides(state),
        numbered_modulo(dpb.refs, state.frame_num, sps),
        dpb.refs.len() == sps.frame.max_num_ref_frames,
        0 <= short < dpb.refs.len(),
        !dpb.refs[short].long_term,
    ensures
        exists|gone: int|
            {
                let after = ended(dpb, slot, state, sps).refs.drop_last();
                let left = dpb.refs.remove(gone);
                &&& 0 <= gone < dpb.refs.len()
                &&& !(#[trigger] dpb.refs[gone]).long_term
                &&& forall|i: int|
                    0 <= i < dpb.refs.len() && !(#[trigger] dpb.refs[i]).long_term ==> age(
                        dpb.refs[i],
                        state.frame_num,
                        sps.max_frame_num() as int,
                    ) <= age(dpb.refs[gone], state.frame_num, sps.max_frame_num() as int)
                &&& after.len() == left.len()
                &&& forall|i: int|
                    0 <= i < after.len() ==> unchanged(left[i], #[trigger] after[i])
            },
        adds_current(ended(dpb, slot, state, sps).refs, slot, state, None),
        ended(dpb, slot, state, sps).max_long_term_frame_idx == dpb.max_long_term_frame_idx,
{
    let max = sps.max_frame_num() as int;
    let current = state.frame_num;
    let numbered = refreshed(dpb.refs, current, sps.max_frame_num());
    let full = DpbView { refs: numbered, ..dpb };
    lemma_max_frame_num(sps);
    lemma_oldest(numbered);
    assert(!numbered[short].long_term);
    let gone = oldest(numbered)->0;
    let next = DpbView { refs: numbered.remove(gone), ..full.freed(numbered[gone].slot) };
    assert(slid(next, window(sps)) == next);
    assert(slid(full, window(sps)) == next);
    let after = ended(dpb, slot, state, sps).refs.drop_last();
    assert(after =~= numbered.remove(gone));
    assert forall|i: int| 0 <= i < dpb.refs.len() implies age(
        #[trigger] dpb.refs[i],
        current,
        max,
    ) == current - numbered[i].frame_num_wrap by {
        let x = current - dpb.refs[i].frame_num;
        if x >= 0 {
            vstd::arithmetic::div_mod::lemma_small_mod(x as nat, max as nat);
        } else {
            vstd::arithmetic::div_mod::lemma_fundamental_div_mod_converse(x, max, -1, x + max);
        }
    }
    let left = dpb.refs.remove(gone);
    assert forall|i: int| 0 <= i < after.len() implies unchanged(left[i], #[trigger] after[i]) by {
        let j = if i < gone { i } else { i + 1 };
        assert(after[i] == numbered[j]);
        assert(left[i] == dpb.refs[j]);
    }
    assert forall|i: int| 0 <= i < dpb.refs.len() && !(#[trigger] dpb.refs[i]).long_term implies age(
        dpb.refs[i],
        current,
        max,
    ) <= age(dpb.refs[gone], current, max) by {
        assert(!numbered[i].long_term);
    }
    assert(!dpb.refs[gone].long_term);
}

proof fn lemma_own_index(dpb: DpbView, ops: Seq<Mmco>, current: u16, idx: Option<u32>, i: int)
    requires
        -1 <= i < ops.len(),
        i >= 0 ==> ops[i] is CurrentToLong,
        forall|j: int| i < j < ops.len() ==> !(#[trigger] ops[j] is CurrentToLong),
    ensures
        marked(dpb, ops, current, idx).1 == if i < 0 {
            idx
        } else {
            Some(ops[i]->CurrentToLong_long_term_frame_idx)
        },
    decreases ops.len(),
{
    if ops.len() > 0 {
        let rest = ops.skip(1);
        assert forall|j: int| i - 1 < j < rest.len() && j >= 0 implies !(
        #[trigger] rest[j] is CurrentToLong) by {
            assert(rest[j] == ops[j + 1]);
        }
        lemma_own_index(
            marked_by(dpb, ops[0], current),
            rest,
            current,
            current_idx(ops[0], idx),
            if i < 0 {
                -1
            } else {
                i - 1
            },
        );
    }
}

/// The current picture is a long-term reference exactly where an operation makes it
/// one, under the index that the last of them gives, whatever operations follow.
pub proof fn law_current_keeps_its_index(
    dpb: DpbView,
    slot: u8,
    state: PictureView,
    sps: SpsView,
    i: int,
)
    requires
        state.is_reference && !state.is_idr && state.marking.adaptive,
        -1 <= i < state.marking.ops.len(),
        i >= 0 ==> state.marking.ops[i] is CurrentToLong,
        forall|j: int|
            i < j < state.marking.ops.len() ==> !(#[trigger] state.marking.ops[j] is CurrentToLong),
    ensures
        adds_current(
            ended(dpb, slot, state, sps).refs,
            slot,
            state,
            if i < 0 {
                None
            } else {
                Some(state.marking.ops[i]->CurrentToLong_long_term_frame_idx)
            },
        ),
{
    let numbered = DpbView {
        refs: refreshed(dpb.refs, state.frame_num, sps.max_frame_num()),
        ..dpb
    };
    lemma_own_index(numbered, state.marking.ops, state.frame_num, None, i);
}

/// Any marking whose numbers count modulo `MaxFrameNum` can be carried out.
pub proof fn law_ordinary_markings_fit(refs: Seq<RefPicture>, state: PictureView, sps: SpsView)
    requires
        numbered_modulo(refs, state.frame_num, sps),
        forall|i: int|
            0 <= i < state.marking.ops.len() ==> match #[trigger] state.marking.ops[i] {
                Mmco::ForgetShort { difference_of_pic_nums_minus1 } => difference_of_pic_nums_minus1
                    < sps.max_frame_num(),
                Mmco::ShortToLong { difference_of_pic_nums_minus1, .. } =>
                    difference_of_pic_nums_minus1 < sps.max_frame_num(),
                _ => true,
            },
    ensures
        marking_fits(refs, state, sps),
{
    lemma_max_frame_num(sps);
    assert forall|i: int| 0 <= i < state.marking.ops.len() implies op_fits(
        #[trigger] state.marking.ops[i],
        state.frame_num,
    ) by {
        let op = state.marking.ops[i];
    }
}

} // verus!
