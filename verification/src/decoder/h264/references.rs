//! What one picture does to the references: which of them stay, in which order, and
//! under which long-term indices.

use crate::decoder::h264::dpb::{
    converted, current_idx, ended, marked, marked_by, oldest, pic_num_x, refreshed, slid,
    unselected, window, DpbView, PictureView, RefPicture, Selection,
};
use crate::decoder::h264::syntax::{Mmco, SpsView};
use vstd::prelude::*;

verus! {

/// Whether one reference is another at a later time: the same picture in the same
/// slot, which may have become a long-term reference, but stays the one it is.
pub open spec fn carries_on(before: RefPicture, after: RefPicture) -> bool {
    &&& after.slot == before.slot
    &&& after.frame_num == before.frame_num
    &&& after.poc == before.poc
    &&& before.long_term ==> after.long_term && after.long_term_frame_idx
        == before.long_term_frame_idx
}

/// Whether places in a list of the given length ascend.
pub open spec fn ascend(places: Seq<int>, len: int) -> bool {
    &&& forall|i: int| 0 <= i < places.len() ==> 0 <= #[trigger] places[i] < len
    &&& forall|i: int, j: int|
        0 <= i < j < places.len() ==> #[trigger] places[i] < #[trigger] places[j]
}

/// Whether `places` says which of the references before each reference is.
pub open spec fn placed(
    after: Seq<RefPicture>,
    before: Seq<RefPicture>,
    places: Seq<int>,
) -> bool {
    &&& places.len() == after.len()
    &&& ascend(places, before.len() as int)
    &&& forall|i: int|
        0 <= i < after.len() ==> carries_on(before[places[i]], #[trigger] after[i])
}

/// Whether references are some of those before, in the same order.
pub open spec fn keeps_order(after: Seq<RefPicture>, before: Seq<RefPicture>) -> bool {
    exists|places: Seq<int>| placed(after, before, places)
}

proof fn lemma_ascending_len(places: Seq<int>, len: int)
    requires
        ascend(places, len),
        len >= 0,
    ensures
        places.len() <= len,
    decreases places.len(),
{
    if places.len() > 0 {
        let part = places.drop_last();
        assert forall|i: int| 0 <= i < part.len() implies 0 <= #[trigger] part[i]
            < places.last() by {
            assert(places[i] < places[places.len() - 1]);
        }
        assert forall|i: int, j: int| 0 <= i < j < part.len() implies #[trigger] part[i]
            < #[trigger] part[j] by {
            assert(places[i] < places[j]);
        }
        lemma_ascending_len(part, places.last());
    }
}

proof fn lemma_order_len(after: Seq<RefPicture>, before: Seq<RefPicture>)
    requires
        keeps_order(after, before),
    ensures
        after.len() <= before.len(),
{
    let places = choose|places: Seq<int>| placed(after, before, places);
    lemma_ascending_len(places, before.len() as int);
}

proof fn lemma_order_one_by_one(after: Seq<RefPicture>, before: Seq<RefPicture>)
    requires
        after.len() == before.len(),
        forall|i: int| 0 <= i < after.len() ==> carries_on(before[i], #[trigger] after[i]),
    ensures
        keeps_order(after, before),
{
    assert(placed(after, before, Seq::new(after.len(), |i: int| i)));
}

proof fn lemma_order_chains(
    last: Seq<RefPicture>,
    middle: Seq<RefPicture>,
    first: Seq<RefPicture>,
)
    requires
        keeps_order(last, middle),
        keeps_order(middle, first),
    ensures
        keeps_order(last, first),
{
    let upper = choose|places: Seq<int>| placed(last, middle, places);
    let lower = choose|places: Seq<int>| placed(middle, first, places);
    let places = Seq::new(last.len(), |i: int| lower[upper[i]]);
    assert forall|i: int| 0 <= i < last.len() implies carries_on(
        first[places[i]],
        #[trigger] last[i],
    ) && 0 <= places[i] < first.len() by {
        assert(carries_on(middle[upper[i]], last[i]));
        assert(0 <= upper[i] < middle.len());
        assert(carries_on(first[lower[upper[i]]], middle[upper[i]]));
        assert(0 <= lower[upper[i]] < first.len());
    }
    assert forall|i: int| 0 <= i < places.len() implies 0 <= #[trigger] places[i]
        < first.len() by {
        assert(carries_on(first[places[i]], last[i]));
    }
    assert forall|i: int, j: int| 0 <= i < j < places.len() implies #[trigger] places[i]
        < #[trigger] places[j] by {
        assert(upper[i] < upper[j]);
        assert(0 <= upper[i] && upper[j] < middle.len());
        assert(lower[upper[i]] < lower[upper[j]]);
    }
    assert(placed(last, first, places));
}

/// The references that are not selected are drawn in order from all of them, and
/// none of them is left out.
pub proof fn lemma_unselected_places(refs: Seq<RefPicture>, selection: Selection) -> (places: Seq<int>)
    ensures
        places.len() == unselected(refs, selection).len(),
        ascend(places, refs.len() as int),
        forall|i: int|
            0 <= i < places.len() ==> unselected(refs, selection)[i] == refs[#[trigger] places[i]]
                && !selection.selects(refs[places[i]]),
        forall|i: int|
            0 <= i < refs.len() && !selection.selects(#[trigger] refs[i]) ==> places.contains(i),
    decreases refs.len(),
{
    reveal(Seq::filter);
    let kept = unselected(refs, selection);
    if refs.len() == 0 {
        Seq::empty()
    } else {
        let part = refs.drop_last();
        let before = unselected(part, selection);
        let places = lemma_unselected_places(part, selection);
        assert forall|i: int| 0 <= i < places.len() implies before[i] == refs[#[trigger] places[i]]
            && !selection.selects(refs[places[i]]) by {
            assert(part[places[i]] == refs[places[i]]);
        }
        let all = if selection.selects(refs.last()) {
            assert(kept =~= before);
            places
        } else {
            assert(kept =~= before.push(refs.last()));
            places.push(refs.len() - 1)
        };
        assert forall|i: int| 0 <= i < refs.len() && !selection.selects(
            #[trigger] refs[i],
        ) implies all.contains(i) by {
            if i < part.len() {
                assert(part[i] == refs[i]);
                let k = choose|k: int| 0 <= k < places.len() && places[k] == i;
                assert(all[k] == i);
            } else {
                assert(all[places.len() as int] == i);
            }
        }
        all
    }
}

proof fn lemma_unselected_order(refs: Seq<RefPicture>, selection: Selection)
    ensures
        keeps_order(unselected(refs, selection), refs),
{
    let places = lemma_unselected_places(refs, selection);
    assert forall|i: int| 0 <= i < unselected(refs, selection).len() implies carries_on(
        refs[places[i]],
        #[trigger] unselected(refs, selection)[i],
    ) by {
        assert(0 <= places[i] < refs.len());
    }
    assert(placed(unselected(refs, selection), refs, places));
}

/// Turning a reference into a long-term one touches that one alone.
proof fn lemma_converted_one(refs: Seq<RefPicture>, pic_num: int, idx: u32)
    ensures
        ({
            let done = converted(refs, pic_num, idx);
            &&& done.len() == refs.len()
            &&& forall|i: int|
                0 <= i < refs.len() ==> (#[trigger] done[i]) == refs[i] || !refs[i].long_term
                    && done[i] == (RefPicture {
                    long_term: true,
                    long_term_frame_idx: idx,
                    ..refs[i]
                })
            &&& forall|i: int, j: int|
                0 <= i < j < refs.len() ==> (#[trigger] done[i]) == refs[i] || (#[trigger] done[j])
                    == refs[j]
        }),
    decreases refs.len(),
{
    if refs.len() > 0 {
        let done = converted(refs, pic_num, idx);
        if refs[0].long_term || refs[0].frame_num_wrap != pic_num {
            let rest = refs.skip(1);
            let later = converted(rest, pic_num, idx);
            lemma_converted_one(rest, pic_num, idx);
            assert forall|i: int| 0 <= i < refs.len() implies (#[trigger] done[i]) == refs[i]
                || !refs[i].long_term && done[i] == (RefPicture {
                long_term: true,
                long_term_frame_idx: idx,
                ..refs[i]
            }) by {
                if i > 0 {
                    assert(done[i] == later[i - 1]);
                    assert(rest[i - 1] == refs[i]);
                }
            }
            assert forall|i: int, j: int| 0 <= i < j < refs.len() implies (#[trigger] done[i])
                == refs[i] || (#[trigger] done[j]) == refs[j] by {
                if i > 0 {
                    assert(done[i] == later[i - 1] && done[j] == later[j - 1]);
                    assert(rest[i - 1] == refs[i] && rest[j - 1] == refs[j]);
                }
            }
        }
    }
}

proof fn lemma_marked_by_order(dpb: DpbView, op: Mmco, current: u16)
    ensures
        keeps_order(marked_by(dpb, op, current).refs, dpb.refs),
{
    match op {
        Mmco::ForgetShort { difference_of_pic_nums_minus1 } => {
            lemma_unselected_order(
                dpb.refs,
                Selection::Short {
                    pic_num: pic_num_x(current, difference_of_pic_nums_minus1) as i32,
                },
            );
        },
        Mmco::ForgetLong { long_term_pic_num } => {
            lemma_unselected_order(dpb.refs, Selection::Long { idx: long_term_pic_num });
        },
        Mmco::ShortToLong { difference_of_pic_nums_minus1, long_term_frame_idx } => {
            let selection = Selection::Long { idx: long_term_frame_idx };
            let left = unselected(dpb.refs, selection);
            let pic_num = pic_num_x(current, difference_of_pic_nums_minus1);
            let done = converted(left, pic_num, long_term_frame_idx);
            lemma_unselected_order(dpb.refs, selection);
            lemma_converted_one(left, pic_num, long_term_frame_idx);
            lemma_order_one_by_one(done, left);
            lemma_order_chains(done, left, dpb.refs);
        },
        Mmco::MaxLongTermIdx { max_long_term_frame_idx_plus1 } => {
            let max: Option<u32> = if max_long_term_frame_idx_plus1 == 0 {
                None
            } else {
                Some((max_long_term_frame_idx_plus1 - 1) as u32)
            };
            lemma_unselected_order(dpb.refs, Selection::LongAbove { max });
        },
        Mmco::ForgetAll => {
            lemma_unselected_order(dpb.refs, Selection::All);
        },
        Mmco::CurrentToLong { long_term_frame_idx } => {
            lemma_unselected_order(dpb.refs, Selection::Long { idx: long_term_frame_idx });
        },
    }
}

proof fn lemma_marked_order(dpb: DpbView, ops: Seq<Mmco>, current: u16, idx: Option<u32>)
    ensures
        keeps_order(marked(dpb, ops, current, idx).0.refs, dpb.refs),
    decreases ops.len(),
{
    if ops.len() == 0 {
        lemma_order_one_by_one(dpb.refs, dpb.refs);
    } else {
        let next = marked_by(dpb, ops[0], current);
        let idx = current_idx(ops[0], idx);
        lemma_marked_by_order(dpb, ops[0], current);
        lemma_marked_order(next, ops.skip(1), current, idx);
        lemma_order_chains(
            marked(next, ops.skip(1), current, idx).0.refs,
            next.refs,
            dpb.refs,
        );
    }
}

proof fn lemma_remove_order(refs: Seq<RefPicture>, at: int)
    requires
        0 <= at < refs.len(),
    ensures
        keeps_order(refs.remove(at), refs),
{
    let left = refs.remove(at);
    let places = Seq::new(
        left.len(),
        |k: int|
            if k < at {
                k
            } else {
                k + 1
            },
    );
    assert forall|k: int| 0 <= k < left.len() implies carries_on(
        refs[places[k]],
        #[trigger] left[k],
    ) by {
        assert(left[k] == refs[places[k]]);
    }
    assert(placed(left, refs, places));
}

proof fn lemma_slid_order(dpb: DpbView, max_refs: nat)
    ensures
        keeps_order(slid(dpb, max_refs).refs, dpb.refs),
    decreases dpb.refs.len(),
{
    let first = oldest(dpb.refs);
    if dpb.refs.len() >= max_refs && first is Some && 0 <= first->0 < dpb.refs.len() {
        let i = first->0;
        let next = DpbView { refs: dpb.refs.remove(i), ..dpb.freed(dpb.refs[i].slot) };
        lemma_remove_order(dpb.refs, i);
        lemma_slid_order(next, max_refs);
        assert(slid(dpb, max_refs) == slid(next, max_refs));
        lemma_order_chains(slid(next, max_refs).refs, next.refs, dpb.refs);
    } else {
        assert(slid(dpb, max_refs) == dpb);
        lemma_order_one_by_one(dpb.refs, dpb.refs);
    }
}

/// References keep their order: once a picture that others may refer to has ended,
/// it is the last reference, and those before it are some of the earlier ones, each
/// the same picture in the same slot, in the order they had. A reference that was a
/// long-term one keeps its index.
pub proof fn law_references_keep_their_order(
    dpb: DpbView,
    slot: u8,
    state: PictureView,
    sps: SpsView,
)
    requires
        state.is_reference,
    ensures
        ({
            let refs = ended(dpb, slot, state, sps).refs;
            &&& 1 <= refs.len() <= dpb.refs.len() + 1
            &&& refs.last().slot == slot
            &&& refs.last().frame_num == state.frame_num
            &&& refs.last().poc == (state.poc, state.poc)
            &&& keeps_order(refs.drop_last(), dpb.refs)
        }),
{
    let refs = ended(dpb, slot, state, sps).refs;
    let numbered = DpbView {
        refs: refreshed(dpb.refs, state.frame_num, sps.max_frame_num()),
        ..dpb
    };
    if state.is_idr {
        assert(refs.drop_last() =~= Seq::empty());
        assert(placed(refs.drop_last(), dpb.refs, Seq::empty()));
    } else {
        let kept = if state.marking.adaptive {
            marked(numbered, state.marking.ops, state.frame_num, None).0.refs
        } else {
            slid(numbered, window(sps)).refs
        };
        if state.marking.adaptive {
            lemma_marked_order(numbered, state.marking.ops, state.frame_num, None);
        } else {
            lemma_slid_order(numbered, window(sps));
        }
        lemma_order_one_by_one(numbered.refs, dpb.refs);
        lemma_order_chains(kept, numbered.refs, dpb.refs);
        assert(refs.drop_last() =~= kept);
    }
    lemma_order_len(refs.drop_last(), dpb.refs);
}

/// Whether no two long-term references share an index.
pub open spec fn distinct_indices(refs: Seq<RefPicture>) -> bool {
    forall|i: int, j: int|
        0 <= i < j < refs.len() && (#[trigger] refs[i]).long_term && (
        #[trigger] refs[j]).long_term ==> refs[i].long_term_frame_idx
            != refs[j].long_term_frame_idx
}

/// Whether no long-term reference has the given index.
pub open spec fn index_is_free(refs: Seq<RefPicture>, idx: u32) -> bool {
    forall|i: int|
        0 <= i < refs.len() && (#[trigger] refs[i]).long_term ==> refs[i].long_term_frame_idx
            != idx
}

/// Whether an operation gives an index to an earlier reference.
pub open spec fn gives_index(op: Mmco, idx: u32) -> bool {
    op matches Mmco::ShortToLong { long_term_frame_idx, .. } && long_term_frame_idx == idx
}

/// Whether no operation gives an earlier reference the index that an operation
/// before it gave to the current picture.
pub open spec fn leaves_current_its_index(ops: Seq<Mmco>) -> bool {
    forall|i: int, j: int|
        0 <= i < j < ops.len() ==> (#[trigger] ops[i] matches Mmco::CurrentToLong {
            long_term_frame_idx,
        } ==> !gives_index(#[trigger] ops[j], long_term_frame_idx))
}

proof fn lemma_without_indices(refs: Seq<RefPicture>, selection: Selection)
    ensures
        distinct_indices(refs) ==> distinct_indices(unselected(refs, selection)),
        forall|idx: u32| #[trigger]
            index_is_free(refs, idx) ==> index_is_free(unselected(refs, selection), idx),
        selection matches Selection::Long { idx } ==> index_is_free(
            unselected(refs, selection),
            idx,
        ),
        forall|i: int|
            0 <= i < unselected(refs, selection).len() ==> !selection.selects(
                #[trigger] unselected(refs, selection)[i],
            ),
{
    let kept = unselected(refs, selection);
    let places = lemma_unselected_places(refs, selection);
    assert forall|i: int| 0 <= i < kept.len() implies !selection.selects(
        #[trigger] kept[i],
    ) && kept[i] == refs[places[i]] && 0 <= places[i] < refs.len() by {
        assert(0 <= places[i] < refs.len());
    }
    if distinct_indices(refs) {
        assert forall|i: int, j: int|
            0 <= i < j < kept.len() && (#[trigger] kept[i]).long_term && (
            #[trigger] kept[j]).long_term implies kept[i].long_term_frame_idx
            != kept[j].long_term_frame_idx by {
            assert(places[i] < places[j]);
            assert(refs[places[i]] == kept[i] && refs[places[j]] == kept[j]);
        }
    }
}

proof fn lemma_marked_by_indices(dpb: DpbView, op: Mmco, current: u16)
    requires
        distinct_indices(dpb.refs),
    ensures
        distinct_indices(marked_by(dpb, op, current).refs),
        forall|idx: u32| #[trigger]
            index_is_free(dpb.refs, idx) && !gives_index(op, idx) ==> index_is_free(
                marked_by(dpb, op, current).refs,
                idx,
            ),
        op matches Mmco::CurrentToLong { long_term_frame_idx } ==> index_is_free(
            marked_by(dpb, op, current).refs,
            long_term_frame_idx,
        ),
{
    match op {
        Mmco::ForgetShort { difference_of_pic_nums_minus1 } => {
            lemma_without_indices(
                dpb.refs,
                Selection::Short {
                    pic_num: pic_num_x(current, difference_of_pic_nums_minus1) as i32,
                },
            );
        },
        Mmco::ForgetLong { long_term_pic_num } => {
            lemma_without_indices(dpb.refs, Selection::Long { idx: long_term_pic_num });
        },
        Mmco::ShortToLong { difference_of_pic_nums_minus1, long_term_frame_idx } => {
            let selection = Selection::Long { idx: long_term_frame_idx };
            let left = unselected(dpb.refs, selection);
            let pic_num = pic_num_x(current, difference_of_pic_nums_minus1);
            let done = converted(left, pic_num, long_term_frame_idx);
            lemma_without_indices(dpb.refs, selection);
            lemma_converted_one(left, pic_num, long_term_frame_idx);
            assert forall|i: int, j: int|
                0 <= i < j < done.len() && (#[trigger] done[i]).long_term && (
                #[trigger] done[j]).long_term implies done[i].long_term_frame_idx
                != done[j].long_term_frame_idx by {
                assert(done[i] == left[i] || done[j] == left[j]);
            }
            assert forall|idx: u32| #[trigger]
                index_is_free(dpb.refs, idx) && !gives_index(op, idx) implies index_is_free(
                done,
                idx,
            ) by {
                assert(index_is_free(left, idx));
            }
        },
        Mmco::MaxLongTermIdx { max_long_term_frame_idx_plus1 } => {
            let max: Option<u32> = if max_long_term_frame_idx_plus1 == 0 {
                None
            } else {
                Some((max_long_term_frame_idx_plus1 - 1) as u32)
            };
            lemma_without_indices(dpb.refs, Selection::LongAbove { max });
        },
        Mmco::ForgetAll => {
            lemma_without_indices(dpb.refs, Selection::All);
        },
        Mmco::CurrentToLong { long_term_frame_idx } => {
            lemma_without_indices(dpb.refs, Selection::Long { idx: long_term_frame_idx });
        },
    }
}

proof fn lemma_marked_indices(dpb: DpbView, ops: Seq<Mmco>, current: u16, idx: Option<u32>)
    requires
        distinct_indices(dpb.refs),
        leaves_current_its_index(ops),
        idx matches Some(idx) ==> index_is_free(dpb.refs, idx) && forall|i: int|
            0 <= i < ops.len() ==> !gives_index(#[trigger] ops[i], idx),
    ensures
        distinct_indices(marked(dpb, ops, current, idx).0.refs),
        marked(dpb, ops, current, idx).1 matches Some(own) ==> index_is_free(
            marked(dpb, ops, current, idx).0.refs,
            own,
        ),
    decreases ops.len(),
{
    if ops.len() > 0 {
        let op = ops[0];
        let rest = ops.skip(1);
        let next = marked_by(dpb, op, current);
        let own = current_idx(op, idx);
        lemma_marked_by_indices(dpb, op, current);
        assert forall|i: int, j: int| 0 <= i < j < rest.len() implies (
        #[trigger] rest[i] matches Mmco::CurrentToLong { long_term_frame_idx } ==> !gives_index(
            #[trigger] rest[j],
            long_term_frame_idx,
        )) by {
            assert(ops[i + 1] == rest[i] && ops[j + 1] == rest[j]);
        }
        if let Some(own) = own {
            assert forall|i: int| 0 <= i < rest.len() implies !gives_index(
                #[trigger] rest[i],
                own,
            ) by {
                assert(ops[i + 1] == rest[i]);
                assert(ops[0] == op);
            }
        }
        lemma_marked_indices(next, rest, current, own);
    }
}

proof fn lemma_slid_indices(dpb: DpbView, max_refs: nat)
    requires
        distinct_indices(dpb.refs),
    ensures
        distinct_indices(slid(dpb, max_refs).refs),
    decreases dpb.refs.len(),
{
    if let Some(i) = oldest(dpb.refs) {
        if dpb.refs.len() >= max_refs && 0 <= i < dpb.refs.len() {
            let next = DpbView { refs: dpb.refs.remove(i), ..dpb.freed(dpb.refs[i].slot) };
            assert forall|a: int, b: int|
                0 <= a < b < next.refs.len() && (#[trigger] next.refs[a]).long_term && (
                #[trigger] next.refs[b]).long_term implies next.refs[a].long_term_frame_idx
                != next.refs[b].long_term_frame_idx by {
                let x = if a < i { a } else { a + 1 };
                let y = if b < i { b } else { b + 1 };
                assert(next.refs[a] == dpb.refs[x] && next.refs[b] == dpb.refs[y]);
            }
            lemma_slid_indices(next, max_refs);
        }
    }
}

/// A long-term index is unique: where no two references share one before a picture,
/// none do after it, whatever marking it asks for, unless its operations give the
/// current picture an index and then give the same index away.
pub proof fn law_long_term_indices_stay_unique(
    dpb: DpbView,
    slot: u8,
    state: PictureView,
    sps: SpsView,
)
    requires
        distinct_indices(dpb.refs),
        state.is_reference && !state.is_idr && state.marking.adaptive ==> leaves_current_its_index(
            state.marking.ops,
        ),
    ensures
        distinct_indices(ended(dpb, slot, state, sps).refs),
{
    if state.is_reference && !state.is_idr {
        let numbered = DpbView {
            refs: refreshed(dpb.refs, state.frame_num, sps.max_frame_num()),
            ..dpb
        };
        assert forall|i: int, j: int|
            0 <= i < j < numbered.refs.len() && (#[trigger] numbered.refs[i]).long_term && (
            #[trigger] numbered.refs[j]).long_term implies numbered.refs[i].long_term_frame_idx
            != numbered.refs[j].long_term_frame_idx by {
            assert(dpb.refs[i].long_term && dpb.refs[j].long_term);
        }
        if state.marking.adaptive {
            lemma_marked_indices(numbered, state.marking.ops, state.frame_num, None);
        } else {
            lemma_slid_indices(numbered, window(sps));
        }
    }
}

proof fn lemma_marked_last(dpb: DpbView, ops: Seq<Mmco>, current: u16, idx: Option<u32>)
    requires
        ops.len() > 0,
    ensures
        marked(dpb, ops, current, idx).0 == marked_by(
            marked(dpb, ops.drop_last(), current, idx).0,
            ops.last(),
            current,
        ),
    decreases ops.len(),
{
    let next = marked_by(dpb, ops[0], current);
    let own = current_idx(ops[0], idx);
    if ops.len() == 1 {
        assert(ops.skip(1) =~= Seq::empty());
        assert(ops.drop_last() =~= Seq::empty());
        assert(marked(next, ops.skip(1), current, own).0 == next);
    } else {
        assert(ops.skip(1).drop_last() =~= ops.drop_last().skip(1));
        assert(ops.drop_last()[0] == ops[0]);
        lemma_marked_last(next, ops.skip(1), current, own);
    }
}

/// A picture whose last operation bounds the long-term indices leaves no earlier
/// long-term reference at or above the bound, and none at all where the bound is
/// zero.
pub proof fn law_long_term_indices_are_bounded(
    dpb: DpbView,
    slot: u8,
    state: PictureView,
    sps: SpsView,
    bound: u32,
)
    requires
        state.is_reference && !state.is_idr && state.marking.adaptive,
        state.marking.ops.len() > 0,
        state.marking.ops.last() == (Mmco::MaxLongTermIdx { max_long_term_frame_idx_plus1: bound }),
    ensures
        forall|i: int|
            0 <= i < ended(dpb, slot, state, sps).refs.len() - 1 && (#[trigger] ended(
                dpb,
                slot,
                state,
                sps,
            ).refs[i]).long_term ==> ended(dpb, slot, state, sps).refs[i].long_term_frame_idx
                < bound,
{
    let ops = state.marking.ops;
    let numbered = DpbView {
        refs: refreshed(dpb.refs, state.frame_num, sps.max_frame_num()),
        ..dpb
    };
    lemma_marked_last(numbered, ops, state.frame_num, None);
    let before = marked(numbered, ops.drop_last(), state.frame_num, None).0;
    let max: Option<u32> = if bound == 0 {
        None
    } else {
        Some((bound - 1) as u32)
    };
    let selection = Selection::LongAbove { max };
    lemma_without_indices(before.refs, selection);
    let kept = unselected(before.refs, selection);
    let refs = ended(dpb, slot, state, sps).refs;
    assert(refs.drop_last() =~= kept);
    assert forall|i: int| 0 <= i < refs.len() - 1 && (#[trigger] refs[i]).long_term implies
        refs[i].long_term_frame_idx < bound by {
        assert(refs[i] == kept[i]);
        assert(!selection.selects(kept[i]));
    }
}

} // verus!
