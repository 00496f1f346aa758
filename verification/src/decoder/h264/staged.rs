//! What is staged for the driver is what was read from the stream.

use crate::decoder::common::{law_slices_are_found, slice_offset, staged, start_code};
use crate::decoder::h264::nal::{
    lemma_next_start_code, lemma_trimmed_end, nal_units, nal_view, next_start_code, start_code_len,
    trimmed_end, units, NalView,
};
use vstd::prelude::*;

verus! {

/// Whether bytes can be a NAL unit: there are some, no start code is among them,
/// and the last is not zero.
pub open spec fn is_unit(data: Seq<u8>) -> bool {
    &&& data.len() > 0
    &&& data.last() != 0
    &&& forall|i: int| 0 <= i < data.len() ==> #[trigger] start_code_len(data, i) == 0
}

/// Zero bytes.
pub open spec fn zeros(n: nat) -> Seq<u8> {
    Seq::new(n, |i: int| 0u8)
}

/// What is read from a stream can be staged: the NAL units of any stream hold no
/// start code and do not end in zero.
pub proof fn law_units_can_be_staged(data: Seq<u8>, from: int, i: int)
    requires
        0 <= from <= data.len(),
        0 <= i < nal_units(data, from).len(),
    ensures
        is_unit(nal_units(data, from)[i].1.data),
    decreases data.len() - from,
{
    let start = next_start_code(data, from);
    lemma_next_start_code(data, from);
    let payload = start + start_code_len(data, start);
    let end = next_start_code(data, payload);
    lemma_next_start_code(data, payload);
    lemma_trimmed_end(data, payload, end);
    let trimmed = trimmed_end(data, payload, end);
    if trimmed > payload {
        if i > 0 {
            law_units_can_be_staged(data, end, i - 1);
        } else {
            let unit = data.subrange(payload, trimmed);
            assert forall|k: int| 0 <= k < unit.len() implies #[trigger] start_code_len(unit, k)
                == 0 by {
                assert(start_code_len(data, payload + k) == 0);
            }
        }
    } else {
        law_units_can_be_staged(data, end, i);
    }
}

proof fn lemma_no_code_inside(bytes: Seq<u8>, at: int, unit: Seq<u8>, i: int)
    requires
        is_unit(unit),
        0 <= at,
        at + unit.len() <= bytes.len(),
        bytes.subrange(at, at + unit.len()) == unit,
        at <= i < at + unit.len(),
    ensures
        start_code_len(bytes, i) == 0,
{
    let k = i - at;
    let sub = bytes.subrange(at, at + unit.len());
    assert(forall|m: int| 0 <= m < unit.len() ==> #[trigger] sub[m] == bytes[at + m]);
    assert(start_code_len(unit, k) == 0);
    assert(unit[k] == bytes[i]);
    if k + 1 < unit.len() {
        assert(unit[k + 1] == bytes[i + 1]);
    }
    if k + 2 < unit.len() {
        assert(unit[k + 2] == bytes[i + 2]);
    }
    if k + 3 < unit.len() {
        assert(unit[k + 3] == bytes[i + 3]);
    }
}

proof fn lemma_next_is(data: Seq<u8>, from: int, to: int)
    requires
        0 <= from <= to <= data.len(),
        forall|i: int| from <= i < to ==> #[trigger] start_code_len(data, i) == 0,
        to < data.len() ==> start_code_len(data, to) > 0,
    ensures
        next_start_code(data, from) == to,
    decreases to - from,
{
    if from < to {
        assert(start_code_len(data, from) == 0);
        lemma_next_is(data, from + 1, to);
    }
}

proof fn lemma_trims_to(data: Seq<u8>, start: int, to: int, end: int)
    requires
        0 <= start < to <= end <= data.len(),
        data[to - 1] != 0,
        forall|i: int| to <= i < end ==> data[i] == 0,
    ensures
        trimmed_end(data, start, end) == to,
    decreases end - to,
{
    if to < end {
        lemma_trims_to(data, start, to, end - 1);
    }
}

proof fn lemma_reads_back(slices: Seq<Seq<u8>>, padding: nat, i: int)
    requires
        0 <= i <= slices.len(),
        forall|k: int| 0 <= k < slices.len() ==> is_unit(#[trigger] slices[k]),
    ensures
        ({
            let bytes = staged(slices) + zeros(padding);
            let from = if i < slices.len() {
                slice_offset(slices, i)
            } else {
                bytes.len() as int
            };
            units(nal_units(bytes, from)) == slices.skip(i).map_values(|s: Seq<u8>| nal_view(s))
        }),
    decreases slices.len() - i,
{
    let bytes = staged(slices) + zeros(padding);
    let n = slices.len() as int;
    if i == n {
        assert(nal_units(bytes, bytes.len() as int) =~= Seq::empty());
        assert(units(nal_units(bytes, bytes.len() as int)) =~= slices.skip(i).map_values(
            |s: Seq<u8>| nal_view(s),
        ));
    } else {
        let from = slice_offset(slices, i);
        let unit = slices[i];
        assert(is_unit(unit));
        law_slices_are_found(slices, zeros(padding), i);
        let payload = from + 3;
        let behind = payload + unit.len();
        let piece = bytes.subrange(from, behind);
        assert(piece == start_code() + unit);
        assert(bytes[from] == piece[0] && bytes[from + 1] == piece[1] && bytes[from + 2]
            == piece[2]);
        assert(start_code_len(bytes, from) == 3);
        assert(next_start_code(bytes, from) == from);
        assert(bytes.subrange(payload, behind) =~= unit) by {
            assert forall|m: int| 0 <= m < unit.len() implies bytes[payload + m] == #[trigger] unit[m]
                by {
                assert(piece[3 + m] == unit[m]);
            }
        }
        let end = if i + 1 < n {
            slice_offset(slices, i + 1)
        } else {
            bytes.len() as int
        };
        assert forall|k: int| payload <= k < end implies #[trigger] start_code_len(bytes, k) == 0 by {
            if k < behind {
                lemma_no_code_inside(bytes, payload, unit, k);
            } else {
                // Only zero bytes follow the last slice.
                assert(forall|m: int| behind <= m < bytes.len() ==> bytes[m] == 0);
            }
        }
        if i + 1 < n {
            law_slices_are_found(slices, zeros(padding), i + 1);
            let next = slices[i + 1];
            let code = bytes.subrange(end, end + 3 + next.len());
            assert(code == start_code() + next);
            assert(bytes[end] == code[0] && bytes[end + 1] == code[1] && bytes[end + 2] == code[2]);
            assert(start_code_len(bytes, end) == 3);
            assert(end < bytes.len());
        }
        lemma_next_is(bytes, payload, end);
        assert(bytes[behind - 1] == unit.last()) by {
            assert(piece[3 + unit.len() - 1] == unit[unit.len() - 1]);
        }
        lemma_trims_to(bytes, payload, behind, end);
        lemma_reads_back(slices, padding, i + 1);
        let rest = nal_units(bytes, end);
        assert(nal_units(bytes, from) == seq![(from, nal_view(unit))] + rest);
        assert(units(nal_units(bytes, from)) =~= seq![nal_view(unit)] + units(rest));
        assert(slices.skip(i).map_values(|s: Seq<u8>| nal_view(s)) =~= seq![nal_view(unit)]
            + slices.skip(i + 1).map_values(|s: Seq<u8>| nal_view(s)));
    }
}

/// What is staged for the driver reads back as the slices: the NAL units of the
/// staged bytes, padding and all, are the slices that were staged, in order.
pub proof fn law_staged_slices_read_back(slices: Seq<Seq<u8>>, padding: nat)
    requires
        forall|k: int| 0 <= k < slices.len() ==> is_unit(#[trigger] slices[k]),
    ensures
        units(nal_units(staged(slices) + zeros(padding), 0)) == slices.map_values(
            |s: Seq<u8>| nal_view(s),
        ),
{
    lemma_reads_back(slices, padding, 0);
    assert(slices.skip(0) =~= slices);
    assert(slices.take(0) =~= Seq::empty());
    if slices.len() == 0 {
        let bytes = staged(slices) + zeros(padding);
        assert(forall|m: int| 0 <= m < bytes.len() ==> bytes[m] == 0);
        lemma_next_is(bytes, 0, bytes.len() as int);
        assert(nal_units(bytes, 0) =~= Seq::empty());
    }
}

/// A byte stream (Annex B): each NAL unit behind a start code, which any number of
/// zero bytes may precede.
pub open spec fn streamed(list: Seq<(nat, Seq<u8>)>) -> Seq<u8>
    decreases list.len(),
{
    if list.len() == 0 {
        Seq::empty()
    } else {
        zeros(list[0].0) + start_code() + list[0].1 + streamed(list.skip(1))
    }
}

/// Where the start code of NAL unit `i` of a byte stream begins. A zero byte right
/// before it belongs to it.
pub open spec fn code_offset(list: Seq<(nat, Seq<u8>)>, i: int) -> int
    decreases i,
{
    if i <= 0 {
        if list[0].0 == 0 {
            0
        } else {
            list[0].0 - 1
        }
    } else {
        list[0].0 + 3 + list[0].1.len() + code_offset(list.skip(1), i - 1)
    }
}

proof fn lemma_same_from(data: Seq<u8>, a: int, b: int)
    requires
        0 <= a <= b <= data.len(),
        forall|i: int| a <= i < b ==> #[trigger] start_code_len(data, i) == 0,
    ensures
        nal_units(data, a) == nal_units(data, b),
{
    let next = next_start_code(data, b);
    lemma_next_start_code(data, b);
    assert forall|i: int| a <= i < next implies #[trigger] start_code_len(data, i) == 0 by {}
    lemma_next_is(data, a, next);
}

/// The first NAL unit of a byte stream from `from` on. Behind it come zero bytes up
/// to `next`, where the next start code is, or the end.
proof fn lemma_one_unit(data: Seq<u8>, from: int, gap: nat, unit: Seq<u8>, next: int)
    requires
        is_unit(unit),
        0 <= from,
        from + gap + 3 + unit.len() <= next <= data.len(),
        forall|m: int| from <= m < from + gap ==> data[m] == 0,
        data[from + gap] == 0 && data[from + gap + 1] == 0 && data[from + gap + 2] == 1,
        data.subrange(from + gap + 3, from + gap + 3 + unit.len()) == unit,
        forall|m: int| from + gap + 3 + unit.len() <= m < next ==> data[m] == 0,
        next < data.len() ==> start_code_len(data, next) > 0,
    ensures
        nal_units(data, from) == seq![
            (
                if gap == 0 {
                    from
                } else {
                    from + gap - 1
                },
                nal_view(unit),
            ),
        ] + nal_units(data, from + gap + 3 + unit.len()),
{
    let code = from + gap;
    let payload = code + 3;
    let behind = payload + unit.len();
    let start = if gap == 0 {
        code
    } else {
        code - 1
    };
    assert forall|i: int| from <= i < start implies #[trigger] start_code_len(data, i) == 0 by {
        assert(data[i + 2] == 0 && data[i + 3] == 0);
    }
    assert(start + start_code_len(data, start) == payload) by {
        if gap > 0 {
            assert(data[start] == 0 && data[start + 2] == 0);
        }
    }
    lemma_next_is(data, from, start);
    let end = next_start_code(data, payload);
    lemma_next_start_code(data, payload);
    assert forall|i: int| payload <= i < behind implies #[trigger] start_code_len(data, i) == 0 by {
        lemma_no_code_inside(data, payload, unit, i);
    }
    assert(behind <= end) by {
        if end < behind {
            assert(start_code_len(data, end) == 0);
        }
    }
    assert(end <= next);
    assert(data[behind - 1] == unit[unit.len() - 1]) by {
        assert(data.subrange(payload, behind)[unit.len() - 1] == data[behind - 1]);
    }
    lemma_trims_to(data, payload, behind, end);
    lemma_same_from(data, behind, end);
}

/// Where the first start code of a byte stream is, or its end.
proof fn lemma_first_code(pre: Seq<u8>, list: Seq<(nat, Seq<u8>)>, padding: nat) -> (next: int)
    ensures
        ({
            let data = pre + streamed(list) + zeros(padding);
            &&& pre.len() <= next <= data.len()
            &&& forall|m: int| pre.len() <= m < next ==> data[m] == 0
            &&& next < data.len() ==> start_code_len(data, next) > 0
        }),
{
    let data = pre + streamed(list) + zeros(padding);
    if list.len() == 0 {
        data.len() as int
    } else {
        let next = pre.len() as int + list[0].0;
        let rest = streamed(list.skip(1)) + zeros(padding);
        assert(data =~= pre + zeros(list[0].0) + start_code() + (list[0].1 + rest));
        assert(data[next] == 0 && data[next + 1] == 0 && data[next + 2] == 1);
        next
    }
}

/// The bytes of a byte stream up to the end of its first NAL unit.
spec fn through_unit(pre: Seq<u8>, gap: nat, unit: Seq<u8>) -> Seq<u8> {
    pre + zeros(gap) + start_code() + unit
}

proof fn lemma_through_unit(pre: Seq<u8>, gap: nat, unit: Seq<u8>, tail: Seq<u8>)
    ensures
        ({
            let data = through_unit(pre, gap, unit) + tail;
            let from = pre.len() as int;
            let payload = from + gap + 3;
            &&& through_unit(pre, gap, unit).len() == payload + unit.len()
            &&& forall|m: int| from <= m < from + gap ==> data[m] == 0
            &&& data[from + gap] == 0 && data[from + gap + 1] == 0 && data[from + gap + 2] == 1
            &&& data.subrange(payload, payload + unit.len()) == unit
        }),
{
    let data = through_unit(pre, gap, unit) + tail;
    let payload = pre.len() as int + gap + 3;
    assert(data.subrange(payload, payload + unit.len()) =~= unit);
}

proof fn lemma_streamed_unfolds(pre: Seq<u8>, list: Seq<(nat, Seq<u8>)>, padding: nat)
    requires
        list.len() > 0,
    ensures
        pre + streamed(list) + zeros(padding) == through_unit(pre, list[0].0, list[0].1) + (
        streamed(list.skip(1)) + zeros(padding)),
        pre + streamed(list) + zeros(padding) == through_unit(pre, list[0].0, list[0].1)
            + streamed(list.skip(1)) + zeros(padding),
{
    let data = pre + streamed(list) + zeros(padding);
    let head = through_unit(pre, list[0].0, list[0].1);
    assert(head + streamed(list.skip(1)) + zeros(padding) =~= head + (streamed(list.skip(1))
        + zeros(padding)));
    assert(data =~= head + streamed(list.skip(1)) + zeros(padding));
}

proof fn lemma_streamed(pre: Seq<u8>, list: Seq<(nat, Seq<u8>)>, padding: nat)
    requires
        forall|k: int| 0 <= k < list.len() ==> is_unit((#[trigger] list[k]).1),
    ensures
        nal_units(pre + streamed(list) + zeros(padding), pre.len() as int) == Seq::new(
            list.len(),
            |k: int| (pre.len() + code_offset(list, k), nal_view(list[k].1)),
        ),
    decreases list.len(),
{
    let data = pre + streamed(list) + zeros(padding);
    let from = pre.len() as int;
    let want = Seq::new(
        list.len(),
        |k: int| (pre.len() + code_offset(list, k), nal_view(list[k].1)),
    );
    if list.len() == 0 {
        assert(forall|m: int| from <= m < data.len() ==> data[m] == 0);
        lemma_next_is(data, from, data.len() as int);
        assert(nal_units(data, from) =~= want);
    } else {
        let gap = list[0].0;
        let unit = list[0].1;
        let rest = list.skip(1);
        assert(is_unit(list[0].1));
        assert forall|k: int| 0 <= k < rest.len() implies is_unit((#[trigger] rest[k]).1) by {
            assert(rest[k] == list[k + 1]);
        }
        let head = through_unit(pre, gap, unit);
        let behind = from + gap + 3 + unit.len();
        lemma_streamed_unfolds(pre, list, padding);
        lemma_through_unit(pre, gap, unit, streamed(rest) + zeros(padding));
        let next = lemma_first_code(head, rest, padding);
        lemma_streamed(head, rest, padding);
        lemma_one_unit(data, from, gap, unit, next);
        let later = nal_units(data, behind);
        let own = if gap == 0 {
            from
        } else {
            from + gap - 1
        };
        assert(nal_units(data, from) == seq![(own, nal_view(unit))] + later);
        lemma_offsets(from, list, later, own);
    }
}

proof fn lemma_offsets(
    from: int,
    list: Seq<(nat, Seq<u8>)>,
    later: Seq<(int, NalView)>,
    own: int,
)
    requires
        list.len() > 0,
        own == from + code_offset(list, 0),
        ({
            let behind = from + list[0].0 + 3 + list[0].1.len();
            later == Seq::new(
                list.skip(1).len(),
                |k: int| (behind + code_offset(list.skip(1), k), nal_view(list.skip(1)[k].1)),
            )
        }),
    ensures
        seq![(own, nal_view(list[0].1))] + later == Seq::new(
            list.len(),
            |k: int| (from + code_offset(list, k), nal_view(list[k].1)),
        ),
{
    let all = seq![(own, nal_view(list[0].1))] + later;
    let want = Seq::new(
        list.len(),
        |k: int| (from + code_offset(list, k), nal_view(list[k].1)),
    );
    assert forall|k: int| 0 <= k < want.len() implies #[trigger] all[k] == want[k] by {
        if k > 0 {
            assert(all[k] == later[k - 1]);
            assert(list.skip(1)[k - 1] == list[k]);
        }
    }
    assert(all =~= want);
}

/// A byte stream is taken apart into the NAL units that it was put together from, in
/// order, whichever start codes and zero bytes stand between them.
pub proof fn law_stream_is_taken_apart(list: Seq<(nat, Seq<u8>)>, padding: nat)
    requires
        forall|k: int| 0 <= k < list.len() ==> is_unit((#[trigger] list[k]).1),
    ensures
        nal_units(streamed(list) + zeros(padding), 0) == Seq::new(
            list.len(),
            |k: int| (code_offset(list, k), nal_view(list[k].1)),
        ),
{
    lemma_streamed(Seq::empty(), list, padding);
    assert(Seq::<u8>::empty() + streamed(list) + zeros(padding) =~= streamed(list) + zeros(
        padding,
    ));
    assert(Seq::new(
        list.len(),
        |k: int| (Seq::<u8>::empty().len() + code_offset(list, k), nal_view(list[k].1)),
    ) =~= Seq::new(list.len(), |k: int| (code_offset(list, k), nal_view(list[k].1))));
}

} // verus!
