//! Where the coded pictures of an Annex B stream begin.

use crate::decoder::bitreader::{
    bits_of, byte_bits, cursor, leading_zeros, lemma_uint_bound, payload_bits, unescape,
};
use crate::decoder::h264::nal::{
    is_slice_type, iter_nal_units_with_offsets, lemma_next_start_code, lemma_trimmed_end, nal_list,
    nal_units, nal_view, next_start_code, start_code_len, trimmed_end, units, NalUnit, NalView,
};
use vstd::arithmetic::power2::{
    lemma2_to64, lemma_pow2_pos, lemma_pow2_strictly_increases, lemma_pow2_unfold,
};
use vstd::prelude::*;

verus! {

/// Whether a NAL unit is the first slice of a coded picture. `first_mb_in_slice`
/// is the leading `ue(v)` of the slice header; it is zero, encoded as a leading
/// one bit, exactly at a picture start.
pub open spec fn begins_picture(nal: NalView) -> bool {
    is_slice_type(nal.nal_type) && nal.data.len() > 1 && nal.data[1] & 0x80 != 0
}

/// The offsets at which the pictures of a list of NAL units begin. Parameter
/// sets, SEI and delimiters belong to the picture whose slices follow them;
/// `pending` is the offset of the first of those that await their picture.
pub open spec fn starts_of(nals: Seq<(int, NalView)>, pending: Option<int>) -> Seq<int>
    decreases nals.len(),
{
    if nals.len() == 0 {
        Seq::empty()
    } else {
        let (offset, nal) = nals[0];
        let start = match pending {
            Some(earlier) => earlier,
            None => offset,
        };
        if !is_slice_type(nal.nal_type) {
            starts_of(nals.skip(1), Some(start))
        } else if begins_picture(nal) {
            seq![start] + starts_of(nals.skip(1), None)
        } else {
            starts_of(nals.skip(1), None)
        }
    }
}

/// The offsets at which the coded pictures of a stream begin.
pub open spec fn start_offsets(stream: Seq<u8>) -> Seq<int> {
    starts_of(nal_units(stream, 0), None)
}

/// How many leading bytes of a stream hold pictures known to be complete: those
/// before the last picture start.
pub open spec fn complete_len(stream: Seq<u8>) -> int {
    if start_offsets(stream).len() > 0 {
        start_offsets(stream).last()
    } else {
        0
    }
}

/// The integers that a sequence of machine integers holds.
pub open spec fn as_ints(offsets: Seq<usize>) -> Seq<int> {
    Seq::new(offsets.len(), |i: int| offsets[i] as int)
}

/// Byte offsets at which each coded picture begins in an Annex B stream.
///
/// A new picture begins at each VCL NAL whose `first_mb_in_slice` is 0.
/// Parameter sets, SEI and access unit delimiters are attached to the picture
/// that follows them, so the offsets carve the stream up without loss.
///
/// This is what tells a byte-stream feed where it may cut: everything before
/// the last offset is complete, everything from it onward may still be waiting
/// for slices that have not arrived.
pub fn picture_starts(stream: &[u8]) -> (starts: Vec<usize>)
    ensures
        as_ints(starts@) == start_offsets(stream@),
{
    let nals = iter_nal_units_with_offsets(stream);
    let ghost list = nal_list(nals@);
    let mut starts: Vec<usize> = Vec::new();
    let mut pending_start: Option<usize> = None;
    let mut i: usize = 0;
    assert(list.skip(0) =~= list);
    assert(as_ints(starts@) + starts_of(list, None) =~= starts_of(list, None));
    while i < nals.len()
        invariant
            i <= nals@.len(),
            list == nal_list(nals@),
            list == nal_units(stream@, 0),
            as_ints(starts@) + starts_of(
                list.skip(i as int),
                match pending_start {
                    Some(offset) => Some(offset as int),
                    None => None,
                },
            ) == starts_of(list, None),
        decreases nals@.len() - i,
    {
        let (offset, nal): (usize, NalUnit) = nals[i];
        let ghost before = as_ints(starts@);
        assert(list.skip(i as int)[0] == (offset as int, nal@));
        assert(list.skip(i as int).skip(1) =~= list.skip(i + 1));
        if nal.nal_type.is_slice() {
            let first_mb_is_zero = nal.data.len() > 1 && nal.data[1] & 0x80 != 0;
            if first_mb_is_zero {
                let start: usize = match pending_start {
                    Some(earlier) => earlier,
                    None => offset,
                };
                starts.push(start);
                assert(as_ints(starts@) =~= before.push(start as int));
                assert(before + (seq![start as int] + starts_of(list.skip(i + 1), None))
                    =~= before.push(start as int) + starts_of(list.skip(i + 1), None));
            }
            pending_start = None;
        } else if pending_start.is_none() {
            // Parameter sets / SEI / AUD belong to the picture they precede.
            pending_start = Some(offset);
        }
        i = i + 1;
    }
    assert(as_ints(starts@) + Seq::empty() =~= as_ints(starts@));
    starts
}

/// How many leading bytes of `buffer` hold pictures known to be complete.
///
/// A coded picture is only known to have ended once the next one starts, so
/// everything from the last picture start onward may still be waiting for
/// slices. Zero means nothing in `buffer` can be decoded yet.
pub fn complete_prefix(buffer: &[u8]) -> (len: usize)
    ensures
        len == complete_len(buffer@),
        len <= buffer@.len(),
{
    let starts = picture_starts(buffer);
    proof {
        lemma_starts(buffer@, 0, None);
    }
    if starts.len() == 0 {
        0
    } else {
        assert(as_ints(starts@).last() == starts@.last());
        starts[starts.len() - 1]
    }
}

/// Whether picture starts come in strictly increasing order, none lies before
/// `low` but for a first one that is `pending`, and all lie before `high`.
pub open spec fn ascending(starts: Seq<int>, pending: Option<int>, low: int, high: int) -> bool {
    &&& forall|i: int|
        0 <= i < starts.len() ==> {
            ||| i == 0 && pending == Some(#[trigger] starts[i])
            ||| low <= starts[i] < high
        }
    &&& forall|i: int, j: int|
        0 <= i < j < starts.len() ==> #[trigger] starts[i] < #[trigger] starts[j]
}

/// The picture starts among the NAL units from `from` on: `pending` may be the
/// first, and they come in strictly increasing order.
proof fn lemma_starts(data: Seq<u8>, from: int, pending: Option<int>)
    requires
        0 <= from <= data.len(),
        pending matches Some(earlier) ==> earlier < next_start_code(data, from),
    ensures
        ascending(
            starts_of(nal_units(data, from), pending),
            pending,
            next_start_code(data, from),
            data.len() as int,
        ),
    decreases data.len() - from,
{
    let start = next_start_code(data, from);
    lemma_next_start_code(data, from);
    if from < data.len() && start < data.len() {
        let payload = start + start_code_len(data, start);
        let end = next_start_code(data, payload);
        let trimmed = trimmed_end(data, payload, end);
        let rest = nal_units(data, end);
        lemma_next_start_code(data, payload);
        lemma_end_is_start(data, payload);
        if trimmed > payload {
            let nal = nal_view(data.subrange(payload, trimmed));
            assert((seq![(start, nal)] + rest).skip(1) =~= rest);
            assert((seq![(start, nal)] + rest)[0] == (start, nal));
            let first = match pending {
                Some(earlier) => earlier,
                None => start,
            };
            if is_slice_type(nal.nal_type) {
                lemma_starts(data, end, None);
                let later = starts_of(rest, None);
                let starts = seq![first] + later;
                assert forall|i: int| 0 < i < starts.len() implies #[trigger] starts[i] == later[i
                    - 1] by {}
                assert forall|i: int, j: int| 0 <= i < j < starts.len() implies #[trigger] starts[i]
                    < #[trigger] starts[j] by {
                    assert(starts[j] == later[j - 1]);
                }
            } else {
                lemma_starts(data, end, Some(first));
            }
        } else {
            lemma_starts(data, end, pending);
        }
    }
}

/// The first start code is itself the first start code from its offset on.
proof fn lemma_end_is_start(data: Seq<u8>, from: int)
    requires
        0 <= from <= data.len(),
    ensures
        next_start_code(data, next_start_code(data, from)) == next_start_code(data, from),
{
    lemma_next_start_code(data, from);
}

/// The same NAL units, `k` bytes further on.
spec fn nals_shifted(nals: Seq<(int, NalView)>, k: int) -> Seq<(int, NalView)> {
    Seq::new(nals.len(), |i: int| (nals[i].0 + k, nals[i].1))
}

/// Offsets counted from a point `k` bytes earlier.
pub open spec fn shifted(offsets: Seq<int>, k: int) -> Seq<int> {
    Seq::new(offsets.len(), |i: int| offsets[i] + k)
}

proof fn lemma_skip_next(data: Seq<u8>, k: int, from: int)
    requires
        0 <= k,
        0 <= from,
        from + k <= data.len(),
    ensures
        next_start_code(data.skip(k), from) + k == next_start_code(data, from + k),
    decreases data.len() - k - from,
{
    if from + k < data.len() && start_code_len(data, from + k) == 0 {
        lemma_skip_next(data, k, from + 1);
    }
}

proof fn lemma_skip_trimmed(data: Seq<u8>, k: int, start: int, end: int)
    requires
        0 <= k,
        0 <= start <= end,
        end + k <= data.len(),
    ensures
        trimmed_end(data.skip(k), start, end) + k == trimmed_end(data, start + k, end + k),
    decreases end - start,
{
    if end > start && data[end + k - 1] == 0 {
        lemma_skip_trimmed(data, k, start, end - 1);
    }
}

proof fn lemma_skip_nals(data: Seq<u8>, k: int, from: int)
    requires
        0 <= k,
        0 <= from,
        from + k <= data.len(),
    ensures
        nals_shifted(nal_units(data.skip(k), from), k) == nal_units(data, from + k),
    decreases data.len() - k - from,
{
    let tail = data.skip(k);
    let start = next_start_code(tail, from);
    lemma_skip_next(data, k, from);
    lemma_next_start_code(tail, from);
    if from < tail.len() && start < tail.len() {
        let payload = start + start_code_len(tail, start);
        let end = next_start_code(tail, payload);
        let trimmed = trimmed_end(tail, payload, end);
        lemma_next_start_code(tail, payload);
        lemma_skip_next(data, k, payload);
        lemma_skip_trimmed(data, k, payload, end);
        lemma_trimmed_end(tail, payload, end);
        lemma_skip_nals(data, k, end);
        assert(tail.subrange(payload, trimmed) =~= data.subrange(payload + k, trimmed + k));
        assert(nals_shifted(nal_units(tail, from), k) =~= nal_units(data, from + k));
    } else {
        assert(nals_shifted(nal_units(tail, from), k) =~= nal_units(data, from + k));
    }
}

proof fn lemma_shifted_starts(nals: Seq<(int, NalView)>, k: int, pending: Option<int>)
    ensures
        starts_of(
            nals_shifted(nals, k),
            match pending {
                Some(earlier) => Some(earlier + k),
                None => None,
            },
        ) == shifted(starts_of(nals, pending), k),
    decreases nals.len(),
{
    if nals.len() > 0 {
        assert(nals_shifted(nals, k).skip(1) =~= nals_shifted(nals.skip(1), k));
        let (offset, nal) = nals[0];
        let start = match pending {
            Some(earlier) => earlier,
            None => offset,
        };
        if is_slice_type(nal.nal_type) {
            lemma_shifted_starts(nals.skip(1), k, None);
            assert(shifted(seq![start] + starts_of(nals.skip(1), None), k) =~= seq![start + k]
                + shifted(starts_of(nals.skip(1), None), k));
        } else {
            lemma_shifted_starts(nals.skip(1), k, Some(start));
        }
    } else {
        assert(shifted(starts_of(nals, pending), k) =~= Seq::empty());
    }
}

proof fn lemma_take_code(data: Seq<u8>, n: int, i: int)
    requires
        0 <= i,
        0 <= n <= data.len(),
    ensures
        start_code_len(data.take(n), i) > 0 ==> start_code_len(data, i) == start_code_len(
            data.take(n),
            i,
        ),
        i + start_code_len(data, i) <= n && start_code_len(data, i) > 0 ==> start_code_len(
            data.take(n),
            i,
        ) == start_code_len(data, i),
{
}

/// A start code that lies within the first `n` bytes is found there too.
proof fn lemma_take_next(data: Seq<u8>, n: int, from: int)
    requires
        0 <= from <= n <= data.len(),
    ensures
        ({
            let start = next_start_code(data, from);
            let within = next_start_code(data.take(n), from);
            &&& start < n && start + start_code_len(data, start) <= n ==> within == start
            &&& start >= n ==> within == n
            &&& within < n ==> start == within
        }),
{
    let start = next_start_code(data, from);
    let part = data.take(n);
    let within = next_start_code(part, from);
    lemma_next_start_code(data, from);
    lemma_next_start_code(part, from);
    lemma_take_code(data, n, start);
    if within < n {
        lemma_take_code(data, n, within);
        assert(start_code_len(data, within) > 0);
        assert(start <= within);
        if start < within {
            assert(start_code_len(part, start) == 0);
            assert(start_code_len(data, start) > 0);
        }
    }
}

proof fn lemma_take_trimmed(data: Seq<u8>, n: int, start: int, end: int)
    requires
        0 <= start <= end <= n <= data.len(),
    ensures
        trimmed_end(data.take(n), start, end) == trimmed_end(data, start, end),
    decreases end - start,
{
    if end > start && data[end - 1] == 0 {
        lemma_take_trimmed(data, n, start, end - 1);
    }
}

/// A picture start is the pending offset, the first start code, or lies beyond
/// the first NAL unit.
proof fn lemma_start_member(data: Seq<u8>, from: int, pending: Option<int>, x: int)
    requires
        0 <= from <= data.len(),
        pending matches Some(earlier) ==> earlier < next_start_code(data, from),
        starts_of(nal_units(data, from), pending).contains(x),
    ensures
        ({
            let start = next_start_code(data, from);
            let end = next_start_code(data, start + start_code_len(data, start));
            &&& from < data.len()
            &&& start < data.len()
            &&& pending == Some(x) || x == start || x >= end
            &&& x >= end ==> {
                let payload = start + start_code_len(data, start);
                let trimmed = trimmed_end(data, payload, end);
                let nal = nal_view(data.subrange(payload, trimmed));
                let first = match pending {
                    Some(earlier) => earlier,
                    None => start,
                };
                let next = if trimmed <= payload {
                    pending
                } else if is_slice_type(nal.nal_type) {
                    None
                } else {
                    Some(first)
                };
                starts_of(nal_units(data, end), next).contains(x)
            }
            &&& x == start ==> pending is None
        }),
{
    let start = next_start_code(data, from);
    lemma_next_start_code(data, from);
    let starts = starts_of(nal_units(data, from), pending);
    assert(starts.len() > 0);
    let payload = start + start_code_len(data, start);
    let end = next_start_code(data, payload);
    let trimmed = trimmed_end(data, payload, end);
    let rest = nal_units(data, end);
    lemma_next_start_code(data, payload);
    lemma_end_is_start(data, payload);
    if trimmed > payload {
        let nal = nal_view(data.subrange(payload, trimmed));
        assert((seq![(start, nal)] + rest).skip(1) =~= rest);
        assert((seq![(start, nal)] + rest)[0] == (start, nal));
        let first = match pending {
            Some(earlier) => earlier,
            None => start,
        };
        if is_slice_type(nal.nal_type) {
            lemma_starts(data, end, None);
            let later = starts_of(rest, None);
            let i = choose|i: int| 0 <= i < starts.len() && starts[i] == x;
            if begins_picture(nal) && i > 0 {
                assert(starts[i] == later[i - 1]);
            }
        } else {
            lemma_starts(data, end, Some(first));
        }
    } else {
        lemma_starts(data, end, pending);
    }
}

proof fn lemma_cut(data: Seq<u8>, from: int, pending: Option<int>, cut: int)
    requires
        0 <= from <= data.len(),
        pending matches Some(earlier) ==> earlier < next_start_code(data, from),
        next_start_code(data, from) <= cut,
        starts_of(nal_units(data, from), pending).contains(cut),
    ensures
        from <= cut < data.len(),
        starts_of(nal_units(data, from), pending) == starts_of(
            nal_units(data.take(cut), from),
            pending,
        ) + starts_of(nal_units(data, cut), None),
        nal_units(data, from) == nal_units(data.take(cut), from) + nal_units(data, cut),
        starts_of(nal_units(data, cut), None).len() > 0,
        starts_of(nal_units(data, cut), None)[0] == cut,
    decreases data.len() - from,
{
    let start = next_start_code(data, from);
    let payload = start + start_code_len(data, start);
    let end = next_start_code(data, payload);
    let trimmed = trimmed_end(data, payload, end);
    lemma_start_member(data, from, pending, cut);
    lemma_next_start_code(data, from);
    lemma_next_start_code(data, payload);
    lemma_end_is_start(data, payload);
    lemma_trimmed_end(data, payload, end);
    lemma_starts(data, from, pending);
    let all = starts_of(nal_units(data, from), pending);
    let part = data.take(cut);
    lemma_take_next(data, cut, from);
    if cut == start {
        assert(nal_units(part, from) =~= Seq::empty());
        lemma_end_is_start(data, from);
        assert(nal_units(data, cut) == nal_units(data, from));
        assert(Seq::empty() + all =~= all);
        assert(Seq::empty() + nal_units(data, from) =~= nal_units(data, from));
        assert(all[0] == cut) by {
            let i = choose|i: int| 0 <= i < all.len() && all[i] == cut;
            if i > 0 {
                assert(all[0] < all[i]);
            }
        }
    } else {
        let nal = nal_view(data.subrange(payload, trimmed));
        let first = match pending {
            Some(earlier) => earlier,
            None => start,
        };
        let next = if trimmed <= payload {
            pending
        } else if is_slice_type(nal.nal_type) {
            None
        } else {
            Some(first)
        };
        lemma_start_member(data, end, next, cut);
        lemma_take_next(data, cut, payload);
        lemma_take_code(data, cut, start);
        assert(next_start_code(part, from) == start);
        if end < cut {
            lemma_next_start_code(data, end + start_code_len(data, end));
        }
        assert(next_start_code(part, payload) == end);
        lemma_take_trimmed(data, cut, payload, end);
        assert(part.subrange(payload, trimmed) =~= data.subrange(payload, trimmed));
        lemma_cut(data, end, next, cut);
        if trimmed > payload {
            assert((seq![(start, nal)] + nal_units(data, end)).skip(1) =~= nal_units(data, end));
            assert((seq![(start, nal)] + nal_units(part, end)).skip(1) =~= nal_units(part, end));
            if begins_picture(nal) {
                let a = starts_of(nal_units(part, end), None);
                let b = starts_of(nal_units(data, cut), None);
                assert(seq![first] + (a + b) =~= (seq![first] + a) + b);
            }
            let unit = seq![(start, nal)];
            assert(unit + (nal_units(part, end) + nal_units(data, cut)) =~= (unit + nal_units(
                part,
                end,
            )) + nal_units(data, cut));
        }
    }
}

proof fn lemma_prefix(data: Seq<u8>, n: int, from: int, pending: Option<int>)
    requires
        0 <= from <= n <= data.len(),
    ensures
        starts_of(nal_units(data.take(n), from), pending).is_prefix_of(
            starts_of(nal_units(data, from), pending),
        ),
    decreases data.len() - from,
{
    let part = data.take(n);
    let start = next_start_code(part, from);
    lemma_next_start_code(part, from);
    lemma_take_next(data, n, from);
    if from < n && start < n {
        lemma_take_code(data, n, start);
        let payload = start + start_code_len(part, start);
        let end = next_start_code(part, payload);
        lemma_next_start_code(part, payload);
        lemma_take_next(data, n, payload);
        let trimmed = trimmed_end(part, payload, end);
        lemma_trimmed_end(part, payload, end);
        let nal = nal_view(part.subrange(payload, trimmed));
        let rest = nal_units(part, end);
        let first = match pending {
            Some(earlier) => earlier,
            None => start,
        };
        assert((seq![(start, nal)] + rest).skip(1) =~= rest);
        let whole_end = next_start_code(data, payload);
        let whole_trimmed = trimmed_end(data, payload, whole_end);
        let whole_nal = nal_view(data.subrange(payload, whole_trimmed));
        let whole_rest = nal_units(data, whole_end);
        lemma_next_start_code(data, payload);
        lemma_trimmed_end(data, payload, whole_end);
        assert((seq![(start, whole_nal)] + whole_rest).skip(1) =~= whole_rest);
        if end < n {
            lemma_take_trimmed(data, n, payload, end);
            assert(part.subrange(payload, trimmed) =~= data.subrange(payload, trimmed));
            if trimmed <= payload {
                lemma_prefix(data, n, end, pending);
            } else if is_slice_type(nal.nal_type) {
                lemma_prefix(data, n, end, None);
                let a = starts_of(rest, None);
                let b = starts_of(whole_rest, None);
                assert((seq![first] + b).subrange(0, a.len() as int + 1) =~= seq![first] + a);
            } else {
                lemma_prefix(data, n, end, Some(first));
            }
        } else {
            assert(rest =~= Seq::empty());
            assert(starts_of(rest, None) =~= Seq::empty());
            assert(starts_of(rest, Some(first)) =~= Seq::empty());
            if trimmed > payload {
                // Only zero bytes of a start code can lie before the cut, so the
                // NAL unit holds at least what was seen of it.
                if whole_end < trimmed {
                    assert(start_code_len(part, whole_end) == 0);
                    assert(data[trimmed - 1] == part[trimmed - 1]);
                    assert(start_code_len(data, whole_end) > 0);
                }
                assert(whole_trimmed >= trimmed) by {
                    if whole_trimmed < trimmed {
                        assert(data[trimmed - 1] == part[trimmed - 1]);
                    }
                }
                assert(whole_nal.data[0] == nal.data[0]);
                if begins_picture(nal) {
                    assert(whole_nal.data[1] == nal.data[1]);
                    let b = starts_of(whole_rest, None);
                    assert((seq![first] + b).subrange(0, 1) =~= seq![first]);
                    assert(seq![first] + Seq::<int>::empty() =~= seq![first]);
                }
            }
        }
    }
}

/// The picture starts of a stream are offsets within it, in strictly increasing
/// order.
pub proof fn law_starts_ascend(stream: Seq<u8>)
    ensures
        ascending(start_offsets(stream), None, 0, stream.len() as int),
{
    lemma_starts(stream, 0, None);
    lemma_next_start_code(stream, 0);
}

/// A stream may be cut at any of its picture starts: the pictures found in the
/// two parts are the pictures of the whole.
pub proof fn law_cut_at_start(stream: Seq<u8>, cut: int)
    requires
        start_offsets(stream).contains(cut),
    ensures
        0 <= cut < stream.len(),
        start_offsets(stream) == start_offsets(stream.take(cut)) + shifted(
            start_offsets(stream.skip(cut)),
            cut,
        ),
{
    lemma_next_start_code(stream, 0);
    lemma_starts(stream, 0, None);
    lemma_start_member(stream, 0, None, cut);
    lemma_next_start_code(
        stream,
        next_start_code(stream, 0) + start_code_len(stream, next_start_code(stream, 0)),
    );
    lemma_cut(stream, 0, None, cut);
    lemma_skip_nals(stream, cut, 0);
    lemma_shifted_starts(nal_units(stream.skip(cut), 0), cut, None);
}

/// Bytes that arrive later never move a picture start that was already found.
pub proof fn law_starts_are_stable(stream: Seq<u8>, more: Seq<u8>)
    ensures
        start_offsets(stream).is_prefix_of(start_offsets(stream + more)),
{
    assert((stream + more).take(stream.len() as int) =~= stream);
    lemma_prefix(stream + more, stream.len() as int, 0, None);
}

/// Framing does not depend on how a stream was cut up on its way: if a decoder
/// drops what is complete of `stream` and keeps the rest, then what is complete
/// of that rest once `more` has arrived ends exactly where the complete part of
/// the whole stream ends.
pub proof fn law_framing_ignores_cuts(stream: Seq<u8>, more: Seq<u8>)
    ensures
        0 <= complete_len(stream) <= stream.len(),
        complete_len(stream + more) == complete_len(stream) + complete_len(
            stream.skip(complete_len(stream)) + more,
        ),
{
    let whole = stream + more;
    let starts = start_offsets(stream);
    law_starts_ascend(stream);
    law_starts_are_stable(stream, more);
    if starts.len() > 0 {
        let cut = starts.last();
        let k = starts.len() - 1;
        assert(start_offsets(whole)[k] == cut);
        law_cut_at_start(whole, cut);
        law_starts_ascend(whole.take(cut));
        assert(whole.skip(cut) =~= stream.skip(cut) + more);
        let a = start_offsets(whole.take(cut));
        let b = start_offsets(whole.skip(cut));
        assert(a.len() <= k) by {
            if a.len() > k {
                assert(start_offsets(whole)[k] == a[k]);
            }
        }
        assert(b.len() > 0);
        assert(start_offsets(whole).last() == shifted(b, cut).last());
    } else {
        assert(stream.skip(0) =~= stream);
    }
}

/// The access units of a stream: the bytes from each picture start up to the
/// next one, or up to the end of the stream.
pub open spec fn access_units(stream: Seq<u8>) -> Seq<Seq<u8>> {
    let starts = start_offsets(stream);
    Seq::new(
        starts.len(),
        |i: int|
            stream.subrange(
                starts[i],
                if i + 1 < starts.len() {
                    starts[i + 1]
                } else {
                    stream.len() as int
                },
            ),
    )
}

/// Split an Annex B stream into access units, one per coded picture.
///
/// Parameter sets, SEI and delimiters travel with the picture that follows
/// them. What precedes the first picture's own bytes belongs to no unit.
pub fn split_stream(stream: &[u8]) -> (units: Vec<&[u8]>)
    ensures
        units@.len() == access_units(stream@).len(),
        forall|i: int|
            0 <= i < units@.len() ==> #[trigger] units@[i]@ == access_units(stream@)[i],
{
    let starts = picture_starts(stream);
    let ghost offsets = start_offsets(stream@);
    proof {
        law_starts_ascend(stream@);
        assert forall|i: int| 0 <= i < starts@.len() implies offsets[i] == #[trigger] starts@[i] by {
            assert(as_ints(starts@)[i] == starts@[i]);
        }
    }
    let mut units: Vec<&[u8]> = Vec::new();
    let mut i: usize = 0;
    while i < starts.len()
        invariant
            i <= starts@.len(),
            offsets == start_offsets(stream@),
            starts@.len() == offsets.len(),
            forall|k: int| 0 <= k < starts@.len() ==> offsets[k] == #[trigger] starts@[k],
            ascending(offsets, None, 0, stream@.len() as int),
            units@.len() == i,
            forall|k: int| 0 <= k < i ==> #[trigger] units@[k]@ == access_units(stream@)[k],
        decreases starts@.len() - i,
    {
        assert(starts@[i as int] == offsets[i as int]);
        let end: usize = if i + 1 < starts.len() {
            assert(offsets[i as int] < offsets[i + 1]);
            starts[i + 1]
        } else {
            stream.len()
        };
        units.push(vstd::slice::slice_subrange(stream, starts[i], end));
        i = i + 1;
    }
    units
}

proof fn lemma_flatten_from(stream: Seq<u8>, i: int)
    requires
        0 <= i < access_units(stream).len(),
    ensures
        access_units(stream).skip(i).flatten() == stream.skip(start_offsets(stream)[i]),
    decreases access_units(stream).len() - i,
{
    law_starts_ascend(stream);
    let units = access_units(stream);
    let starts = start_offsets(stream);
    let tail = units.skip(i);
    assert(tail.drop_first() =~= units.skip(i + 1));
    assert(tail.first() == units[i]);
    if i + 1 < units.len() {
        lemma_flatten_from(stream, i + 1);
        assert(starts[i] < starts[i + 1]);
        assert(units[i] + stream.skip(starts[i + 1]) =~= stream.skip(starts[i]));
    } else {
        assert(units.skip(i + 1) =~= Seq::empty());
        assert(Seq::<Seq<u8>>::empty().flatten() =~= Seq::<u8>::empty());
        assert(units[i] + Seq::<u8>::empty() =~= stream.skip(starts[i]));
    }
}

/// Splitting loses no bytes: the access units, put end to end, are the stream
/// from its first picture on.
pub proof fn law_split_is_lossless(stream: Seq<u8>)
    requires
        start_offsets(stream).len() > 0,
    ensures
        access_units(stream).flatten() == stream.skip(start_offsets(stream)[0]),
{
    lemma_flatten_from(stream, 0);
    assert(access_units(stream).skip(0) =~= access_units(stream));
}

/// Each access unit holds exactly one coded picture, which begins with it.
pub proof fn law_one_picture_per_unit(stream: Seq<u8>, i: int)
    requires
        0 <= i < access_units(stream).len(),
    ensures
        start_offsets(access_units(stream)[i]) == seq![0int],
{
    let starts = start_offsets(stream);
    let cut = starts[i];
    law_starts_ascend(stream);
    law_cut_at_start(stream, cut);
    let tail = stream.skip(cut);
    let before = start_offsets(stream.take(cut));
    let after = start_offsets(tail);
    law_starts_ascend(stream.take(cut));
    law_starts_ascend(tail);
    // The starts before the cut are exactly the first `i`.
    if before.len() > i {
        assert(starts[i] == before[i]);
    }
    if before.len() < i {
        assert(starts[i] == shifted(after, cut)[i - before.len()]);
        assert(starts[before.len() as int] == shifted(after, cut)[0]);
        assert(starts[before.len() as int] < starts[i]);
    }
    assert(after.len() == starts.len() - i);
    assert(shifted(after, cut)[0] == starts[i]);
    if i + 1 < starts.len() {
        let next = starts[i + 1] - cut;
        assert(shifted(after, cut)[1] == starts[i + 1]);
        assert(after[1] == next);
        assert(starts[i] < starts[i + 1]);
        law_cut_at_start(tail, next);
        assert(tail.take(next) =~= access_units(stream)[i]);
        let unit = start_offsets(tail.take(next));
        law_starts_ascend(tail.take(next));
        law_starts_ascend(tail.skip(next));
        let beyond = start_offsets(tail.skip(next));
        if unit.len() == 0 {
            assert(after[0] == shifted(beyond, next)[0]);
        }
        if unit.len() > 1 {
            assert(after[1] == unit[1]);
        }
        assert(after[0] == unit[0]);
        assert(unit =~= seq![0int]);
    } else {
        assert(tail =~= access_units(stream)[i]);
        assert(after =~= seq![0int]);
    }
}

/// A slice begins a picture exactly if its header's first field,
/// `first_mb_in_slice`, reads as zero.
pub proof fn law_picture_begins_at_first_macroblock(nal: NalView)
    requires
        is_slice_type(nal.nal_type),
        nal.data.len() >= 1,
    ensures
        begins_picture(nal) <==> ({
            let (first_mb_in_slice, place) = cursor(payload_bits(nal.data.skip(1))).ue();
            place.error is None && first_mb_in_slice == 0
        }),
{
    let payload = nal.data.skip(1);
    let bits = payload_bits(payload);
    let z = leading_zeros(bits) as int;
    lemma2_to64();
    if payload.len() > 0 {
        let byte = payload[0];
        let rest = unescape(payload.skip(1), if byte == 0 { 1 } else { 0 });
        assert(unescape(payload, 0) == seq![byte] + rest);
        assert((seq![byte] + rest).skip(1) =~= rest);
        assert(bits == byte_bits(byte) + bits_of(rest));
        assert(bits[0] == byte_bits(byte)[0]);
        assert(((byte >> 7u8) & 1 == 1) == (byte & 0x80 != 0)) by (bit_vector);
        if bits[0] {
            assert(bits.subrange(1, 1) =~= Seq::empty());
            assert(z == 0);
        } else if z < 32 && bits.len() >= 2 * z + 1 {
            let suffix = bits.subrange(z + 1, 2 * z + 1);
            lemma_uint_bound(suffix);
            lemma_pow2_unfold(z as nat);
            lemma_pow2_pos((z - 1) as nat);
            if z < 31 {
                lemma_pow2_strictly_increases(z as nat, 31);
            }
        }
    } else {
        assert(bits =~= Seq::empty());
    }
}

/// Whether the `k`-th of a list of NAL units is its first slice, and that slice
/// begins a picture.
pub open spec fn opens_at(nals: Seq<NalView>, k: int) -> bool {
    &&& 0 <= k < nals.len()
    &&& begins_picture(nals[k])
    &&& forall|j: int| 0 <= j < k ==> !is_slice_type((#[trigger] nals[j]).nal_type)
}

proof fn lemma_opens(data: Seq<u8>, from: int, pending: Option<int>, cut: int) -> (k: int)
    requires
        0 <= from <= data.len(),
        match pending {
            Some(earlier) => earlier == cut && cut < next_start_code(data, from),
            None => next_start_code(data, from) == cut,
        },
        starts_of(nal_units(data, from), pending).contains(cut),
    ensures
        opens_at(units(nal_units(data, from)), k),
    decreases data.len() - from,
{
    let start = next_start_code(data, from);
    let payload = start + start_code_len(data, start);
    let end = next_start_code(data, payload);
    let trimmed = trimmed_end(data, payload, end);
    let rest = nal_units(data, end);
    lemma_next_start_code(data, from);
    assert(nal_units(data, from).len() > 0);
    lemma_next_start_code(data, payload);
    lemma_end_is_start(data, payload);
    if trimmed > payload {
        let nal = nal_view(data.subrange(payload, trimmed));
        let all = seq![(start, nal)] + rest;
        assert(all.skip(1) =~= rest);
        assert(units(all)[0] == nal);
        if is_slice_type(nal.nal_type) {
            lemma_starts(data, end, None);
            0
        } else {
            lemma_starts(data, end, Some(cut));
            let k = lemma_opens(data, end, Some(cut), cut);
            assert forall|j: int| 0 <= j < k + 1 implies !is_slice_type(
                (#[trigger] units(all)[j]).nal_type,
            ) by {
                if j > 0 {
                    assert(units(all)[j] == units(rest)[j - 1]);
                }
            }
            assert(units(all)[k + 1] == units(rest)[k]);
            k + 1
        }
    } else {
        lemma_starts(data, end, pending);
        lemma_opens(data, end, pending, cut)
    }
}

/// The NAL units of a stream that is cut at a picture start are those of its two
/// parts, and the first slice of the second part begins a picture.
pub proof fn law_cut_keeps_nal_units(stream: Seq<u8>, cut: int) -> (k: int)
    requires
        start_offsets(stream).contains(cut),
    ensures
        0 <= cut < stream.len(),
        units(nal_units(stream, 0)) == units(nal_units(stream.take(cut), 0)) + units(
            nal_units(stream.skip(cut), 0),
        ),
        opens_at(units(nal_units(stream.skip(cut), 0)), k),
{
    law_cut_at_start(stream, cut);
    lemma_next_start_code(stream, 0);
    lemma_starts(stream, 0, None);
    lemma_start_member(stream, 0, None, cut);
    lemma_next_start_code(
        stream,
        next_start_code(stream, 0) + start_code_len(stream, next_start_code(stream, 0)),
    );
    lemma_cut(stream, 0, None, cut);
    lemma_skip_nals(stream, cut, 0);
    let tail = stream.skip(cut);
    lemma_shifted_starts(nal_units(tail, 0), cut, None);
    assert(units(nal_units(stream, 0)) =~= units(nal_units(stream.take(cut), 0)) + units(
        nal_units(tail, 0),
    ));
    let starts = start_offsets(tail);
    assert(shifted(starts, cut)[0] == cut);
    assert(starts[0] == 0);
    lemma_starts(tail, 0, None);
    lemma_next_start_code(tail, 0);
    lemma_start_member(tail, 0, None, 0);
    lemma_opens(tail, 0, None, 0)
}

proof fn lemma_pending_start(nals: Seq<(int, NalView)>, pending: int, m: int)
    requires
        0 <= m < nals.len(),
        forall|j: int| 0 <= j < m ==> !is_slice_type((#[trigger] nals[j]).1.nal_type),
        begins_picture(nals[m].1),
    ensures
        starts_of(nals, Some(pending)).contains(pending),
    decreases nals.len(),
{
    let rest = nals.skip(1);
    if m == 0 {
        let starts = seq![pending] + starts_of(rest, None);
        assert(starts[0] == pending);
    } else {
        assert(!is_slice_type(nals[0].1.nal_type));
        assert forall|j: int| 0 <= j < m - 1 implies !is_slice_type(
            (#[trigger] rest[j]).1.nal_type,
        ) by {
            assert(rest[j] == nals[j + 1]);
        }
        assert(rest[m - 1] == nals[m]);
        lemma_pending_start(rest, pending, m - 1);
    }
}

proof fn lemma_start_of_group(nals: Seq<(int, NalView)>, pending: Option<int>, k: int, m: int)
    requires
        0 <= k <= m < nals.len(),
        k == 0 ==> pending is None,
        k > 0 ==> is_slice_type(nals[k - 1].1.nal_type),
        forall|j: int| k <= j < m ==> !is_slice_type((#[trigger] nals[j]).1.nal_type),
        begins_picture(nals[m].1),
    ensures
        starts_of(nals, pending).contains(nals[k].0),
    decreases nals.len(),
{
    let rest = nals.skip(1);
    let own = nals[0].0;
    if k > 0 {
        assert forall|j: int| k - 1 <= j < m - 1 implies !is_slice_type(
            (#[trigger] rest[j]).1.nal_type,
        ) by {
            assert(rest[j] == nals[j + 1]);
        }
        assert(rest[m - 1] == nals[m] && rest[k - 1] == nals[k]);
        if k > 1 {
            assert(rest[k - 2] == nals[k - 1]);
        }
        let next = if is_slice_type(nals[0].1.nal_type) {
            None
        } else {
            Some(
                match pending {
                    Some(earlier) => earlier,
                    None => own,
                },
            )
        };
        lemma_start_of_group(rest, next, k - 1, m - 1);
        let later = starts_of(rest, next);
        let i = choose|i: int| 0 <= i < later.len() && later[i] == nals[k].0;
        let starts = starts_of(nals, pending);
        if begins_picture(nals[0].1) {
            assert(starts[i + 1] == nals[k].0);
        } else {
            assert(starts[i] == nals[k].0);
        }
    } else if m == 0 {
        let starts = seq![own] + starts_of(rest, None);
        assert(starts[0] == own);
    } else {
        assert(!is_slice_type(nals[0].1.nal_type));
        assert forall|j: int| 0 <= j < m - 1 implies !is_slice_type(
            (#[trigger] rest[j]).1.nal_type,
        ) by {
            assert(rest[j] == nals[j + 1]);
        }
        assert(rest[m - 1] == nals[m]);
        lemma_pending_start(rest, own, m - 1);
    }
}

/// A picture takes with it what stands before its first slice: it begins at the
/// first parameter set, message or delimiter behind the slice before it.
pub proof fn law_picture_takes_what_precedes_it(stream: Seq<u8>, k: int, m: int)
    requires
        ({
            let nals = nal_units(stream, 0);
            &&& 0 <= k <= m < nals.len()
            &&& k > 0 ==> is_slice_type(nals[k - 1].1.nal_type)
            &&& forall|j: int| k <= j < m ==> !is_slice_type((#[trigger] nals[j]).1.nal_type)
            &&& begins_picture(nals[m].1)
        }),
    ensures
        start_offsets(stream).contains(nal_units(stream, 0)[k].0),
{
    lemma_start_of_group(nal_units(stream, 0), None, k, m);
}

/// How many of a list of NAL units begin a picture.
pub open spec fn beginnings(nals: Seq<(int, NalView)>) -> nat
    decreases nals.len(),
{
    if nals.len() == 0 {
        0
    } else {
        beginnings(nals.skip(1)) + if begins_picture(nals[0].1) {
            1nat
        } else {
            0nat
        }
    }
}

proof fn lemma_as_many_starts(nals: Seq<(int, NalView)>, pending: Option<int>)
    ensures
        starts_of(nals, pending).len() == beginnings(nals),
    decreases nals.len(),
{
    if nals.len() > 0 {
        let start = match pending {
            Some(earlier) => earlier,
            None => nals[0].0,
        };
        lemma_as_many_starts(nals.skip(1), Some(start));
        lemma_as_many_starts(nals.skip(1), None);
    }
}

/// A stream has as many picture starts as it has slices that begin a picture.
pub proof fn law_every_picture_starts_once(stream: Seq<u8>)
    ensures
        start_offsets(stream).len() == beginnings(nal_units(stream, 0)),
{
    lemma_as_many_starts(nal_units(stream, 0), None);
}

} // verus!
