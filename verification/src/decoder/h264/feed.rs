//! Framing of input that may cut anywhere.

use crate::decoder::h264::framing::{
    as_ints, complete_len, law_cut_at_start, law_framing_ignores_cuts, law_starts_ascend,
    picture_starts, shifted, start_offsets,
};
use vstd::prelude::*;

verus! {

/// Whole coded pictures, with the timestamp they carry.
#[derive(Debug)]
pub struct Chunk {
    pub data: Vec<u8>,
    pub pts: u64,
}

/// The mathematical view of a [`Chunk`].
#[verifier::ext_equal]
pub struct ChunkView {
    pub data: Seq<u8>,
    pub pts: u64,
}

impl View for Chunk {
    type V = ChunkView;

    open spec fn view(&self) -> ChunkView {
        ChunkView { data: self.data@, pts: self.pts }
    }
}

/// The views of a list of chunks.
pub open spec fn chunk_views(chunks: Seq<Chunk>) -> Seq<ChunkView> {
    Seq::new(chunks.len(), |i: int| chunks[i]@)
}

/// Splits a byte stream into whole coded pictures.
///
/// A coded picture is only known to have ended once the next one starts, so
/// everything up to the last picture start is complete and decodable, and
/// everything from it onward is held over.
pub struct ByteFramer {
    /// Bytes of a coded picture that has not been seen to end yet.
    carry: Vec<u8>,
    /// The `pts` of the call that delivered the first byte of `carry`, so a
    /// picture is timestamped by when it started arriving rather than by which
    /// call happened to complete it.
    carry_pts: u64,
}

/// The mathematical view of a [`ByteFramer`].
#[verifier::ext_equal]
pub struct FramerView {
    pub carry: Seq<u8>,
    pub carry_pts: u64,
}

impl View for ByteFramer {
    type V = FramerView;

    closed spec fn view(&self) -> FramerView {
        FramerView { carry: self.carry@, carry_pts: self.carry_pts }
    }
}

/// The first of the ascending offsets that is not below `low`, or `high` where
/// there is none below that.
pub open spec fn first_from(starts: Seq<int>, low: int, high: int) -> int
    decreases starts.len(),
{
    if starts.len() == 0 || starts[0] >= high {
        high
    } else if starts[0] >= low {
        starts[0]
    } else {
        first_from(starts.skip(1), low, high)
    }
}

/// Where the pictures that began in an earlier call end, among the complete ones
/// of a buffer whose first `carried` bytes came with earlier calls.
pub open spec fn earlier_len(buffer: Seq<u8>, carried: int) -> int {
    if carried == 0 {
        0
    } else {
        first_from(start_offsets(buffer), carried, complete_len(buffer))
    }
}

/// A chunk, unless it would be empty.
pub open spec fn chunk_of(data: Seq<u8>, pts: u64) -> Seq<ChunkView> {
    if data.len() == 0 {
        Seq::empty()
    } else {
        seq![ChunkView { data, pts }]
    }
}

/// The chunks that become complete when `data` arrives: pictures that began to
/// arrive earlier with the timestamp of back then, then those that began in this
/// call with its own.
pub open spec fn completed(framer: FramerView, data: Seq<u8>, pts: u64) -> Seq<ChunkView> {
    let buffer = framer.carry + data;
    let cut = earlier_len(buffer, framer.carry.len() as int);
    chunk_of(buffer.take(cut), framer.carry_pts) + chunk_of(
        buffer.subrange(cut, complete_len(buffer)),
        pts,
    )
}

/// What is held over once `data` has arrived. It is timestamped by the call its
/// first byte came in on, which is this one only if everything that earlier calls
/// had left became complete.
pub open spec fn held_over(framer: FramerView, data: Seq<u8>, pts: u64) -> FramerView {
    let buffer = framer.carry + data;
    let split = complete_len(buffer);
    FramerView {
        carry: buffer.skip(split),
        carry_pts: if split >= framer.carry.len() { pts } else { framer.carry_pts },
    }
}

proof fn lemma_first_from(starts: Seq<int>, low: int, high: int)
    ensures
        first_from(starts, low, high) <= high,
        low >= 0 && (forall|i: int| 0 <= i < starts.len() ==> 0 <= #[trigger] starts[i]) && high
            >= 0 ==> first_from(starts, low, high) >= 0,
    decreases starts.len(),
{
    if starts.len() > 0 {
        lemma_first_from(starts.skip(1), low, high);
    }
}

impl Default for ByteFramer {
    /// Nothing is held over.
    fn default() -> (framer: Self)
        ensures
            framer@ == (FramerView { carry: Seq::empty(), carry_pts: 0 }),
    {
        ByteFramer { carry: Vec::new(), carry_pts: 0 }
    }
}

/// The first start that is not below `low`, or `high` where there is none below
/// that.
fn find_start(starts: &Vec<usize>, low: usize, high: usize) -> (found: usize)
    ensures
        found == first_from(as_ints(starts@), low as int, high as int),
{
    let ghost all = as_ints(starts@);
    let mut i: usize = 0;
    assert(all.skip(0) =~= all);
    while i < starts.len()
        invariant
            i <= starts@.len(),
            all == as_ints(starts@),
            first_from(all, low as int, high as int) == first_from(
                all.skip(i as int),
                low as int,
                high as int,
            ),
        decreases starts@.len() - i,
    {
        assert(all.skip(i as int)[0] == starts@[i as int]);
        assert(all.skip(i as int).skip(1) =~= all.skip(i + 1));
        if starts[i] >= high {
            return high;
        }
        if starts[i] >= low {
            return starts[i];
        }
        i = i + 1;
    }
    high
}

/// A copy of `data[start..end]`.
fn copy_range(data: &Vec<u8>, start: usize, end: usize) -> (copy: Vec<u8>)
    requires
        start <= end <= data@.len(),
    ensures
        copy@ == data@.subrange(start as int, end as int),
{
    let mut copy: Vec<u8> = Vec::new();
    copy.extend_from_slice(vstd::slice::slice_subrange(data.as_slice(), start, end));
    assert(copy@ =~= data@.subrange(start as int, end as int));
    copy
}

impl ByteFramer {
    /// Take in bytes that may cut anywhere, and give out what is now complete.
    pub fn push(&mut self, data: &[u8], pts: u64) -> (chunks: Vec<Chunk>)
        ensures
            chunk_views(chunks@) == completed(old(self)@, data@, pts),
            final(self)@ == held_over(old(self)@, data@, pts),
    {
        let carried: usize = self.carry.len();
        let mut buffer: Vec<u8> = Vec::new();
        std::mem::swap(&mut buffer, &mut self.carry);
        buffer.extend_from_slice(data);
        assert(buffer@ =~= old(self)@.carry + data@);

        // Nothing before the last picture start can still be waiting for more
        // slices. With no picture start at all, nothing is complete yet.
        let starts = picture_starts(buffer.as_slice());
        proof {
            law_starts_ascend(buffer@);
            lemma_first_from(start_offsets(buffer@), carried as int, complete_len(buffer@));
            if starts@.len() > 0 {
                assert(as_ints(starts@).last() == starts@.last());
            }
        }
        let split: usize = if starts.len() > 0 { starts[starts.len() - 1] } else { 0 };
        assert(split == complete_len(buffer@));
        let cut: usize = if carried == 0 { 0 } else { find_start(&starts, carried, split) };
        let mut chunks: Vec<Chunk> = Vec::new();
        assert(chunk_views(chunks@) =~= Seq::empty());
        if cut > 0 {
            let chunk = Chunk { data: copy_range(&buffer, 0, cut), pts: self.carry_pts };
            chunks.push(chunk);
        }
        assert(chunk_views(chunks@) =~= chunk_of(buffer@.take(cut as int), old(self)@.carry_pts));
        if split > cut {
            let chunk = Chunk { data: copy_range(&buffer, cut, split), pts };
            chunks.push(chunk);
        }
        assert(chunk_views(chunks@) =~= completed(old(self)@, data@, pts));
        if split >= carried {
            self.carry_pts = pts;
        }
        self.carry = copy_range(&buffer, split, buffer.len());
        assert(self@.carry =~= buffer@.skip(split as int));
        chunks
    }

    /// End the stream: what is still held over is a picture that was never seen to
    /// end because nothing followed it. End of stream is what ends it.
    pub fn finish(&mut self) -> (tail: Option<Chunk>)
        ensures
            final(self)@ == (FramerView { carry: Seq::empty(), ..old(self)@ }),
            match tail {
                Some(chunk) => old(self)@.carry.len() > 0 && chunk@ == (ChunkView {
                    data: old(self)@.carry,
                    pts: old(self)@.carry_pts,
                }),
                None => old(self)@.carry.len() == 0,
            },
    {
        let mut data: Vec<u8> = Vec::new();
        std::mem::swap(&mut data, &mut self.carry);
        if data.len() == 0 {
            None
        } else {
            Some(Chunk { data, pts: self.carry_pts })
        }
    }
}

/// The bytes of a list of chunks, put end to end.
pub open spec fn joined(chunks: Seq<ChunkView>) -> Seq<u8> {
    Seq::new(chunks.len(), |i: int| chunks[i].data).flatten()
}

proof fn lemma_joined_two(a: Seq<u8>, b: Seq<u8>, pts_a: u64, pts_b: u64)
    ensures
        joined(chunk_of(a, pts_a) + chunk_of(b, pts_b)) == a + b,
{
    let chunks = chunk_of(a, pts_a) + chunk_of(b, pts_b);
    let parts = Seq::new(chunks.len(), |i: int| chunks[i].data);
    reveal_with_fuel(Seq::<_>::flatten, 3);
    if a.len() > 0 && b.len() > 0 {
        assert(parts =~= seq![a, b]);
        assert(parts.drop_first() =~= seq![b]);
        assert(seq![b].drop_first() =~= Seq::empty());
        assert(a + (b + Seq::<u8>::empty()) =~= a + b);
    } else if a.len() > 0 {
        assert(parts =~= seq![a]);
        assert(seq![a].drop_first() =~= Seq::empty());
        assert(a + Seq::<u8>::empty() =~= a + b);
    } else if b.len() > 0 {
        assert(parts =~= seq![b]);
        assert(seq![b].drop_first() =~= Seq::empty());
        assert(b + Seq::<u8>::empty() =~= a + b);
    } else {
        assert(a + b =~= Seq::empty());
    }
}

/// Framing loses nothing: what is given out and what is held over are, put end to
/// end, what was held over before and what arrived.
pub proof fn law_framing_is_lossless(framer: FramerView, data: Seq<u8>, pts: u64)
    ensures
        joined(completed(framer, data, pts)) + held_over(framer, data, pts).carry == framer.carry
            + data,
{
    let buffer = framer.carry + data;
    let cut = earlier_len(buffer, framer.carry.len() as int);
    let split = complete_len(buffer);
    law_starts_ascend(buffer);
    lemma_first_from(start_offsets(buffer), framer.carry.len() as int, split);
    lemma_joined_two(buffer.take(cut), buffer.subrange(cut, split), framer.carry_pts, pts);
    assert(buffer.take(cut) + buffer.subrange(cut, split) =~= buffer.take(split));
    assert(buffer.take(split) + buffer.skip(split) =~= buffer);
}

/// A byte stream is framed the same way however it was cut up: if the bytes given
/// out so far are the complete part of the stream so far, and the rest is held
/// over, then so it is once more bytes have arrived.
pub proof fn law_framing_is_cut_invariant(
    stream: Seq<u8>,
    framer: FramerView,
    data: Seq<u8>,
    pts: u64,
)
    requires
        framer.carry == stream.skip(complete_len(stream)),
    ensures
        stream.take(complete_len(stream)) + joined(completed(framer, data, pts)) == (stream
            + data).take(complete_len(stream + data)),
        held_over(framer, data, pts).carry == (stream + data).skip(complete_len(stream + data)),
{
    let done = complete_len(stream);
    let whole = stream + data;
    law_framing_ignores_cuts(stream, data);
    law_starts_ascend(framer.carry + data);
    law_framing_is_lossless(framer, data, pts);
    let given = joined(completed(framer, data, pts));
    let split = complete_len(framer.carry + data);
    let held = held_over(framer, data, pts).carry;
    assert(framer.carry + data =~= whole.skip(done));
    assert(held =~= whole.skip(complete_len(whole)));
    assert(given.len() == split);
    assert(given =~= (given + held).take(split));
    assert(stream.take(done) + given =~= whole.take(complete_len(whole)));
}

/// Framing costs one picture of latency and no more: once a picture start has been
/// seen, exactly one picture is held over, from its first byte on.
pub proof fn law_one_picture_is_held_over(framer: FramerView, data: Seq<u8>, pts: u64)
    ensures
        start_offsets(held_over(framer, data, pts).carry) == if start_offsets(
            framer.carry + data,
        ).len() == 0 {
            Seq::<int>::empty()
        } else {
            seq![0int]
        },
{
    let buffer = framer.carry + data;
    let starts = start_offsets(buffer);
    if starts.len() == 0 {
        assert(buffer.skip(0) =~= buffer);
        assert(starts =~= Seq::<int>::empty());
    } else {
        let cut = starts.last();
        let before = start_offsets(buffer.take(cut));
        let held = start_offsets(buffer.skip(cut));
        assert(starts.contains(cut));
        law_cut_at_start(buffer, cut);
        law_starts_ascend(buffer);
        law_starts_ascend(buffer.take(cut));
        law_starts_ascend(buffer.skip(cut));
        let all = before + shifted(held, cut);
        if held.len() == 0 {
            assert(all.last() == before.last());
            assert(before[before.len() - 1] < cut);
        } else {
            assert(all.last() == held.last() + cut);
            if held.len() > 1 {
                assert(held[0] < held[held.len() - 1]);
            }
            assert(held =~= seq![0int]);
        }
    }
}

proof fn lemma_first_from_splits(starts: Seq<int>, low: int, high: int, k: int)
    requires
        0 <= k < starts.len(),
        forall|i: int, j: int| 0 <= i < j < starts.len() ==> starts[i] < starts[j],
        starts[k] < high,
    ensures
        starts[k] < low ==> starts[k] < first_from(starts, low, high),
        starts[k] >= low ==> first_from(starts, low, high) <= starts[k],
    decreases starts.len(),
{
    if k > 0 {
        assert(starts[0] < starts[k]);
    }
    if starts[0] < low {
        lemma_first_from_low(starts.skip(1), low, high);
        if k > 0 {
            assert(starts.skip(1)[k - 1] == starts[k]);
            lemma_first_from_splits(starts.skip(1), low, high, k - 1);
        }
    }
}

proof fn lemma_first_from_low(starts: Seq<int>, low: int, high: int)
    ensures
        first_from(starts, low, high) >= low || first_from(starts, low, high) == high,
    decreases starts.len(),
{
    if starts.len() > 0 {
        lemma_first_from_low(starts.skip(1), low, high);
    }
}

/// The timestamp of the byte at `offset` of the bytes that chunks hold.
pub open spec fn time_at(chunks: Seq<ChunkView>, offset: int) -> u64 {
    if offset < chunks[0].data.len() {
        chunks[0].pts
    } else {
        chunks[1].pts
    }
}

/// A picture is timestamped by the call that its first byte came in on: whichever
/// call completes it, it carries the timestamp of the call before if it was held
/// over, and of this call otherwise.
pub proof fn law_pictures_carry_the_time_they_began(
    framer: FramerView,
    data: Seq<u8>,
    pts: u64,
    k: int,
)
    requires
        0 <= k < start_offsets(framer.carry + data).len() - 1,
    ensures
        ({
            let start = start_offsets(framer.carry + data)[k];
            let chunks = completed(framer, data, pts);
            &&& 1 <= chunks.len() <= 2
            &&& 0 <= start < joined(chunks).len()
            &&& time_at(chunks, start) == if start < framer.carry.len() {
                framer.carry_pts
            } else {
                pts
            }
        }),
{
    let buffer = framer.carry + data;
    let starts = start_offsets(buffer);
    let split = complete_len(buffer);
    let carried = framer.carry.len() as int;
    let cut = earlier_len(buffer, carried);
    law_starts_ascend(buffer);
    assert(starts[k] < starts[starts.len() - 1]);
    lemma_first_from(starts, carried, split);
    lemma_first_from_splits(starts, carried, split, k);
    lemma_joined_two(buffer.take(cut), buffer.subrange(cut, split), framer.carry_pts, pts);
    assert(joined(completed(framer, data, pts)).len() == split);
}

/// What is held over carries the timestamp of the call that its first byte came in
/// on: this one where no more is held over than this call brought, and otherwise the
/// one it had.
pub proof fn law_held_over_carries_its_time(framer: FramerView, data: Seq<u8>, pts: u64)
    ensures
        ({
            let held = held_over(framer, data, pts);
            held.carry_pts == if held.carry.len() <= data.len() {
                pts
            } else {
                framer.carry_pts
            }
        }),
{
    law_starts_ascend(framer.carry + data);
}

} // verus!
