//! Asynchronous decode pipelining, shared by all codecs.
//!
//! Each in-flight picture owns a slot: its own coded-data staging buffer, decode
//! command buffer and fence, plus a transfer command buffer and fence for the copy
//! that gives a display-order frame storage of its own. The pipeline rotates
//! through the slots, so the CPU can parse and submit picture N+1 while the GPU is
//! still decoding picture N instead of blocking on a fence after every picture.
//!
//! # Ordering
//!
//! Decode submissions share the video session and the DPB, so they must execute
//! in decode order on the GPU. A timeline semaphore enforces that: each decode
//! waits on the previous decode's value and signals its own.
//!
//! The reorder copy runs on the *transfer* queue, because a dedicated video
//! decode queue need not support transfer operations. It gets a timeline of its
//! own and waits on two things: the decode that produced the picture, and the
//! previous copy. Chaining copies to each other is what makes "the last submission
//! finished" imply "every earlier one finished", which is the whole basis for one
//! fence covering a batch of frames.

use vstd::arithmetic::power2::{
    lemma2_to64, lemma2_to64_rest, lemma_pow2_strictly_increases, lemma_pow2_unfold, pow2,
};
use vstd::prelude::*;

verus! {

/// Number of decode submissions allowed to be in flight at once.
///
/// Two fully overlaps parsing and staging the next picture with the GPU decode of
/// the current one, without letting the GPU-serialized DPB chain grow.
pub const DECODE_PIPELINE_DEPTH: usize = 2;

/// Initial size of a slot's coded-data staging buffer; grown on demand.
pub const INITIAL_BITSTREAM_BUFFER_SIZE: u64 = 0x10_0000;

/// The largest size that a staging buffer can be grown to.
pub const LARGEST_BITSTREAM_BUFFER_SIZE: u64 = 0x8000_0000_0000_0000;

/// Whether a number is a power of two.
pub open spec fn is_power_of_two(n: int) -> bool {
    exists|k: nat| n == #[trigger] pow2(k)
}

/// The size that a slot's staging buffer is grown to so that it holds `size`
/// bytes, or `None` where the buffer it has, if any, is large enough.
pub fn grown_capacity(allocated: Option<u64>, size: u64) -> (capacity: Option<u64>)
    requires
        size <= LARGEST_BITSTREAM_BUFFER_SIZE,
    ensures
        match capacity {
            None => allocated matches Some(have) && have >= size,
            Some(capacity) => {
                &&& !(allocated matches Some(have) && have >= size)
                &&& is_power_of_two(capacity as int)
                &&& capacity >= size
                &&& capacity >= INITIAL_BITSTREAM_BUFFER_SIZE
                &&& capacity == INITIAL_BITSTREAM_BUFFER_SIZE || capacity < 2 * size
            },
        },
{
    if let Some(have) = allocated {
        if have >= size {
            return None;
        }
    }
    let mut capacity: u64 = INITIAL_BITSTREAM_BUFFER_SIZE;
    let ghost mut k: nat = 20;
    proof {
        lemma2_to64();
    }
    while capacity < size
        invariant
            size <= LARGEST_BITSTREAM_BUFFER_SIZE,
            capacity == pow2(k),
            k <= 63,
            INITIAL_BITSTREAM_BUFFER_SIZE <= capacity <= LARGEST_BITSTREAM_BUFFER_SIZE,
            capacity == INITIAL_BITSTREAM_BUFFER_SIZE || capacity < 2 * size,
        decreases LARGEST_BITSTREAM_BUFFER_SIZE - capacity,
    {
        proof {
            lemma2_to64_rest();
            lemma_pow2_unfold((k + 1) as nat);
            if k + 1 < 63 {
                lemma_pow2_strictly_increases((k + 1) as nat, 63);
            }
            k = (k + 1) as nat;
        }
        capacity = capacity * 2;
    }
    Some(capacity)
}

/// Which queue a submission goes to.
#[derive(Clone, Copy, Debug, PartialEq, Eq, Structural)]
pub enum Queue {
    Decode,
    Copy,
}

/// The fence of a submission: that of a slot, for one of its queues.
#[derive(Clone, Copy, Debug, PartialEq, Eq, Structural)]
pub struct Fence {
    pub queue: Queue,
    pub slot: usize,
}

/// What a submission waits for and signals.
#[derive(Clone, Copy, Debug, PartialEq, Eq, Structural)]
pub struct Submission {
    /// The value of the decode timeline that it waits for.
    pub decode_wait: u64,
    /// The value of the copy timeline that it waits for, if it is a copy.
    pub copy_wait: Option<u64>,
    /// The value of its own timeline that it signals.
    pub signal: u64,
    pub fence: Fence,
}

/// What is handed over when a picture ends.
#[derive(Clone, Copy, Debug, PartialEq, Eq, Structural)]
pub struct EndedPicture {
    /// Slot to release once the picture's work is finished.
    pub slot_index: usize,
    /// Fence signalling that work, if any was submitted.
    pub fence: Option<Fence>,
}

/// The rotation of slots, and the timelines that order their submissions.
#[derive(Clone, Copy, Debug, PartialEq, Eq, Structural)]
pub struct DecodePipeline {
    /// The slot of the picture that is being recorded.
    pub current_slot: usize,
    /// The value that the last decode signals. A timeline wait on value 0 is
    /// satisfied immediately, so the first submission needs no special case.
    pub last_decode_value: u64,
    /// The value that the last copy signals.
    pub last_copy_value: u64,
    /// The fence of the picture's most recent submission, whichever queue it went
    /// to.
    pub last_fence: Option<Fence>,
}

impl DecodePipeline {
    /// Whether the current slot exists.
    pub open spec fn wf(self) -> bool {
        self.current_slot < DECODE_PIPELINE_DEPTH
    }

    /// The next submission to a queue.
    pub open spec fn submission(self, queue: Queue) -> Submission {
        Submission {
            decode_wait: self.last_decode_value,
            copy_wait: match queue {
                Queue::Decode => None,
                Queue::Copy => Some(self.last_copy_value),
            },
            signal: match queue {
                Queue::Decode => (self.last_decode_value + 1) as u64,
                Queue::Copy => (self.last_copy_value + 1) as u64,
            },
            fence: Fence { queue, slot: self.current_slot },
        }
    }

    /// The pipeline once that submission was made.
    pub open spec fn after(self, queue: Queue) -> DecodePipeline {
        let next = self.submission(queue);
        DecodePipeline {
            last_decode_value: match queue {
                Queue::Decode => next.signal,
                Queue::Copy => self.last_decode_value,
            },
            last_copy_value: match queue {
                Queue::Decode => self.last_copy_value,
                Queue::Copy => next.signal,
            },
            last_fence: Some(next.fence),
            ..self
        }
    }

    /// The pipeline once the picture has ended, at the next slot.
    pub open spec fn rotated(self) -> DecodePipeline {
        DecodePipeline {
            current_slot: if self.current_slot + 1 == DECODE_PIPELINE_DEPTH {
                0
            } else {
                (self.current_slot + 1) as usize
            },
            last_fence: None,
            ..self
        }
    }

    /// Whether the timelines have values left.
    pub open spec fn has_values(self) -> bool {
        self.last_decode_value < u64::MAX && self.last_copy_value < u64::MAX
    }

    /// A pipeline with nothing submitted.
    pub fn new() -> (pipeline: Self)
        ensures
            pipeline.wf(),
            pipeline == (DecodePipeline {
                current_slot: 0,
                last_decode_value: 0,
                last_copy_value: 0,
                last_fence: None,
            }),
    {
        DecodePipeline {
            current_slot: 0,
            last_decode_value: 0,
            last_copy_value: 0,
            last_fence: None,
        }
    }

    /// What the current slot's recorded decode waits for and signals: it chains
    /// onto the decode timeline, so the GPU keeps decodes in decode order.
    pub fn decode_submission(&self) -> (submission: Submission)
        requires
            self.has_values(),
        ensures
            submission == self.submission(Queue::Decode),
    {
        Submission {
            decode_wait: self.last_decode_value,
            copy_wait: None,
            signal: self.last_decode_value + 1,
            fence: Fence { queue: Queue::Decode, slot: self.current_slot },
        }
    }

    /// What the current slot's recorded copy waits for and signals: the decode
    /// that produced the picture, and the previous copy, so copies complete in
    /// submission order.
    pub fn copy_submission(&self) -> (submission: Submission)
        requires
            self.has_values(),
        ensures
            submission == self.submission(Queue::Copy),
    {
        Submission {
            decode_wait: self.last_decode_value,
            copy_wait: Some(self.last_copy_value),
            signal: self.last_copy_value + 1,
            fence: Fence { queue: Queue::Copy, slot: self.current_slot },
        }
    }

    /// Record that the next submission to a queue was made. One that failed leaves
    /// the timelines as they were.
    pub fn submitted(&mut self, queue: Queue)
        requires
            old(self).has_values(),
        ensures
            *final(self) == old(self).after(queue),
    {
        let submission = match queue {
            Queue::Decode => self.decode_submission(),
            Queue::Copy => self.copy_submission(),
        };
        match queue {
            Queue::Decode => {
                self.last_decode_value = submission.signal;
            },
            Queue::Copy => {
                self.last_copy_value = submission.signal;
            },
        }
        self.last_fence = Some(submission.fence);
    }

    /// Close off the current picture and move to the next slot.
    ///
    /// The picture's work is tied to its most recent submission's fence. Both
    /// timelines order the copy after its own decode, so waiting on the later
    /// fence covers the earlier submission too.
    pub fn end_picture(&mut self) -> (ended: EndedPicture)
        requires
            old(self).wf(),
        ensures
            final(self).wf(),
            ended == (EndedPicture {
                slot_index: old(self).current_slot,
                fence: old(self).last_fence,
            }),
            *final(self) == (DecodePipeline {
                current_slot: ((old(self).current_slot + 1) % DECODE_PIPELINE_DEPTH as int) as usize,
                last_fence: None,
                ..*old(self)
            }),
            *final(self) == old(self).rotated(),
    {
        let ended = EndedPicture { slot_index: self.current_slot, fence: self.last_fence };
        self.last_fence = None;
        self.current_slot = (self.current_slot + 1) % DECODE_PIPELINE_DEPTH;
        ended
    }
}

/// The pipeline once submissions were made to the given queues, one after the
/// other.
pub open spec fn pipeline_after(start: DecodePipeline, queues: Seq<Queue>) -> DecodePipeline
    decreases queues.len(),
{
    if queues.len() == 0 {
        start
    } else {
        pipeline_after(start, queues.drop_last()).after(queues.last())
    }
}

/// Submission `i` of a run.
pub open spec fn nth_submission(start: DecodePipeline, queues: Seq<Queue>, i: int) -> Submission {
    pipeline_after(start, queues.take(i)).submission(queues[i])
}

/// Whether submission `i` of a run waits for what submission `j` signals.
pub open spec fn awaits(start: DecodePipeline, queues: Seq<Queue>, i: int, j: int) -> bool {
    let waiting = nth_submission(start, queues, i);
    let signal = nth_submission(start, queues, j).signal;
    match queues[j] {
        Queue::Decode => waiting.decode_wait == signal,
        Queue::Copy => waiting.copy_wait == Some(signal),
    }
}

/// Whether a set of finished submissions is possible: none has finished before one
/// that it waits for.
pub open spec fn possible(start: DecodePipeline, queues: Seq<Queue>, finished: Set<int>) -> bool {
    forall|i: int, j: int|
        0 <= j < i < queues.len() && finished.contains(i) && #[trigger] awaits(start, queues, i, j)
            ==> finished.contains(j)
}

proof fn lemma_values(start: DecodePipeline, queues: Seq<Queue>)
    requires
        start.last_decode_value + queues.len() <= u64::MAX,
        start.last_copy_value + queues.len() <= u64::MAX,
    ensures
        ({
            let end = pipeline_after(start, queues);
            &&& start.last_decode_value <= end.last_decode_value <= start.last_decode_value
                + queues.len()
            &&& start.last_copy_value <= end.last_copy_value <= start.last_copy_value
                + queues.len()
        }),
    decreases queues.len(),
{
    if queues.len() > 0 {
        lemma_values(start, queues.drop_last());
    }
}

proof fn lemma_values_grow(start: DecodePipeline, queues: Seq<Queue>, j: int, i: int)
    requires
        start.last_decode_value + queues.len() <= u64::MAX,
        start.last_copy_value + queues.len() <= u64::MAX,
        0 <= j <= i <= queues.len(),
    ensures
        ({
            let a = pipeline_after(start, queues.take(j));
            let b = pipeline_after(start, queues.take(i));
            &&& a.last_decode_value <= b.last_decode_value
            &&& a.last_copy_value <= b.last_copy_value
        }),
    decreases i - j,
{
    if j < i {
        lemma_values_grow(start, queues, j, i - 1);
        assert(queues.take(i).drop_last() =~= queues.take(i - 1));
        lemma_values(start, queues.take(i - 1));
    }
}

/// Once a submission has finished, every decode submitted before it has; and once
/// a copy has finished, every copy submitted before it has too. So the fence of a
/// picture's last submission covers all of the picture's work, and waiting for
/// pictures in order is waiting for everything.
pub proof fn law_finished_covers_earlier(
    start: DecodePipeline,
    queues: Seq<Queue>,
    finished: Set<int>,
    i: int,
    j: int,
)
    requires
        start.last_decode_value + queues.len() <= u64::MAX,
        start.last_copy_value + queues.len() <= u64::MAX,
        possible(start, queues, finished),
        0 <= j < i < queues.len(),
        finished.contains(i),
        queues[j] == Queue::Decode || queues[i] == Queue::Copy,
    ensures
        finished.contains(j),
    decreases i - j,
{
    let queue = queues[j];
    let later = |m: int| j < m < i && queues[m] == queue;
    if exists|m: int| #[trigger] later(m) {
        let m = choose|m: int| #[trigger] later(m);
        law_finished_covers_earlier(start, queues, finished, i, m);
        law_finished_covers_earlier(start, queues, finished, m, j);
    } else {
        assert forall|m: int| j < m < i implies queues[m] != queue by {
            assert(!later(m));
        }
        lemma_unchanged_between(start, queues, j, i);
        assert(awaits(start, queues, i, j));
    }
}

proof fn lemma_unchanged_between(start: DecodePipeline, queues: Seq<Queue>, j: int, i: int)
    requires
        start.last_decode_value + queues.len() <= u64::MAX,
        start.last_copy_value + queues.len() <= u64::MAX,
        0 <= j < i <= queues.len(),
        forall|m: int| j < m < i ==> queues[m] != queues[j],
    ensures
        ({
            let signal = nth_submission(start, queues, j).signal;
            let end = pipeline_after(start, queues.take(i));
            match queues[j] {
                Queue::Decode => end.last_decode_value == signal,
                Queue::Copy => end.last_copy_value == signal,
            }
        }),
    decreases i - j,
{
    assert(queues.take(i).drop_last() =~= queues.take(i - 1));
    if i > j + 1 {
        lemma_unchanged_between(start, queues, j, i - 1);
    }
}

/// The values that a timeline is signalled with grow, as a timeline semaphore
/// demands.
pub proof fn law_signals_grow(start: DecodePipeline, queues: Seq<Queue>, j: int, i: int)
    requires
        start.last_decode_value + queues.len() <= u64::MAX,
        start.last_copy_value + queues.len() <= u64::MAX,
        0 <= j < i < queues.len(),
        queues[j] == queues[i],
    ensures
        nth_submission(start, queues, j).signal < nth_submission(start, queues, i).signal,
{
    assert(queues.take(j + 1).drop_last() =~= queues.take(j));
    lemma_values(start, queues.take(j));
    lemma_values(start, queues.take(i));
    lemma_values_grow(start, queues, j + 1, i);
}

/// Which slots still have work in flight.
pub struct SlotSync {
    busy: Vec<bool>,
}

impl View for SlotSync {
    type V = Seq<bool>;

    closed spec fn view(&self) -> Seq<bool> {
        self.busy@
    }
}

impl SlotSync {
    /// `slots` slots, all free.
    pub fn new(slots: usize) -> (sync: Self)
        ensures
            sync@ == Seq::new(slots as nat, |i: int| false),
    {
        let mut busy: Vec<bool> = Vec::new();
        while busy.len() < slots
            invariant
                busy@.len() <= slots,
                busy@ == Seq::new(busy@.len(), |i: int| false),
            decreases slots - busy@.len(),
        {
            busy.push(false);
            assert(busy@ =~= Seq::new(busy@.len(), |i: int| false));
        }
        SlotSync { busy }
    }

    /// Mark a slot as having work in flight.
    pub fn set_busy(&mut self, index: usize)
        requires
            index < old(self)@.len(),
        ensures
            final(self)@ == old(self)@.update(index as int, true),
    {
        self.busy.set(index, true);
    }

    /// Mark a slot's work as finished.
    pub fn set_free(&mut self, index: usize)
        requires
            index < old(self)@.len(),
        ensures
            final(self)@ == old(self)@.update(index as int, false),
    {
        self.busy.set(index, false);
    }

    /// Whether a slot's previous work is finished, so its command buffers and
    /// staging buffer can be recorded over.
    pub fn is_free(&self, index: usize) -> (free: bool)
        requires
            index < self@.len(),
        ensures
            free == !self@[index as int],
    {
        !self.busy[index]
    }

    /// Whether nothing is in flight.
    pub fn all_free(&self) -> (free: bool)
        ensures
            free == !self@.contains(true),
    {
        let mut i: usize = 0;
        while i < self.busy.len()
            invariant
                i <= self.busy@.len(),
                forall|k: int| 0 <= k < i ==> !self.busy@[k],
            decreases self.busy@.len() - i,
        {
            if self.busy[i] {
                assert(self@[i as int]);
                return false;
            }
            i = i + 1;
        }
        true
    }
}

/// The frames of a batch so far, and why it failed, if it did.
///
/// A decode call submits one item for each picture, then a closing item. Frames
/// accumulate across the items until the closing one, so a call that decoded
/// several pictures still yields a single batch of frames in order.
pub struct Completion<T, E> {
    batch: Vec<T>,
    failure: Option<E>,
}

/// The mathematical view of a [`Completion`].
#[verifier::ext_equal]
pub struct CompletionView<T, E> {
    pub batch: Seq<T>,
    pub failure: Option<E>,
}

impl<T, E> View for Completion<T, E> {
    type V = CompletionView<T, E>;

    closed spec fn view(&self) -> CompletionView<T, E> {
        CompletionView { batch: self.batch@, failure: self.failure }
    }
}

impl<T, E> CompletionView<T, E> {
    /// With one more item: its frames, and why its work failed, if it did. The
    /// first failure stands.
    pub open spec fn with(self, frames: Seq<T>, failure: Option<E>) -> CompletionView<T, E> {
        CompletionView {
            batch: self.batch + frames,
            failure: match self.failure {
                Some(e) => Some(e),
                None => failure,
            },
        }
    }

    /// With nothing in it.
    pub open spec fn empty() -> CompletionView<T, E> {
        CompletionView { batch: Seq::empty(), failure: None }
    }
}

impl<T, E> Completion<T, E> {
    /// An empty batch.
    pub fn new() -> (completion: Self)
        ensures
            completion@ == CompletionView::<T, E>::empty(),
    {
        Completion { batch: Vec::new(), failure: None }
    }

    /// Take in an item whose work has been waited for.
    pub fn absorb(&mut self, frames: Vec<T>, failure: Option<E>)
        ensures
            final(self)@ == old(self)@.with(frames@, failure),
    {
        let mut frames = frames;
        self.batch.append(&mut frames);
        if self.failure.is_none() {
            self.failure = failure;
        }
    }

    /// Close the batch: its frames, or why it failed. The next one starts empty.
    pub fn close(&mut self) -> (result: Result<Vec<T>, E>)
        ensures
            final(self)@ == CompletionView::<T, E>::empty(),
            match old(self)@.failure {
                Some(e) => result == Err::<Vec<T>, E>(e),
                None => result matches Ok(frames) && frames@ == old(self)@.batch,
            },
    {
        let mut batch: Vec<T> = Vec::new();
        std::mem::swap(&mut batch, &mut self.batch);
        let mut failure: Option<E> = None;
        std::mem::swap(&mut failure, &mut self.failure);
        match failure {
            Some(e) => Err(e),
            None => Ok(batch),
        }
    }
}

/// A batch once it has taken in the given items.
pub open spec fn batch_of<T, E>(items: Seq<(Seq<T>, Option<E>)>) -> CompletionView<T, E>
    decreases items.len(),
{
    if items.len() == 0 {
        CompletionView::empty()
    } else {
        batch_of(items.drop_last()).with(items.last().0, items.last().1)
    }
}

/// A batch holds the frames of its items in the order in which they came, and
/// fails exactly if one of them did.
pub proof fn law_batch_keeps_order<T, E>(items: Seq<(Seq<T>, Option<E>)>)
    ensures
        batch_of(items).batch == items.map_values(|item: (Seq<T>, Option<E>)| item.0).flatten(),
        batch_of(items).failure is Some <==> exists|i: int|
            0 <= i < items.len() && (#[trigger] items[i]).1 is Some,
    decreases items.len(),
{
    let frames = items.map_values(|item: (Seq<T>, Option<E>)| item.0);
    if items.len() == 0 {
        assert(frames.flatten() =~= Seq::empty()) by {
            reveal(Seq::<_>::flatten);
        }
    } else {
        let init = items.drop_last();
        law_batch_keeps_order(init);
        let first = init.map_values(|item: (Seq<T>, Option<E>)| item.0);
        assert(frames =~= first.push(items.last().0));
        first.lemma_flatten_push(items.last().0);
        if batch_of(init).failure is Some {
            let i = choose|i: int| 0 <= i < init.len() && (#[trigger] init[i]).1 is Some;
            assert(items[i].1 is Some);
        }
        if exists|i: int| 0 <= i < items.len() && (#[trigger] items[i]).1 is Some {
            let i = choose|i: int| 0 <= i < items.len() && (#[trigger] items[i]).1 is Some;
            if i < init.len() {
                assert(init[i].1 is Some);
            }
        }
        if items.last().1 is Some {
            assert(items[items.len() - 1].1 is Some);
        }
    }
}

/// Each submission is chained to those before it: a decode waits for the decode
/// before, a copy for the last decode and the copy before. Each timeline counts its
/// own submissions one by one, and the fence is that of the picture's slot.
pub proof fn law_submissions_are_chained(start: DecodePipeline, first: Queue, second: Queue)
    requires
        start.last_decode_value + 2 <= u64::MAX,
        start.last_copy_value + 2 <= u64::MAX,
    ensures
        ({
            let before = start.submission(first);
            let after = start.after(first).submission(second);
            &&& first is Decode ==> after.decode_wait == before.signal
            &&& first is Copy ==> after.decode_wait == before.decode_wait
            &&& second is Decode ==> after.copy_wait is None
            &&& second is Copy && first is Copy ==> after.copy_wait == Some(before.signal)
            &&& second is Copy ==> after.copy_wait is Some
            &&& first == second ==> after.signal == before.signal + 1
            &&& first is Decode ==> before.signal == before.decode_wait + 1
            &&& first is Copy ==> before.copy_wait == Some((before.signal - 1) as u64)
            &&& after.fence == (Fence { queue: second, slot: start.current_slot })
            &&& start.after(first).last_fence == Some(before.fence)
            &&& start.after(first).current_slot == start.current_slot
        }),
{
}

/// Pictures take turns at the slots: the next picture has another slot, and comes
/// back to the first only once all of them have had their turn. It begins with
/// nothing submitted, and the timelines go on.
pub proof fn law_pictures_take_turns(pipeline: DecodePipeline)
    requires
        pipeline.wf(),
    ensures
        pipeline.rotated().wf(),
        pipeline.rotated().current_slot != pipeline.current_slot,
        pipeline.rotated().rotated().current_slot == pipeline.current_slot,
        pipeline.rotated().last_fence is None,
        pipeline.rotated().last_decode_value == pipeline.last_decode_value,
        pipeline.rotated().last_copy_value == pipeline.last_copy_value,
{
}

/// The first failure of a batch is the one that it fails with.
pub proof fn law_first_failure_stands<T, E>(items: Seq<(Seq<T>, Option<E>)>, i: int)
    requires
        0 <= i < items.len(),
        items[i].1 is Some,
        forall|j: int| 0 <= j < i ==> (#[trigger] items[j]).1 is None,
    ensures
        batch_of(items).failure == items[i].1,
    decreases items.len(),
{
    let init = items.drop_last();
    if i < init.len() {
        assert forall|j: int| 0 <= j < i implies (#[trigger] init[j]).1 is None by {
            assert(init[j] == items[j]);
        }
        law_first_failure_stands(init, i);
    } else {
        law_batch_keeps_order(init);
        if batch_of(init).failure is Some {
            let k = choose|k: int| 0 <= k < init.len() && (#[trigger] init[k]).1 is Some;
            assert(init[k] == items[k]);
        }
    }
}

} // verus!
