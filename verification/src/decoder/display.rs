//! From decoded picture to frame: what keeps a picture alive while it awaits its
//! turn in display order, and what the caller is handed.

use crate::decoder::frames::SlotPins;
use crate::decoder::pool::{
    frame_access, installed, is_released, law_placement_is_free, placement_of, reclaimed, retain, with_state, FrameAccess,
    FramePool, ImageShape, Placement, PoolImage, PoolIndex, PoolState, ReleaseQueue, Retained,
};
use crate::decoder::reorder::{
    bumped, first_shown, law_held_within_depth, pushed, Buffered, ReorderBuffer,
};
use crate::video::{BitDepth, PixelFormat};
use vstd::prelude::*;

verus! {

/// A freshly decoded picture, before it is handed to the caller.
///
/// The pixels live in a DPB slot (or the session's decode output image), so this
/// descriptor is only valid until the next decode submission.
#[derive(Clone, Copy, Debug, PartialEq, Eq, Structural)]
pub struct DecodedPicture {
    /// DPB slot the picture was decoded into.
    pub slot: u8,
    pub pixel_format: PixelFormat,
    pub bit_depth: BitDepth,
    /// Which set of decoder images the slot belongs to.
    pub generation: u64,
    /// Size to show.
    pub width: u32,
    pub height: u32,
    /// Size of the image.
    pub coded_width: u32,
    pub coded_height: u32,
    pub pts: u64,
    pub display_order: i32,
    pub is_keyframe: bool,
}

/// Where a picture's pixels live until its frame is dropped.
#[derive(Clone, Copy, Debug, PartialEq, Eq, Structural)]
pub enum Storage {
    /// The DPB slot the picture was decoded into, pinned until the frame dies.
    Slot(u8),
    /// A private copy in the frame pool.
    Pool(usize),
}

/// A picture that is handed to the caller, and keeps its storage until it is
/// dropped.
#[derive(Clone, Copy, Debug, PartialEq, Eq, Structural)]
pub struct DecodedFrame {
    pub storage: Storage,
    /// What a consumer may do with the image.
    pub access: FrameAccess,
    pub pixel_format: PixelFormat,
    pub bit_depth: BitDepth,
    pub generation: u64,
    pub width: u32,
    pub height: u32,
    pub coded_width: u32,
    pub coded_height: u32,
    pub pts: u64,
    pub display_order: i32,
    pub is_keyframe: bool,
}

/// What the session allows for the pictures it decodes.
#[derive(Clone, Copy, Debug, PartialEq, Eq, Structural)]
pub struct SessionFrames {
    /// Whether pictures can be handed out where they were decoded.
    pub pinnable: bool,
    /// DPB slots beyond what the stream itself needs.
    pub spare_slots: usize,
    /// What a consumer may do with the session's own images.
    pub access: FrameAccess,
    /// `VkFormat` of the pictures.
    pub format: i32,
}

/// How a picture is kept.
#[derive(Clone, Copy, Debug, PartialEq, Eq, Structural)]
pub enum Keep {
    /// In its slot, which is pinned.
    Pinned,
    /// As a copy, which has to be made.
    CopyTo(Placement),
}

/// The frame of a picture that is kept in `storage`.
pub open spec fn frame_of(
    picture: DecodedPicture,
    storage: Storage,
    session: SessionFrames,
) -> DecodedFrame {
    DecodedFrame {
        storage,
        access: match storage {
            Storage::Slot(_) => session.access,
            Storage::Pool(_) => FrameAccess { sampleable: true, plane_views: true },
        },
        pixel_format: picture.pixel_format,
        bit_depth: picture.bit_depth,
        generation: picture.generation,
        width: picture.width,
        height: picture.height,
        coded_width: picture.coded_width,
        coded_height: picture.coded_height,
        pts: picture.pts,
        display_order: picture.display_order,
        is_keyframe: picture.is_keyframe,
    }
}

/// The pool image that a storage names.
pub open spec fn pool_index(storage: Storage) -> Option<int> {
    match storage {
        Storage::Pool(index) => Some(index as int),
        Storage::Slot(_) => None,
    }
}

/// Whether one of the frames is stored in the pool image at `index`.
pub open spec fn stored_in(frames: Seq<Buffered<DecodedFrame>>, index: int) -> bool {
    exists|i: int|
        0 <= i < frames.len() && pool_index((#[trigger] frames[i]).item.storage) == Some(index)
}

/// The pool once the given frames were handed to the caller.
pub open spec fn handed(images: Seq<PoolImage>, frames: Seq<Buffered<DecodedFrame>>) -> Seq<
    PoolImage,
> {
    Seq::new(
        images.len(),
        |k: int|
            if stored_in(frames, k) {
                PoolImage { state: PoolState::HandedOut, ..images[k] }
            } else {
                images[k]
            },
    )
}

/// The frames themselves.
pub open spec fn items(frames: Seq<Buffered<DecodedFrame>>) -> Seq<DecodedFrame> {
    frames.map_values(|b: Buffered<DecodedFrame>| b.item)
}

/// The pool, and the pictures that await their turn.
#[verifier::ext_equal]
pub struct DisplayView {
    pub images: Seq<PoolImage>,
    pub held: Seq<Buffered<DecodedFrame>>,
}

impl DisplayView {
    /// Whether every waiting picture has storage of its own: the pool images that
    /// are marked as holding a waiting picture are exactly those that one does,
    /// and no two share one.
    pub open spec fn orderly(self) -> bool {
        &&& forall|i: int|
            0 <= i < self.held.len() ==> (pool_index((#[trigger] self.held[i]).item.storage)
                matches Some(k) ==> k < self.images.len())
        &&& forall|k: int|
            0 <= k < self.images.len() ==> ((#[trigger] self.images[k]).state
                == PoolState::Buffered <==> stored_in(self.held, k))
        &&& one_each(self.held)
    }

    /// Once everything that waits was emitted.
    pub open spec fn drained(self) -> DisplayView {
        DisplayView { images: handed(self.images, bumped(self.held, 0).0), held: Seq::empty() }
    }

    /// Once a frame has joined those that wait, and what is ready was emitted.
    pub open spec fn joined(self, frame: DecodedFrame, depth: nat) -> DisplayView {
        let (out, rest) = pushed(self.held, queued(frame), false, depth);
        let images = match pool_index(frame.storage) {
            Some(k) => with_state(self.images, k, PoolState::Buffered),
            None => self.images,
        };
        DisplayView { images: handed(images, out), held: rest }
    }
}

/// Whether no two frames share a pool image.
pub open spec fn one_each(frames: Seq<Buffered<DecodedFrame>>) -> bool {
    forall|i: int, j: int|
        0 <= i < j < frames.len() && pool_index((#[trigger] frames[i]).item.storage) is Some
            ==> pool_index(frames[i].item.storage) != pool_index(
            (#[trigger] frames[j]).item.storage,
        )
}

/// A frame with its place in display order.
pub open spec fn queued(frame: DecodedFrame) -> Buffered<DecodedFrame> {
    Buffered { display_order: frame.display_order, item: frame }
}

/// Whether a sequence of frames is another one with the order changed, in two
/// parts.
spec fn split_of(
    whole: Seq<Buffered<DecodedFrame>>,
    a: Seq<Buffered<DecodedFrame>>,
    b: Seq<Buffered<DecodedFrame>>,
) -> bool {
    &&& one_each(whole) ==> one_each(a) && one_each(b)
    &&& one_each(whole) ==> forall|k: int|
        #![trigger stored_in(a, k)]
        #![trigger stored_in(b, k)]
        stored_in(a, k) ==> !stored_in(b, k)
    &&& forall|k: int|
        #![trigger stored_in(whole, k)]
        #![trigger stored_in(a, k)]
        #![trigger stored_in(b, k)]
        stored_in(whole, k) <==> stored_in(a, k) || stored_in(b, k)
}

proof fn lemma_bumped_splits(held: Seq<Buffered<DecodedFrame>>, depth: nat)
    ensures
        split_of(held, bumped(held, depth).0, bumped(held, depth).1),
    decreases held.len(),
{
    let (out, rest) = bumped(held, depth);
    if held.len() > depth && held.len() > 0 {
        let first = first_shown(held);
        if 0 <= first < held.len() {
            let next = held.remove(first);
            lemma_bumped_splits(next, depth);
            let later = bumped(next, depth).0;
            assert(out =~= seq![held[first]] + later);
            let own = pool_index(held[first].item.storage);
            assert forall|k: int| #[trigger] stored_in(held, k) <==> stored_in(next, k) || own
                == Some(k) by {
                lemma_stored_in_remove(held, first, k);
            }
            assert forall|k: int| #[trigger] stored_in(out, k) <==> stored_in(later, k) || own
                == Some(k) by {
                assert(out.remove(0) =~= later);
                lemma_stored_in_remove(out, 0, k);
            }
            if one_each(held) {
                lemma_one_each_remove(held, first);
                if let Some(k) = own {
                    assert(!stored_in(next, k)) by {
                        if stored_in(next, k) {
                            let i = choose|i: int|
                                0 <= i < next.len() && pool_index(
                                    (#[trigger] next[i]).item.storage,
                                ) == Some(k);
                            let j = if i < first {
                                i
                            } else {
                                i + 1
                            };
                            assert(held[j] == next[i]);
                            assert(held[first].item.storage == held[first].item.storage);
                        }
                    }
                }
                assert forall|i: int, j: int|
                    0 <= i < j < out.len() && pool_index(
                        (#[trigger] out[i]).item.storage,
                    ) is Some implies pool_index(out[i].item.storage) != pool_index(
                    (#[trigger] out[j]).item.storage,
                ) by {
                    assert(out[j] == later[j - 1]);
                    if i == 0 {
                        if pool_index(out[j].item.storage) == own {
                            assert(stored_in(later, own->0));
                        }
                    } else {
                        assert(out[i] == later[i - 1]);
                    }
                }
            }
        } else {
            lemma_nothing_stored();
        }
    } else {
        lemma_nothing_stored();
    }
}

proof fn lemma_nothing_stored()
    ensures
        forall|k: int| !stored_in(Seq::<Buffered<DecodedFrame>>::empty(), k),
{
}

proof fn lemma_stored_in_remove(frames: Seq<Buffered<DecodedFrame>>, at: int, k: int)
    requires
        0 <= at < frames.len(),
    ensures
        stored_in(frames, k) <==> stored_in(frames.remove(at), k) || pool_index(
            frames[at].item.storage,
        ) == Some(k),
{
    let rest = frames.remove(at);
    if stored_in(frames, k) {
        let i = choose|i: int|
            0 <= i < frames.len() && pool_index((#[trigger] frames[i]).item.storage) == Some(k);
        if i != at {
            assert(rest[if i < at { i } else { i - 1 }] == frames[i]);
        }
    }
    if stored_in(rest, k) {
        let i = choose|i: int|
            0 <= i < rest.len() && pool_index((#[trigger] rest[i]).item.storage) == Some(k);
        assert(frames[if i < at { i } else { i + 1 }] == rest[i]);
    }
}

proof fn lemma_one_each_remove(frames: Seq<Buffered<DecodedFrame>>, at: int)
    requires
        0 <= at < frames.len(),
        one_each(frames),
    ensures
        one_each(frames.remove(at)),
{
    let rest = frames.remove(at);
    assert forall|i: int, j: int|
        0 <= i < j < rest.len() && pool_index(
            (#[trigger] rest[i]).item.storage,
        ) is Some implies pool_index(rest[i].item.storage) != pool_index(
        (#[trigger] rest[j]).item.storage,
    ) by {
        assert(rest[i] == frames[if i < at { i } else { i + 1 }]);
        assert(rest[j] == frames[if j < at { j } else { j + 1 }]);
    }
}

/// The pictures on their way from the decoder to the caller.
///
/// A picture survives *in place* where it can: the DPB slot holding it is pinned,
/// so the codec allocates around it, and the picture is handed to the caller
/// without ever being copied. The pin then belongs to the caller's frame and is
/// released when they drop it.
///
/// Slots are finite, so pinning is bounded by what the session reserved. Past
/// that bound a picture is copied into a pool image instead, which costs a copy
/// but keeps decoding correct on devices too small for the stream.
pub struct DisplayQueue {
    pool: FramePool,
    held: ReorderBuffer<DecodedFrame>,
}

impl View for DisplayQueue {
    type V = DisplayView;

    closed spec fn view(&self) -> DisplayView {
        DisplayView { images: self.pool@, held: self.held@ }
    }
}

/// Whether only images that were handed to the caller are released.
pub open spec fn releases_are_due(images: Seq<PoolImage>, released: Seq<PoolIndex>) -> bool {
    forall|i: int|
        0 <= i < released.len() ==> (#[trigger] released[i]).0 < images.len()
            && images[released[i].0 as int].state == PoolState::HandedOut
}

/// The shape of the image that a picture needs.
pub open spec fn shape_of(picture: DecodedPicture, session: SessionFrames) -> ImageShape {
    ImageShape {
        coded_width: picture.coded_width,
        coded_height: picture.coded_height,
        format: session.format,
    }
}

impl DisplayQueue {
    /// An empty queue.
    pub fn new() -> (queue: Self)
        ensures
            queue@ == (DisplayView { images: Seq::empty(), held: Seq::empty() }),
            queue@.orderly(),
    {
        Self { pool: FramePool::new(), held: ReorderBuffer::new() }
    }

    /// Hand frames to the caller: each keeps its storage until it is dropped.
    fn hand_over(&mut self, out: Vec<Buffered<DecodedFrame>>) -> (frames: Vec<DecodedFrame>)
        requires
            forall|i: int|
                0 <= i < out@.len() ==> (pool_index((#[trigger] out@[i]).item.storage) matches Some(
                    k,
                ) ==> k < old(self)@.images.len()),
        ensures
            frames@ == items(out@),
            final(self)@ == (DisplayView {
                images: handed(old(self)@.images, out@),
                held: old(self)@.held,
            }),
    {
        let mut frames: Vec<DecodedFrame> = Vec::new();
        let ghost all = self@.images;
        let mut i: usize = 0;
        assert(handed(all, out@.take(0)) =~= all);
        while i < out.len()
            invariant
                i <= out@.len(),
                all == old(self)@.images,
                self.held@ == old(self)@.held,
                self.pool@ == handed(all, out@.take(i as int)),
                frames@ == items(out@.take(i as int)),
                forall|k: int|
                    0 <= k < out@.len() ==> (pool_index((#[trigger] out@[k]).item.storage)
                        matches Some(index) ==> index < all.len()),
            decreases out@.len() - i,
        {
            let frame: DecodedFrame = out[i].item;
            let ghost seen = out@.take(i as int);
            let ghost next = out@.take(i + 1);
            assert(next =~= seen.push(out@[i as int]));
            assert(next.remove(i as int) =~= seen);
            let ghost before = self.pool@;
            if let Storage::Pool(index) = frame.storage {
                self.pool.hand_out(index);
            }
            assert forall|k: int| #[trigger] stored_in(next, k) <==> stored_in(seen, k)
                || pool_index(frame.storage) == Some(k) by {
                lemma_stored_in_remove(next, i as int, k);
            }
            assert(self.pool@ =~= handed(all, next));
            frames.push(frame);
            assert(frames@ =~= items(next));
            i = i + 1;
        }
        assert(out@.take(i as int) =~= out@);
        frames
    }

    /// Begin to add a freshly decoded picture: drain what a keyframe puts behind
    /// us, and decide how the picture is kept. Display order restarts at a
    /// keyframe, so the previous sequence must be fully drained before this
    /// picture, which belongs to the new one.
    ///
    /// Returns the frames that are ready, and where to copy the picture if it
    /// cannot stay in its slot.
    pub fn begin_push(
        &mut self,
        picture: &DecodedPicture,
        session: &SessionFrames,
        pins: &mut SlotPins,
        releases: &mut ReleaseQueue,
    ) -> (result: (Vec<DecodedFrame>, Keep))
        requires
            old(self)@.orderly(),
            picture.slot < 32,
            releases_are_due(old(self)@.images, old(releases)@),
        ensures
            final(self)@.orderly(),
            ({
                let start = old(self)@;
                let (frames, keep) = result;
                let ready = if picture.is_keyframe {
                    bumped(start.held, 0).0
                } else {
                    Seq::empty()
                };
                let after = if picture.is_keyframe {
                    start.drained()
                } else {
                    start
                };
                let pinned = session.pinnable && old(pins)@.len() < session.spare_slots;
                let images = reclaimed(after.images, old(releases)@);
                &&& frames@ == items(ready)
                &&& final(pins).released() == old(pins).released()
                &&& pinned ==> {
                    &&& keep == Keep::Pinned
                    &&& final(self)@ == after
                    &&& final(pins)@ == old(pins)@.insert(picture.slot)
                    &&& final(releases)@ == old(releases)@
                }
                &&& !pinned ==> {
                    &&& keep == Keep::CopyTo(placement_of(images, shape_of(*picture, *session)))
                    &&& final(self)@ == (DisplayView { images, held: after.held })
                    &&& final(pins)@ == old(pins)@
                    &&& final(releases)@ == Seq::<PoolIndex>::empty()
                }
            }),
    {
        let mut frames: Vec<DecodedFrame> = Vec::new();
        assert(frames@ =~= items(Seq::empty()));
        if picture.is_keyframe {
            frames = self.flush();
        }
        let ghost after = self@;
        match retain(pins, picture.slot, session.pinnable, session.spare_slots) {
            Retained::Slot => (frames, Keep::Pinned),
            Retained::Copy => {
                let released: Vec<PoolIndex> = releases.take();
                self.pool.reclaim(&released);
                proof {
                    lemma_reclaim_is_orderly(after, released@);
                }
                let shape = ImageShape {
                    coded_width: picture.coded_width,
                    coded_height: picture.coded_height,
                    format: session.format,
                };
                let placement = self.pool.place(shape);
                (frames, Keep::CopyTo(placement))
            },
        }
    }

    /// Record that an image was made for a copy, where one was asked for. Returns
    /// the index of the image to copy to.
    pub fn install(&mut self, placement: Placement, shape: ImageShape) -> (index: usize)
        requires
            old(self)@.orderly(),
            placement == placement_of(old(self)@.images, shape),
        ensures
            final(self)@.orderly(),
            (index as int, final(self)@.images) == installed(
                old(self)@.images,
                placement,
                shape,
            ),
            final(self)@.held == old(self)@.held,
            index < final(self)@.images.len(),
            final(self)@.images[index as int] == (PoolImage { shape, state: PoolState::Free }),
    {
        proof {
            self.pool.lemma_len();
            law_placement_is_free(self.pool@, shape);
        }
        let ghost start = self@;
        let index: usize = self.pool.install(placement, shape);
        proof {
            let done = self@;
            assert forall|k: int| 0 <= k < done.images.len() implies ((
            #[trigger] done.images[k]).state == PoolState::Buffered <==> stored_in(
                done.held,
                k,
            )) by {
                if k < start.images.len() {
                    assert(start.images[k].state == PoolState::Buffered <==> stored_in(
                        start.held,
                        k,
                    ));
                } else if stored_in(start.held, k) {
                    let i = choose|i: int|
                        0 <= i < start.held.len() && pool_index(
                            (#[trigger] start.held[i]).item.storage,
                        ) == Some(k);
                }
            }
        }
        index
    }

    /// Add a picture that is kept in `storage`, and return whatever is now ready
    /// to output. `reorder_depth` is how many pictures may precede a held one
    /// before it has to be emitted.
    pub fn complete_push(
        &mut self,
        picture: &DecodedPicture,
        storage: Storage,
        session: &SessionFrames,
        reorder_depth: usize,
    ) -> (frames: Vec<DecodedFrame>)
        requires
            old(self)@.orderly(),
            storage matches Storage::Pool(index) ==> index < old(self)@.images.len() && old(
                self,
            )@.images[index as int].state == PoolState::Free,
        ensures
            final(self)@.orderly(),
            ({
                let frame = frame_of(*picture, storage, *session);
                let depth = reorder_depth as nat;
                &&& frames@ == items(pushed(old(self)@.held, queued(frame), false, depth).0)
                &&& final(self)@ == old(self)@.joined(frame, depth)
            }),
    {
        let ghost start = self@;
        let access = match storage {
            Storage::Slot(_) => frame_access(Retained::Slot, session.access),
            Storage::Pool(_) => frame_access(Retained::Copy, session.access),
        };
        if let Storage::Pool(index) = storage {
            self.pool.buffer(index);
        }
        let frame = DecodedFrame {
            storage,
            access,
            pixel_format: picture.pixel_format,
            bit_depth: picture.bit_depth,
            generation: picture.generation,
            width: picture.width,
            height: picture.height,
            coded_width: picture.coded_width,
            coded_height: picture.coded_height,
            pts: picture.pts,
            display_order: picture.display_order,
            is_keyframe: picture.is_keyframe,
        };
        let entry = Buffered { display_order: frame.display_order, item: frame };
        let ghost marked = self@.images;
        let out: Vec<Buffered<DecodedFrame>> = self.held.push(entry, false, reorder_depth);
        proof {
            lemma_join(start, frame, reorder_depth as nat);
        }
        self.hand_over(out)
    }

    /// Emit every waiting picture in display order. Call at end of stream.
    pub fn flush(&mut self) -> (frames: Vec<DecodedFrame>)
        requires
            old(self)@.orderly(),
        ensures
            final(self)@.orderly(),
            frames@ == items(bumped(old(self)@.held, 0).0),
            final(self)@ == old(self)@.drained(),
    {
        let ghost start = self@;
        let out: Vec<Buffered<DecodedFrame>> = self.held.flush();
        proof {
            lemma_drain(start);
        }
        self.hand_over(out)
    }

    /// Whether any copy that was handed to the caller is still alive.
    pub fn has_live_frames(&mut self, releases: &mut ReleaseQueue) -> (live: bool)
        requires
            old(self)@.orderly(),
            releases_are_due(old(self)@.images, old(releases)@),
        ensures
            final(self)@.orderly(),
            final(self)@ == (DisplayView {
                images: reclaimed(old(self)@.images, old(releases)@),
                held: old(self)@.held,
            }),
            final(releases)@ == Seq::<PoolIndex>::empty(),
            live == exists|k: int|
                0 <= k < final(self)@.images.len() && (#[trigger] final(self)@.images[k]).state
                    == PoolState::HandedOut,
    {
        let ghost start = self@;
        let released: Vec<PoolIndex> = releases.take();
        self.pool.reclaim(&released);
        proof {
            lemma_reclaim_is_orderly(start, released@);
        }
        self.pool.has_live_frames()
    }
}

proof fn lemma_reclaim_is_orderly(view: DisplayView, released: Seq<PoolIndex>)
    requires
        view.orderly(),
        releases_are_due(view.images, released),
    ensures
        (DisplayView { images: reclaimed(view.images, released), held: view.held }).orderly(),
{
    let images = reclaimed(view.images, released);
    assert forall|k: int| 0 <= k < images.len() implies ((#[trigger] images[k]).state
        == PoolState::Buffered <==> stored_in(view.held, k)) by {
        assert(view.images[k].state == PoolState::Buffered <==> stored_in(view.held, k));
    }
}

proof fn lemma_members_in_pool(
    frames: Seq<Buffered<DecodedFrame>>,
    whole: Seq<Buffered<DecodedFrame>>,
    len: int,
)
    requires
        forall|k: int| #[trigger] stored_in(frames, k) ==> stored_in(whole, k),
        forall|i: int|
            0 <= i < whole.len() ==> (pool_index((#[trigger] whole[i]).item.storage) matches Some(k)
                ==> k < len),
    ensures
        forall|i: int|
            0 <= i < frames.len() ==> (pool_index((#[trigger] frames[i]).item.storage) matches Some(
                k,
            ) ==> k < len),
{
    assert forall|i: int|
        0 <= i < frames.len() && pool_index(
            (#[trigger] frames[i]).item.storage,
        ) is Some implies pool_index(frames[i].item.storage)->0 < len by {
        let k = pool_index(frames[i].item.storage)->0;
        assert(stored_in(frames, k));
        assert(stored_in(whole, k));
    }
}

proof fn lemma_drain(view: DisplayView)
    requires
        view.orderly(),
    ensures
        view.drained().orderly(),
        forall|i: int|
            0 <= i < bumped(view.held, 0).0.len() ==> (pool_index(
                (#[trigger] bumped(view.held, 0).0[i]).item.storage,
            ) matches Some(k) ==> k < view.images.len()),
{
    let out = bumped(view.held, 0).0;
    lemma_bumped_splits(view.held, 0);
    law_held_within_depth(view.held, 0);
    assert(bumped(view.held, 0).1 =~= Seq::empty());
    lemma_nothing_stored();
    lemma_members_in_pool(out, view.held, view.images.len() as int);
    let done = view.drained();
    assert forall|k: int| 0 <= k < done.images.len() implies ((#[trigger] done.images[k]).state
        == PoolState::Buffered <==> stored_in(done.held, k)) by {
        assert(view.images[k].state == PoolState::Buffered <==> stored_in(view.held, k));
        assert(stored_in(view.held, k) <==> stored_in(out, k));
    }
}

proof fn lemma_join(view: DisplayView, frame: DecodedFrame, depth: nat)
    requires
        view.orderly(),
        pool_index(frame.storage) matches Some(k) ==> k < view.images.len() && view.images[k].state
            == PoolState::Free,
    ensures
        view.joined(frame, depth).orderly(),
        forall|i: int|
            0 <= i < pushed(view.held, queued(frame), false, depth).0.len() ==> (pool_index(
                (#[trigger] pushed(view.held, queued(frame), false, depth).0[i]).item.storage,
            ) matches Some(k) ==> k < view.images.len()),
{
    let whole = view.held.push(queued(frame));
    let (out, rest) = bumped(whole, depth);
    assert(Seq::empty() + out =~= out);
    let own = pool_index(frame.storage);
    assert(whole.remove(view.held.len() as int) =~= view.held);
    assert forall|k: int| #[trigger] stored_in(whole, k) <==> stored_in(view.held, k) || own
        == Some(k) by {
        lemma_stored_in_remove(whole, view.held.len() as int, k);
    }
    assert(one_each(whole)) by {
        assert forall|i: int, j: int|
            0 <= i < j < whole.len() && pool_index(
                (#[trigger] whole[i]).item.storage,
            ) is Some implies pool_index(whole[i].item.storage) != pool_index(
            (#[trigger] whole[j]).item.storage,
        ) by {
            assert(whole[i] == view.held[i]);
            if j < view.held.len() {
                assert(whole[j] == view.held[j]);
            } else if own is Some && pool_index(whole[i].item.storage) == own {
                assert(stored_in(view.held, own->0));
                assert(view.images[own->0].state == PoolState::Buffered);
            }
        }
    }
    lemma_bumped_splits(whole, depth);
    lemma_members_in_pool(out, whole, view.images.len() as int);
    lemma_members_in_pool(rest, whole, view.images.len() as int);
    let done = view.joined(frame, depth);
    assert forall|k: int| 0 <= k < done.images.len() implies ((#[trigger] done.images[k]).state
        == PoolState::Buffered <==> stored_in(done.held, k)) by {
        assert(view.images[k].state == PoolState::Buffered <==> stored_in(view.held, k));
        assert(stored_in(whole, k) <==> stored_in(view.held, k) || own == Some(k));
        assert(stored_in(whole, k) <==> stored_in(out, k) || stored_in(rest, k));
    }
}

/// A frame keeps its storage until the caller drops it: nothing the queue does
/// changes an image that was handed out, unless it was released. Here `k` is such
/// an image, and the queue drains, reclaims released images, makes room for a copy
/// or takes in another frame.
pub proof fn law_frames_keep_their_storage(
    view: DisplayView,
    k: int,
    released: Seq<PoolIndex>,
    shape: ImageShape,
    frame: DecodedFrame,
    depth: nat,
)
    requires
        view.orderly(),
        view.images.len() <= usize::MAX,
        0 <= k < view.images.len(),
        view.images[k].state == PoolState::HandedOut,
        !is_released(released, k),
        pool_index(frame.storage) matches Some(index) ==> 0 <= index < view.images.len()
            && view.images[index].state == PoolState::Free,
    ensures
        view.drained().images[k] == view.images[k],
        reclaimed(view.images, released)[k] == view.images[k],
        installed(view.images, placement_of(view.images, shape), shape).1[k] == view.images[k],
        view.joined(frame, depth).images[k] == view.images[k],
{
    law_placement_is_free(view.images, shape);
    assert(!stored_in(view.held, k));
    lemma_bumped_splits(view.held, 0);
    assert(!stored_in(bumped(view.held, 0).0, k));
    let whole = view.held.push(queued(frame));
    let out = bumped(whole, depth).0;
    assert(Seq::empty() + out =~= out);
    assert(whole.remove(view.held.len() as int) =~= view.held);
    lemma_stored_in_remove(whole, view.held.len() as int, k);
    lemma_bumped_splits(whole, depth);
    assert(!stored_in(out, k));
}

/// Draining at a keyframe and then adding the picture is one push of a keyframe.
pub proof fn law_two_steps_are_one_push(
    held: Seq<Buffered<DecodedFrame>>,
    frame: DecodedFrame,
    depth: nat,
)
    ensures
        ({
            let (out, rest) = pushed(Seq::empty(), queued(frame), false, depth);
            pushed(held, queued(frame), true, depth) == (bumped(held, 0).0 + out, rest)
        }),
{
    law_held_within_depth(held, 0);
    assert(bumped(held, 0).1 =~= Seq::empty());
    let out = bumped(Seq::empty().push(queued(frame)), depth).0;
    assert(Seq::empty() + out =~= out);
}

/// A frame is its picture: it has the size, the format, the timestamp and the place
/// in display order that were decoded. What a consumer may do with it goes by where
/// it is kept: a copy can be sampled and viewed plane by plane, a slot as the session
/// allows.
pub proof fn law_frame_is_its_picture(
    picture: DecodedPicture,
    storage: Storage,
    session: SessionFrames,
)
    ensures
        ({
            let frame = frame_of(picture, storage, session);
            &&& frame.storage == storage
            &&& frame.width == picture.width && frame.height == picture.height
            &&& frame.coded_width == picture.coded_width && frame.coded_height
                == picture.coded_height
            &&& frame.pixel_format == picture.pixel_format
            &&& frame.bit_depth == picture.bit_depth
            &&& frame.generation == picture.generation
            &&& frame.pts == picture.pts
            &&& frame.is_keyframe == picture.is_keyframe
            &&& queued(frame).display_order == picture.display_order
            &&& queued(frame).item == frame
            &&& storage is Slot ==> frame.access == session.access
            &&& storage is Pool ==> frame.access.sampleable && frame.access.plane_views
            &&& shape_of(picture, session).coded_width == frame.coded_width
            &&& shape_of(picture, session).coded_height == frame.coded_height
            &&& shape_of(picture, session).format == session.format
        }),
{
}

/// Handing frames out marks the images that they are kept in, and no others.
pub proof fn law_handed_frames_are_marked(
    images: Seq<PoolImage>,
    frames: Seq<Buffered<DecodedFrame>>,
    i: int,
    k: int,
)
    requires
        0 <= i < frames.len(),
        0 <= k < images.len(),
    ensures
        handed(images, frames).len() == images.len(),
        handed(images, frames)[k].shape == images[k].shape,
        frames[i].item.storage == Storage::Pool(k as usize) && k <= usize::MAX ==> handed(
            images,
            frames,
        )[k].state == PoolState::HandedOut,
        (forall|j: int|
            0 <= j < frames.len() ==> (#[trigger] frames[j]).item.storage != Storage::Pool(
                k as usize,
            )) && k <= usize::MAX ==> handed(images, frames)[k] == images[k],
        items(frames).len() == frames.len(),
        items(frames)[i] == frames[i].item,
{
    if handed(images, frames)[k] != images[k] {
        let j = choose|j: int|
            0 <= j < frames.len() && pool_index((#[trigger] frames[j]).item.storage) == Some(k);
        assert(frames[j].item.storage == Storage::Pool(k as usize));
    }
}

} // verus!
