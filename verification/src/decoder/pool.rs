//! Storage of decoded pictures that cannot stay where they were decoded.
//!
//! Normally a decoded picture stays in its DPB slot, pinned so the codec
//! allocates around it: no copy happens between the decoder and the caller. A
//! pool image (a copy) is the fallback for devices with no slots to spare, and
//! for drivers that decode into a distinct output image the next picture
//! overwrites.

use crate::decoder::frames::SlotPins;
use vstd::prelude::*;

verus! {

/// An image in the frame pool, by index.
#[derive(Clone, Copy, Debug, PartialEq, Eq, Structural)]
pub struct PoolIndex(pub usize);

/// Pool images released by frames the caller has dropped, waiting to be
/// reclaimed.
#[derive(Debug)]
pub struct ReleaseQueue {
    released: Vec<PoolIndex>,
}

impl View for ReleaseQueue {
    type V = Seq<PoolIndex>;

    closed spec fn view(&self) -> Seq<PoolIndex> {
        self.released@
    }
}

impl Default for ReleaseQueue {
    /// Nothing was released.
    fn default() -> (queue: Self)
        ensures
            queue@ == Seq::<PoolIndex>::empty(),
    {
        ReleaseQueue { released: Vec::new() }
    }
}

impl ReleaseQueue {
    /// Release an image.
    pub fn push(&mut self, index: PoolIndex)
        ensures
            final(self)@ == old(self)@.push(index),
    {
        self.released.push(index);
    }

    /// Take everything that was released.
    pub fn take(&mut self) -> (released: Vec<PoolIndex>)
        ensures
            released@ == old(self)@,
            final(self)@ == Seq::<PoolIndex>::empty(),
    {
        let mut released: Vec<PoolIndex> = Vec::new();
        std::mem::swap(&mut released, &mut self.released);
        released
    }
}

/// State of one image in the frame pool.
#[derive(Clone, Copy, Debug, PartialEq, Eq, Structural)]
pub enum PoolState {
    /// Reusable.
    Free,
    /// Holds a decoded picture awaiting its turn in display order.
    Buffered,
    /// Handed to the caller; reserved until they drop their frame.
    HandedOut,
}

/// The size and format of an image.
#[derive(Clone, Copy, Debug, PartialEq, Eq, Structural)]
pub struct ImageShape {
    pub coded_width: u32,
    pub coded_height: u32,
    /// `VkFormat`.
    pub format: i32,
}

/// One pooled image, sized to the picture it currently holds.
#[derive(Clone, Copy, Debug, PartialEq, Eq, Structural)]
pub struct PoolImage {
    pub shape: ImageShape,
    pub state: PoolState,
}

/// Where a picture is copied to.
#[derive(Clone, Copy, Debug, PartialEq, Eq, Structural)]
pub enum Placement {
    /// Into this image, which has the right shape.
    Reuse(usize),
    /// Into a new image that takes the place of this one.
    Replace(usize),
    /// Into a new image at the end of the pool.
    Grow,
}

/// Images that decoded pictures are copied into so they outlive their DPB slot.
///
/// The pool grows on demand and shrinks never: an image is reused as soon as the
/// frame holding it is dropped, so steady-state size is "what the caller holds
/// at once, plus the reorder depth". Its view is the sequence of images.
pub struct FramePool {
    images: Vec<PoolImage>,
}

impl View for FramePool {
    type V = Seq<PoolImage>;

    closed spec fn view(&self) -> Seq<PoolImage> {
        self.images@
    }
}

/// The index of the first image from `from` on that is free and, where a shape is
/// asked for, has it; the number of images where there is none.
pub open spec fn first_free(images: Seq<PoolImage>, shape: Option<ImageShape>, from: int) -> int
    decreases images.len() - from,
{
    if from >= images.len() {
        images.len() as int
    } else if images[from].state == PoolState::Free && (shape is None || shape == Some(
        images[from].shape,
    )) {
        from
    } else {
        first_free(images, shape, from + 1)
    }
}

/// Where a picture of the given shape is copied to.
pub open spec fn placement_of(images: Seq<PoolImage>, shape: ImageShape) -> Placement {
    let matching = first_free(images, Some(shape), 0);
    let free = first_free(images, None, 0);
    if matching < images.len() {
        Placement::Reuse(matching as usize)
    } else if free < images.len() {
        Placement::Replace(free as usize)
    } else {
        Placement::Grow
    }
}

/// Where a picture goes, and the pool once an image was made for it if need be.
pub open spec fn installed(
    images: Seq<PoolImage>,
    placement: Placement,
    shape: ImageShape,
) -> (int, Seq<PoolImage>) {
    let fresh = PoolImage { shape, state: PoolState::Free };
    match placement {
        Placement::Reuse(i) => (i as int, images),
        Placement::Replace(i) => (i as int, images.update(i as int, fresh)),
        Placement::Grow => (images.len() as int, images.push(fresh)),
    }
}

/// The pool with another state of one image.
pub open spec fn with_state(images: Seq<PoolImage>, index: int, state: PoolState) -> Seq<
    PoolImage,
> {
    images.update(index, PoolImage { state, ..images[index] })
}

/// Whether the image at `index` is among the released ones.
pub open spec fn is_released(released: Seq<PoolIndex>, index: int) -> bool {
    exists|k: int| 0 <= k < released.len() && (#[trigger] released[k]).0 == index
}

/// The pool once the given images were released.
pub open spec fn reclaimed(images: Seq<PoolImage>, released: Seq<PoolIndex>) -> Seq<PoolImage> {
    Seq::new(
        images.len(),
        |i: int|
            if is_released(released, i) {
                PoolImage { state: PoolState::Free, ..images[i] }
            } else {
                images[i]
            },
    )
}

impl FramePool {
    /// An empty pool.
    pub fn new() -> (pool: Self)
        ensures
            pool@ == Seq::<PoolImage>::empty(),
    {
        Self { images: Vec::new() }
    }

    /// A pool has no more images than can be numbered.
    pub proof fn lemma_len(&self)
        ensures
            self@.len() <= usize::MAX,
    {
        assert(self.images@.len() == self.images.len());
    }

    /// Fold in the images released by dropped frames.
    pub fn reclaim(&mut self, released: &Vec<PoolIndex>)
        requires
            forall|i: int|
                0 <= i < released@.len() ==> (#[trigger] released@[i]).0 < old(self)@.len(),
        ensures
            final(self)@ == reclaimed(old(self)@, released@),
    {
        let ghost all = self@;
        let mut i: usize = 0;
        assert(self@ =~= reclaimed(all, released@.take(0)));
        while i < released.len()
            invariant
                i <= released@.len(),
                all == old(self)@,
                self@ == reclaimed(all, released@.take(i as int)),
                forall|k: int|
                    0 <= k < released@.len() ==> (#[trigger] released@[k]).0 < all.len(),
            decreases released@.len() - i,
        {
            let index: usize = released[i].0;
            let ghost seen = released@.take(i as int);
            let ghost next = released@.take(i + 1);
            assert(next =~= seen.push(released@[i as int]));
            let mut image: PoolImage = self.images[index];
            image.state = PoolState::Free;
            self.images.set(index, image);
            assert forall|k: int| #[trigger] is_released(next, k) == (is_released(seen, k) || k
                == index) by {
                assert(next[i as int].0 == index);
                if is_released(seen, k) {
                    let j = choose|j: int| 0 <= j < seen.len() && (#[trigger] seen[j]).0 == k;
                    assert(next[j].0 == k);
                }
                if is_released(next, k) {
                    let j = choose|j: int| 0 <= j < next.len() && (#[trigger] next[j]).0 == k;
                    if j < i {
                        assert(seen[j].0 == k);
                    }
                }
            }
            assert(self@ =~= reclaimed(all, next));
            i = i + 1;
        }
        assert(released@.take(i as int) =~= released@);
    }

    /// The first free image, of the given shape where one is asked for.
    fn find_free(&self, shape: Option<ImageShape>) -> (found: usize)
        ensures
            found == first_free(self@, shape, 0),
            found <= self@.len(),
    {
        let mut i: usize = 0;
        while i < self.images.len()
            invariant
                i <= self.images@.len(),
                first_free(self@, shape, 0) == first_free(self@, shape, i as int),
            decreases self.images@.len() - i,
        {
            let image: PoolImage = self.images[i];
            let matches = match shape {
                Some(shape) => image.shape == shape,
                None => true,
            };
            if image.state == PoolState::Free && matches {
                return i;
            }
            i = i + 1;
        }
        i
    }

    /// Where to copy a picture of the given shape. Resolution changes recreate a
    /// mismatched image.
    pub fn place(&self, shape: ImageShape) -> (placement: Placement)
        ensures
            placement == placement_of(self@, shape),
            match placement {
                Placement::Reuse(i) => i < self@.len() && self@[i as int] == (PoolImage {
                    shape,
                    state: PoolState::Free,
                }),
                Placement::Replace(i) => i < self@.len() && self@[i as int].state
                    == PoolState::Free,
                Placement::Grow => true,
            },
    {
        proof {
            lemma_first_free(self@, Some(shape), 0);
            lemma_first_free(self@, None, 0);
        }
        let matching: usize = self.find_free(Some(shape));
        if matching < self.images.len() {
            return Placement::Reuse(matching);
        }
        let free: usize = self.find_free(None);
        if free < self.images.len() {
            Placement::Replace(free)
        } else {
            Placement::Grow
        }
    }

    /// Record that an image was made where the placement asks for one. Returns the
    /// index of the image that the picture goes to, which is free.
    pub fn install(&mut self, placement: Placement, shape: ImageShape) -> (index: usize)
        requires
            placement matches Placement::Reuse(i) ==> i < old(self)@.len(),
            placement matches Placement::Replace(i) ==> i < old(self)@.len(),
        ensures
            (index as int, final(self)@) == installed(old(self)@, placement, shape),
    {
        match placement {
            Placement::Reuse(i) => i,
            Placement::Replace(i) => {
                self.images.set(i, PoolImage { shape, state: PoolState::Free });
                i
            },
            Placement::Grow => {
                let index: usize = self.images.len();
                self.images.push(PoolImage { shape, state: PoolState::Free });
                index
            },
        }
    }

    /// Mark `index` as holding a picture that awaits its turn in display order.
    pub fn buffer(&mut self, index: usize)
        requires
            index < old(self)@.len(),
        ensures
            final(self)@ == with_state(old(self)@, index as int, PoolState::Buffered),
    {
        let mut image: PoolImage = self.images[index];
        image.state = PoolState::Buffered;
        self.images.set(index, image);
    }

    /// Mark `index` as handed to the caller.
    pub fn hand_out(&mut self, index: usize) -> (handed: PoolIndex)
        requires
            index < old(self)@.len(),
        ensures
            handed == PoolIndex(index),
            final(self)@ == with_state(old(self)@, index as int, PoolState::HandedOut),
    {
        let mut image: PoolImage = self.images[index];
        image.state = PoolState::HandedOut;
        self.images.set(index, image);
        PoolIndex(index)
    }

    /// Whether any frame handed to the caller is still alive.
    pub fn has_live_frames(&self) -> (live: bool)
        ensures
            live == exists|i: int|
                0 <= i < self@.len() && (#[trigger] self@[i]).state == PoolState::HandedOut,
    {
        let mut i: usize = 0;
        while i < self.images.len()
            invariant
                i <= self.images@.len(),
                forall|k: int|
                    0 <= k < i ==> (#[trigger] self@[k]).state != PoolState::HandedOut,
            decreases self.images@.len() - i,
        {
            if self.images[i].state == PoolState::HandedOut {
                assert(self@[i as int].state == PoolState::HandedOut);
                return true;
            }
            i = i + 1;
        }
        false
    }
}

proof fn lemma_first_free(images: Seq<PoolImage>, shape: Option<ImageShape>, from: int)
    requires
        0 <= from <= images.len(),
    ensures
        from <= first_free(images, shape, from) <= images.len(),
        first_free(images, shape, from) < images.len() ==> {
            let image = images[first_free(images, shape, from)];
            image.state == PoolState::Free && (shape is None || shape == Some(image.shape))
        },
    decreases images.len() - from,
{
    if from < images.len() {
        lemma_first_free(images, shape, from + 1);
    }
}

/// A picture that someone still reads is never copied over: the image that a
/// picture is placed in is a free one, or a new one.
pub proof fn law_placement_is_free(images: Seq<PoolImage>, shape: ImageShape)
    requires
        images.len() <= usize::MAX,
    ensures
        match placement_of(images, shape) {
            Placement::Reuse(i) => i < images.len() && images[i as int] == (PoolImage {
                shape,
                state: PoolState::Free,
            }),
            Placement::Replace(i) => i < images.len() && images[i as int].state
                == PoolState::Free,
            Placement::Grow => forall|i: int|
                0 <= i < images.len() ==> (#[trigger] images[i]).state != PoolState::Free,
        },
{
    lemma_first_free(images, Some(shape), 0);
    lemma_first_free(images, None, 0);
    if placement_of(images, shape) == Placement::Grow {
        lemma_none_free(images, 0);
    }
}

proof fn lemma_none_free(images: Seq<PoolImage>, from: int)
    requires
        0 <= from <= images.len(),
        first_free(images, None, from) == images.len(),
    ensures
        forall|i: int|
            from <= i < images.len() ==> (#[trigger] images[i]).state != PoolState::Free,
    decreases images.len() - from,
{
    if from < images.len() {
        lemma_none_free(images, from + 1);
    }
}

/// How a decoded picture outlives the decode that produced it.
#[derive(Clone, Copy, Debug, PartialEq, Eq, Structural)]
pub enum Retained {
    /// In the DPB slot it was decoded into, which is pinned.
    Slot,
    /// As a copy in the frame pool.
    Copy,
}

/// Make a decoded picture outlive the decode that produced it.
///
/// Pins its DPB slot when the session has room to spare, and asks for a copy
/// otherwise.
///
/// The budget counts every pin that exists: frames already emitted hold theirs
/// until the caller drops them, and a single decode call can emit many. Staying
/// within `spare_slots` is what guarantees the codec always has a slot to decode
/// into, so a caller who holds frames gets copies rather than a decoder that
/// cannot proceed.
pub fn retain(pins: &mut SlotPins, slot: u8, pinnable: bool, spare_slots: usize) -> (retained:
    Retained)
    requires
        slot < 32,
    ensures
        retained == Retained::Slot <==> pinnable && old(pins)@.len() < spare_slots,
        final(pins)@ == if retained == Retained::Slot {
            old(pins)@.insert(slot)
        } else {
            old(pins)@
        },
        final(pins).released() == old(pins).released(),
        old(pins)@.finite(),
        old(pins)@.len() <= spare_slots ==> final(pins)@.len() <= spare_slots,
{
    let count: usize = pins.count();
    if pinnable && count < spare_slots {
        pins.pin(slot);
        Retained::Slot
    } else {
        Retained::Copy
    }
}

/// What a consumer may do with a frame.
#[derive(Clone, Copy, Debug, PartialEq, Eq, Structural)]
pub struct FrameAccess {
    /// Whether a shader can read the frame's image without a copy.
    pub sampleable: bool,
    /// Whether the planes of the frame's image can be viewed separately.
    pub plane_views: bool,
}

/// What a consumer may do with a frame that was retained in this way, `session`
/// saying what the session's own images allow. A pool image is an ordinary image:
/// both are unconditional.
pub fn frame_access(retained: Retained, session: FrameAccess) -> (access: FrameAccess)
    ensures
        access == if retained == Retained::Slot {
            session
        } else {
            FrameAccess { sampleable: true, plane_views: true }
        },
{
    match retained {
        Retained::Slot => session,
        Retained::Copy => FrameAccess { sampleable: true, plane_views: true },
    }
}

proof fn lemma_first_free_is_first(
    images: Seq<PoolImage>,
    shape: Option<ImageShape>,
    from: int,
    i: int,
)
    requires
        0 <= from <= i < images.len(),
        images[i].state == PoolState::Free && (shape is None || shape == Some(images[i].shape)),
    ensures
        first_free(images, shape, from) <= i,
    decreases images.len() - from,
{
    if from < i {
        lemma_first_free_is_first(images, shape, from + 1, i);
    }
}

/// An image is made only where it has to be: a free image of the right shape is
/// used again, one of another shape makes place for it, and the pool grows where
/// none is free. `i` is any free image.
pub proof fn law_images_are_used_again(images: Seq<PoolImage>, shape: ImageShape, i: int)
    requires
        images.len() <= usize::MAX,
        0 <= i < images.len(),
        images[i].state == PoolState::Free,
    ensures
        !(placement_of(images, shape) is Grow),
        images[i].shape == shape ==> {
            placement_of(images, shape) matches Placement::Reuse(k) && k <= i
        },
        placement_of(images, shape) matches Placement::Replace(k) ==> k <= i && images[k as int].shape
            != shape,
{
    lemma_first_free(images, Some(shape), 0);
    lemma_first_free(images, None, 0);
    lemma_first_free_is_first(images, None, 0, i);
    if images[i].shape == shape {
        lemma_first_free_is_first(images, Some(shape), 0, i);
    }
    let free = first_free(images, None, 0);
    if images[free].shape == shape {
        lemma_first_free_is_first(images, Some(shape), 0, free);
    }
}

/// A picture goes into an image of its shape, which is free, and no other image
/// changes.
pub proof fn law_placed_image_fits(images: Seq<PoolImage>, shape: ImageShape, k: int)
    requires
        images.len() < usize::MAX,
        0 <= k < images.len(),
    ensures
        ({
            let (index, after) = installed(images, placement_of(images, shape), shape);
            &&& 0 <= index < after.len()
            &&& after[index] == (PoolImage { shape, state: PoolState::Free })
            &&& images.len() <= after.len() <= images.len() + 1
            &&& k != index ==> after[k] == images[k]
            &&& after.len() > images.len() ==> index == images.len()
        }),
{
    law_placement_is_free(images, shape);
}

/// Releasing images frees those and no others, and they keep their shape.
pub proof fn law_release_frees(images: Seq<PoolImage>, released: Seq<PoolIndex>, i: int, k: int)
    requires
        0 <= i < images.len(),
        0 <= k < released.len(),
    ensures
        reclaimed(images, released).len() == images.len(),
        reclaimed(images, released)[i].shape == images[i].shape,
        released[k].0 == i ==> reclaimed(images, released)[i].state == PoolState::Free,
        (forall|j: int| 0 <= j < released.len() ==> (#[trigger] released[j]).0 != i) ==> reclaimed(
            images,
            released,
        )[i] == images[i],
{
}

} // verus!
