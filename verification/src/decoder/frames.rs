//! Frame ownership: what keeps a decoded picture alive, and how display order is
//! restored.

use vstd::prelude::*;

verus! {

/// DPB slots reserved by frames the caller is still holding.
///
/// A pinned slot is one the driver decoded into and the caller is now reading,
/// so the codec must not decode over it. Its view is the set of pinned slots.
#[derive(Clone, Copy, Debug, PartialEq, Eq, Structural)]
pub struct SlotPins {
    /// One bit per DPB slot.
    pinned: u32,
    /// The slots released since a wait began last, one bit each. A slot that was
    /// released and pinned again is among them: who waits for a release has had
    /// one.
    released: u32,
}

/// What a thread that waits for a pinned slot has to do next.
#[derive(Clone, Copy, Debug, PartialEq, Eq, Structural)]
pub enum WaitStep {
    /// The wait is over.
    Done,
    /// No slot that was pinned when the wait began was released yet: sleep until
    /// the next release.
    Sleep,
}

/// Whether bit `slot` of a mask is set.
spec fn has_bit(mask: u32, slot: u8) -> bool {
    mask & (1u32 << slot) != 0
}

/// The slots of a mask.
spec fn slots_of(mask: u32) -> Set<u8> {
    Set::new(|slot: u8| slot < 32 && has_bit(mask, slot))
}

impl View for SlotPins {
    type V = Set<u8>;

    closed spec fn view(&self) -> Set<u8> {
        slots_of(self.pinned)
    }
}

/// Something that happens to the pins.
pub enum PinEvent {
    Pin(u8),
    Release(u8),
    Clear,
}

/// The pinned slots after an event.
pub open spec fn pinned_with(pinned: Set<u8>, event: PinEvent) -> Set<u8> {
    match event {
        PinEvent::Pin(slot) => pinned.insert(slot),
        PinEvent::Release(slot) => pinned.remove(slot),
        PinEvent::Clear => Set::empty(),
    }
}

/// The slots released since a wait began, after an event: only a pinned slot can be
/// released.
pub open spec fn released_with(pinned: Set<u8>, released: Set<u8>, event: PinEvent) -> Set<u8> {
    match event {
        PinEvent::Pin(slot) => released,
        PinEvent::Release(slot) => if pinned.contains(slot) {
            released.insert(slot)
        } else {
            released
        },
        PinEvent::Clear => released.union(pinned),
    }
}

/// Whether a wait that began when `before` were pinned is over, `released` having
/// been released since. Nothing is waited for if nothing was pinned.
pub open spec fn wait_is_over(before: Set<u8>, released: Set<u8>) -> bool {
    before == Set::<u8>::empty() || exists|slot: u8|
        before.contains(slot) && #[trigger] released.contains(slot)
}

impl Default for SlotPins {
    /// No slot is pinned.
    fn default() -> (pins: Self)
        ensures
            pins@ == Set::<u8>::empty(),
            pins.released() == Set::<u8>::empty(),
    {
        proof {
            lemma_no_slots(0);
        }
        SlotPins { pinned: 0, released: 0 }
    }
}

impl SlotPins {
    /// The slots released since a wait began last.
    pub closed spec fn released(self) -> Set<u8> {
        slots_of(self.released)
    }

    /// Whether `slot` is pinned.
    pub fn is_pinned(&self, slot: u8) -> (pinned: bool)
        requires
            slot < 32,
        ensures
            pinned == self@.contains(slot),
    {
        self.pinned & (1u32 << slot) != 0
    }

    /// Whether any slot is pinned.
    pub fn any_pinned(&self) -> (any: bool)
        ensures
            any == (self@ != Set::<u8>::empty()),
    {
        proof {
            lemma_no_slots(self.pinned);
        }
        self.pinned != 0
    }

    /// How many slots are pinned right now, across everything holding one:
    /// pictures awaiting their turn in display order, frames on their way to
    /// the caller, and frames the caller has not dropped.
    pub fn count(&self) -> (count: usize)
        ensures
            self@.finite(),
            count == self@.len(),
            count <= 32,
    {
        let mut count: usize = 0;
        let mut slot: u8 = 0;
        let ghost mut seen = Set::<u8>::empty();
        while slot < 32
            invariant
                slot <= 32,
                count <= slot,
                seen.finite(),
                seen.len() == count,
                forall|s: u8| seen.contains(s) <==> s < slot && self@.contains(s),
            decreases 32 - slot,
        {
            if self.is_pinned(slot) {
                proof {
                    seen = seen.insert(slot);
                }
                count = count + 1;
            }
            slot = slot + 1;
        }
        assert(seen =~= self@);
        count
    }

    /// Pin `slot`.
    pub fn pin(&mut self, slot: u8)
        requires
            slot < 32,
        ensures
            final(self)@ == pinned_with(old(self)@, PinEvent::Pin(slot)),
            final(self).released() == released_with(
                old(self)@,
                old(self).released(),
                PinEvent::Pin(slot),
            ),
    {
        proof {
            lemma_insert(self.pinned, slot);
        }
        self.pinned = self.pinned | (1u32 << slot);
    }

    /// Release `slot`.
    pub fn release(&mut self, slot: u8)
        requires
            slot < 32,
        ensures
            final(self)@ == pinned_with(old(self)@, PinEvent::Release(slot)),
            final(self).released() == released_with(
                old(self)@,
                old(self).released(),
                PinEvent::Release(slot),
            ),
    {
        if self.is_pinned(slot) {
            proof {
                lemma_insert(self.released, slot);
            }
            self.released = self.released | (1u32 << slot);
        }
        let mask: u32 = self.pinned;
        self.pinned = mask & !(1u32 << slot);
        assert forall|s: u8| s < 32 implies #[trigger] has_bit(self.pinned, s) == (has_bit(mask, s)
            && s != slot) by {
            assert(((mask & !(1u32 << slot)) & (1u32 << s) != 0) == (mask & (1u32 << s) != 0 && s
                != slot)) by (bit_vector)
                requires
                    s < 32,
                    slot < 32,
            ;
        }
        assert(self@ =~= old(self)@.remove(slot));
    }

    /// Release every slot.
    pub fn clear(&mut self)
        ensures
            final(self)@ == pinned_with(old(self)@, PinEvent::Clear),
            final(self).released() == released_with(
                old(self)@,
                old(self).released(),
                PinEvent::Clear,
            ),
    {
        let (pinned, released): (u32, u32) = (self.pinned, self.released);
        self.released = released | pinned;
        self.pinned = 0;
        assert forall|s: u8| s < 32 implies #[trigger] has_bit(released | pinned, s) == (has_bit(
            released,
            s,
        ) || has_bit(pinned, s)) by {
            assert(((released | pinned) & (1u32 << s) != 0) == (released & (1u32 << s) != 0
                || pinned & (1u32 << s) != 0)) by (bit_vector);
        }
        assert(self.released() =~= old(self).released().union(old(self)@));
        proof {
            lemma_no_slots(0);
        }
    }

    /// Begin to wait for a release: the releases from now on count. Returns the pins
    /// as they are now, which [`Self::wait_for_release`] is asked about.
    pub fn begin_wait(&mut self) -> (before: SlotPins)
        ensures
            final(self)@ == old(self)@,
            final(self).released() == Set::<u8>::empty(),
            before == *final(self),
    {
        self.released = 0;
        proof {
            lemma_no_slots(0);
        }
        *self
    }

    /// Whether a thread that began to wait for a release when the pins were
    /// `before` may go on now: it waits until at least one slot that was pinned then
    /// is released. Nothing is waited for if nothing was pinned, since then no
    /// release can ever come.
    pub fn wait_for_release(&self, before: &SlotPins) -> (step: WaitStep)
        ensures
            (step == WaitStep::Done) == wait_is_over(before@, self.released()),
    {
        let common: u32 = self.released & before.pinned;
        proof {
            lemma_common(self.released, before.pinned);
            lemma_no_slots(common);
            if common != 0 {
                let slot = choose|slot: u8| slots_of(common).contains(slot);
                assert(before@.contains(slot) && self.released().contains(slot));
            } else if exists|slot: u8|
                before@.contains(slot) && #[trigger] self.released().contains(slot) {
                let slot = choose|slot: u8|
                    before@.contains(slot) && #[trigger] self.released().contains(slot);
                assert(slots_of(common).contains(slot));
            }
        }
        if !before.any_pinned() || common != 0 {
            WaitStep::Done
        } else {
            WaitStep::Sleep
        }
    }
}

/// The pinned slots after a list of events.
pub open spec fn pinned_after(pinned: Set<u8>, events: Seq<PinEvent>) -> Set<u8>
    decreases events.len(),
{
    if events.len() == 0 {
        pinned
    } else {
        pinned_with(pinned_after(pinned, events.drop_last()), events.last())
    }
}

/// The slots released since a wait began, after a list of events.
pub open spec fn released_after(pinned: Set<u8>, events: Seq<PinEvent>) -> Set<u8>
    decreases events.len(),
{
    if events.len() == 0 {
        Set::empty()
    } else {
        released_with(
            pinned_after(pinned, events.drop_last()),
            released_after(pinned, events.drop_last()),
            events.last(),
        )
    }
}

/// Whether an event releases one of the given slots, all of them being pinned.
pub open spec fn releases_one_of(slots: Set<u8>, event: PinEvent) -> bool {
    match event {
        PinEvent::Pin(slot) => false,
        PinEvent::Release(slot) => slots.contains(slot),
        PinEvent::Clear => true,
    }
}

/// A wait ends with a release and with nothing else: whatever happens to the pins
/// once it has begun, it is over exactly if nothing was pinned then, or a slot that
/// was pinned then has been released since. Pinning further slots does not end it,
/// and pinning the released slot again does not prolong it.
pub proof fn law_wait_ends_with_a_release(before: Set<u8>, events: Seq<PinEvent>)
    ensures
        wait_is_over(before, released_after(before, events)) <==> (before == Set::<u8>::empty()
            || exists|i: int|
            0 <= i < events.len() && releases_one_of(before, #[trigger] events[i])),
    decreases events.len(),
{
    let released = released_after(before, events);
    if before != Set::<u8>::empty() {
        if events.len() == 0 {
            assert(!wait_is_over(before, released));
        } else {
            let part = events.drop_last();
            let event = events.last();
            law_wait_ends_with_a_release(before, part);
            let earlier = released_after(before, part);
            lemma_pinned_until_released(before, part);
            if wait_is_over(before, earlier) {
                let slot = choose|slot: u8|
                    before.contains(slot) && #[trigger] earlier.contains(slot);
                assert(released.contains(slot));
                let i = choose|i: int|
                    0 <= i < part.len() && releases_one_of(before, #[trigger] part[i]);
                assert(releases_one_of(before, events[i]));
            } else if releases_one_of(before, event) {
                assert(releases_one_of(before, events[events.len() - 1]));
                let slot = match event {
                    PinEvent::Release(slot) => slot,
                    _ => before.choose(),
                };
                if forall|s: u8| !before.contains(s) {
                    assert(before =~= Set::<u8>::empty());
                }
                assert(before.contains(slot));
                assert(released.contains(slot));
            } else {
                assert forall|i: int| 0 <= i < events.len() implies !releases_one_of(
                    before,
                    #[trigger] events[i],
                ) by {
                    if i < part.len() {
                        assert(!releases_one_of(before, part[i]));
                    }
                }
                if wait_is_over(before, released) {
                    let slot = choose|slot: u8|
                        before.contains(slot) && #[trigger] released.contains(slot);
                    assert(earlier.contains(slot));
                }
            }
        }
    }
}

/// A slot that was pinned when a wait began stays pinned until its first release.
proof fn lemma_pinned_until_released(before: Set<u8>, events: Seq<PinEvent>)
    ensures
        forall|slot: u8| #[trigger]
            before.contains(slot) ==> released_after(before, events).contains(slot)
                || pinned_after(before, events).contains(slot),
    decreases events.len(),
{
    if events.len() > 0 {
        lemma_pinned_until_released(before, events.drop_last());
    }
}

/// A mask has no slots exactly if it is zero.
proof fn lemma_no_slots(mask: u32)
    ensures
        (mask == 0) == (slots_of(mask) == Set::<u8>::empty()),
        mask != 0 ==> exists|slot: u8| slots_of(mask).contains(slot),
{
    lemma_empty_mask(mask);
    if mask == 0 {
        assert(slots_of(mask) =~= Set::<u8>::empty());
    } else {
        let slot = choose|slot: u8| slot < 32 && has_bit(mask, slot);
        assert(slots_of(mask).contains(slot));
    }
}

proof fn lemma_insert(mask: u32, slot: u8)
    requires
        slot < 32,
    ensures
        slots_of(mask | (1u32 << slot)) == slots_of(mask).insert(slot),
{
    assert forall|s: u8| s < 32 implies #[trigger] has_bit(mask | (1u32 << slot), s) == (has_bit(
        mask,
        s,
    ) || s == slot) by {
        assert(((mask | (1u32 << slot)) & (1u32 << s) != 0) == (mask & (1u32 << s) != 0 || s
            == slot)) by (bit_vector)
            requires
                s < 32,
                slot < 32,
        ;
    }
    assert(slots_of(mask | (1u32 << slot)) =~= slots_of(mask).insert(slot));
}

proof fn lemma_common(a: u32, b: u32)
    ensures
        slots_of(a & b) == slots_of(a).intersect(slots_of(b)),
{
    assert forall|s: u8| s < 32 implies #[trigger] has_bit(a & b, s) == (has_bit(a, s) && has_bit(
        b,
        s,
    )) by {
        assert(((a & b) & (1u32 << s) != 0) == (a & (1u32 << s) != 0 && b & (1u32 << s) != 0))
            by (bit_vector)
            requires
                s < 32,
        ;
    }
    assert(slots_of(a & b) =~= slots_of(a).intersect(slots_of(b)));
}

proof fn lemma_empty_mask(mask: u32)
    ensures
        mask == 0 ==> forall|slot: u8| slot < 32 ==> !has_bit(mask, slot),
        mask != 0 ==> exists|slot: u8| slot < 32 && has_bit(mask, slot),
{
    assert forall|slot: u8| mask == 0 && slot < 32 implies !has_bit(mask, slot) by {
        assert(0u32 & (1u32 << slot) == 0) by (bit_vector);
    }
    lemma_same_mask(mask, 0);
    if mask != 0 {
        let slot = choose|slot: u8| slot < 32 && has_bit(mask, slot) != has_bit(0, slot);
        assert(0u32 & (1u32 << slot) == 0) by (bit_vector);
    }
}

proof fn lemma_low_bits(a: u32, b: u32, n: u8)
    requires
        n < 32,
        forall|slot: u8| slot < 32 ==> has_bit(a, slot) == has_bit(b, slot),
    ensures
        (a ^ b) & (((1u32 << n) - 1) as u32) == 0,
    decreases n,
{
    if n == 0 {
        assert((a ^ b) & (((1u32 << 0u8) - 1) as u32) == 0) by (bit_vector);
    } else {
        let m = (n - 1) as u8;
        lemma_low_bits(a, b, m);
        assert(has_bit(a, m) == has_bit(b, m));
        assert((a ^ b) & (((1u32 << n) - 1) as u32) == 0) by (bit_vector)
            requires
                n < 32,
                m + 1 == n,
                (a ^ b) & (((1u32 << m) - 1) as u32) == 0,
                (a & (1u32 << m) != 0) == (b & (1u32 << m) != 0),
        ;
    }
}

proof fn lemma_same_mask(a: u32, b: u32)
    ensures
        a != b ==> exists|slot: u8| slot < 32 && has_bit(a, slot) != has_bit(b, slot),
{
    if forall|slot: u8| slot < 32 ==> has_bit(a, slot) == has_bit(b, slot) {
        lemma_low_bits(a, b, 31);
        assert(has_bit(a, 31) == has_bit(b, 31));
        assert(a == b) by (bit_vector)
            requires
                (a ^ b) & (((1u32 << 31u8) - 1) as u32) == 0,
                (a & (1u32 << 31u8) != 0) == (b & (1u32 << 31u8) != 0),
        ;
    }
}

/// A slot is pinned from where it is pinned to where it is released or all are, and
/// each such release is noticed.
pub proof fn law_pins_last_until_released(
    pinned: Set<u8>,
    released: Set<u8>,
    event: PinEvent,
    slot: u8,
)
    ensures
        pinned_with(pinned, event).contains(slot) <==> event == PinEvent::Pin(slot)
            || pinned.contains(slot) && event != PinEvent::Release(slot) && event
            != PinEvent::Clear,
        released_with(pinned, released, event).contains(slot) <==> released.contains(slot)
            || pinned.contains(slot) && (event == PinEvent::Release(slot) || event
            == PinEvent::Clear),
{
}

} // verus!
