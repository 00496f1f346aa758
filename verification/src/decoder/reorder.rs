//! Restoring display order.
//!
//! The hardware produces pictures in decode order, which for streams with
//! B-frames is not display order.

use vstd::prelude::*;

verus! {

/// A picture awaiting its turn in display order.
#[derive(Clone, Copy, Debug)]
pub struct Buffered<T> {
    /// The codec's own ordering value.
    pub display_order: i32,
    /// The picture.
    pub item: T,
}

/// Reorders decoded pictures from decode order into display order.
///
/// Emission follows the DPB bumping model: a picture is held until at most
/// `reorder_depth` pictures precede it in the buffer, a keyframe drains the
/// previous coded video sequence (display order restarts there), and
/// [`Self::flush`] drains the rest at end of stream. A stream without B-frames
/// has a reorder depth of zero, so each picture is emitted by the same call
/// that decoded it and nothing is buffered at all.
///
/// Its view is the sequence of held pictures, in decode order.
pub struct ReorderBuffer<T> {
    buffered: Vec<Buffered<T>>,
}

impl<T> View for ReorderBuffer<T> {
    type V = Seq<Buffered<T>>;

    closed spec fn view(&self) -> Seq<Buffered<T>> {
        self.buffered@
    }
}

/// The index of the picture that comes first in display order, the one decoded
/// first where several do.
pub open spec fn first_shown<T>(held: Seq<Buffered<T>>) -> int
    decreases held.len(),
{
    if held.len() <= 1 {
        0
    } else {
        let earlier = first_shown(held.drop_last());
        if held.last().display_order < held[earlier].display_order {
            held.len() - 1
        } else {
            earlier
        }
    }
}

/// The pictures that are emitted until at most `depth` are held, and those that
/// are still held then.
pub open spec fn bumped<T>(held: Seq<Buffered<T>>, depth: nat) -> (
    Seq<Buffered<T>>,
    Seq<Buffered<T>>,
)
    decreases held.len(),
{
    if held.len() <= depth || held.len() == 0 {
        (Seq::empty(), held)
    } else {
        let first = first_shown(held);
        if 0 <= first < held.len() {
            let (out, rest) = bumped(held.remove(first), depth);
            (seq![held[first]] + out, rest)
        } else {
            (Seq::empty(), held)
        }
    }
}

/// The pictures that are emitted when a picture is pushed, and those that are
/// held then.
pub open spec fn pushed<T>(
    held: Seq<Buffered<T>>,
    picture: Buffered<T>,
    is_keyframe: bool,
    depth: nat,
) -> (Seq<Buffered<T>>, Seq<Buffered<T>>) {
    let (before, kept) = if is_keyframe { bumped(held, 0) } else { (Seq::empty(), held) };
    let (out, rest) = bumped(kept.push(picture), depth);
    (before + out, rest)
}

proof fn lemma_first_shown<T>(held: Seq<Buffered<T>>)
    requires
        held.len() > 0,
    ensures
        0 <= first_shown(held) < held.len(),
        forall|i: int|
            0 <= i < held.len() ==> held[first_shown(held)].display_order <= (
            #[trigger] held[i]).display_order,
        forall|i: int|
            0 <= i < first_shown(held) ==> held[first_shown(held)].display_order < (
            #[trigger] held[i]).display_order,
    decreases held.len(),
{
    if held.len() > 1 {
        let part = held.drop_last();
        lemma_first_shown(part);
        let first = first_shown(held);
        assert forall|i: int| 0 <= i < first implies held[first].display_order < (
        #[trigger] held[i]).display_order by {
            assert(part[i] == held[i]);
        }
        assert forall|i: int| 0 <= i < held.len() implies held[first].display_order <= (
        #[trigger] held[i]).display_order by {
            if i < part.len() {
                assert(part[i] == held[i]);
            }
        }
    }
}

impl<T> ReorderBuffer<T> {
    /// An empty buffer.
    pub fn new() -> (buffer: Self)
        ensures
            buffer@ == Seq::<Buffered<T>>::empty(),
    {
        Self { buffered: Vec::new() }
    }

    /// Remove and return the buffered picture that comes first in display order.
    fn pop_min_display_order(&mut self) -> (picture: Buffered<T>)
        requires
            old(self)@.len() > 0,
        ensures
            picture == old(self)@[first_shown(old(self)@)],
            final(self)@ == old(self)@.remove(first_shown(old(self)@)),
            0 <= first_shown(old(self)@) < old(self)@.len(),
    {
        let mut first: usize = 0;
        let mut i: usize = 1;
        while i < self.buffered.len()
            invariant
                1 <= i <= self.buffered@.len(),
                first < i,
                self@ == old(self)@,
                first == first_shown(self.buffered@.take(i as int)),
            decreases self.buffered@.len() - i,
        {
            assert(self.buffered@.take(i + 1).drop_last() =~= self.buffered@.take(i as int));
            if self.buffered[i].display_order < self.buffered[first].display_order {
                first = i;
            }
            i = i + 1;
        }
        assert(self.buffered@.take(i as int) =~= self.buffered@);
        self.buffered.remove(first)
    }

    /// Emit pictures until at most `depth` are held.
    fn bump(&mut self, depth: usize, out: &mut Vec<Buffered<T>>)
        ensures
            final(out)@ == old(out)@ + bumped(old(self)@, depth as nat).0,
            final(self)@ == bumped(old(self)@, depth as nat).1,
    {
        let ghost all = self@;
        let ghost emitted = out@;
        assert(out@ + Seq::<Buffered<T>>::empty() =~= out@);
        assert(emitted + bumped(all, depth as nat).0 =~= out@ + bumped(self@, depth as nat).0);
        while self.buffered.len() > depth
            invariant
                emitted + bumped(all, depth as nat).0 == out@ + bumped(self@, depth as nat).0,
                bumped(all, depth as nat).1 == bumped(self@, depth as nat).1,
            decreases self@.len(),
        {
            let ghost before = self@;
            let ghost given = out@;
            let picture = self.pop_min_display_order();
            out.push(picture);
            assert(given + (seq![picture] + bumped(self@, depth as nat).0) =~= out@ + bumped(
                self@,
                depth as nat,
            ).0);
        }
        assert(out@ + Seq::<Buffered<T>>::empty() =~= out@);
    }

    /// Add a freshly decoded picture and return whatever is now ready to output.
    ///
    /// `reorder_depth` is how many pictures may precede a held one before it
    /// has to be emitted.
    pub fn push(&mut self, picture: Buffered<T>, is_keyframe: bool, reorder_depth: usize) -> (out:
        Vec<Buffered<T>>)
        ensures
            (out@, final(self)@) == pushed(
                old(self)@,
                picture,
                is_keyframe,
                reorder_depth as nat,
            ),
    {
        let mut out: Vec<Buffered<T>> = Vec::new();
        // Display order restarts at a keyframe, so the previous sequence must be
        // fully drained before this picture, which belongs to the new one.
        if is_keyframe {
            self.bump(0, &mut out);
            assert(out@ =~= bumped(old(self)@, 0).0);
        }
        self.buffered.push(picture);
        self.bump(reorder_depth, &mut out);
        out
    }

    /// Emit every buffered picture in display order. Call at end of stream.
    pub fn flush(&mut self) -> (out: Vec<Buffered<T>>)
        ensures
            out@ == bumped(old(self)@, 0).0,
            final(self)@ == Seq::<Buffered<T>>::empty(),
    {
        let mut out: Vec<Buffered<T>> = Vec::new();
        self.bump(0, &mut out);
        proof {
            law_held_within_depth(old(self)@, 0);
        }
        assert(out@ =~= bumped(old(self)@, 0).0);
        assert(self@ =~= Seq::empty());
        out
    }
}

/// No more pictures are held than the reorder depth.
pub proof fn law_held_within_depth<T>(held: Seq<Buffered<T>>, depth: nat)
    ensures
        bumped(held, depth).1.len() <= depth,
    decreases held.len(),
{
    if held.len() > depth {
        lemma_first_shown(held);
        law_held_within_depth(held.remove(first_shown(held)), depth);
    }
}

/// Without reordering nothing waits: a picture that is pushed comes out at once, and
/// nothing is held.
pub proof fn law_nothing_waits_without_reordering<T>(picture: Buffered<T>, is_keyframe: bool)
    ensures
        pushed(Seq::empty(), picture, is_keyframe, 0) == (
            seq![picture],
            Seq::<Buffered<T>>::empty(),
        ),
{
    let one = Seq::<Buffered<T>>::empty().push(picture);
    reveal_with_fuel(bumped, 2);
    assert(one.remove(0) =~= Seq::empty());
    let (before, kept) = if is_keyframe {
        bumped(Seq::<Buffered<T>>::empty(), 0)
    } else {
        (Seq::empty(), Seq::empty())
    };
    assert(kept.push(picture) =~= one);
    assert(before + (seq![picture] + Seq::empty()) =~= seq![picture]);
}

/// A keyframe starts a new coded video sequence: all that was held comes out before
/// it, in display order, and nothing but the keyframe can be held afterwards.
pub proof fn law_keyframe_drains<T>(held: Seq<Buffered<T>>, keyframe: Buffered<T>, depth: nat)
    ensures
        ({
            let (out, rest) = pushed(held, keyframe, true, depth);
            let drained = out.take(held.len() as int);
            &&& out + rest == drained.push(keyframe)
            &&& drained.to_multiset() == held.to_multiset()
            &&& in_display_order(drained)
            &&& rest.len() == if depth == 0 {
                0int
            } else {
                1
            }
        }),
{
    let (before, kept) = bumped(held, 0);
    law_held_within_depth(held, 0);
    law_nothing_is_lost(held, 0);
    law_emitted_in_display_order(held, 0);
    assert(kept =~= Seq::empty());
    assert(before + kept =~= before);
    before.to_multiset_ensures();
    held.to_multiset_ensures();
    let one = Seq::<Buffered<T>>::empty().push(keyframe);
    assert(kept.push(keyframe) =~= one);
    reveal_with_fuel(bumped, 2);
    assert(one.remove(0) =~= Seq::empty());
    let (out, rest) = pushed(held, keyframe, true, depth);
    assert(out.take(held.len() as int) =~= before);
    assert(out + rest =~= before.push(keyframe));
}

/// Whether pictures are in display order.
pub open spec fn in_display_order<T>(pictures: Seq<Buffered<T>>) -> bool {
    forall|i: int, j: int|
        0 <= i <= j < pictures.len() ==> (#[trigger] pictures[i]).display_order <= (
        #[trigger] pictures[j]).display_order
}

/// Nothing is lost or made up: the emitted pictures and those still held are
/// together the ones that were held.
pub proof fn law_nothing_is_lost<T>(held: Seq<Buffered<T>>, depth: nat)
    ensures
        (bumped(held, depth).0 + bumped(held, depth).1).to_multiset() == held.to_multiset(),
    decreases held.len(),
{
    broadcast use vstd::seq_lib::group_to_multiset_ensures;

    if held.len() > depth {
        let first = first_shown(held);
        lemma_first_shown(held);
        let next = held.remove(first);
        law_nothing_is_lost(next, depth);
        let (out, rest) = bumped(next, depth);
        assert((seq![held[first]] + out) + rest =~= seq![held[first]] + (out + rest));
        vstd::seq_lib::lemma_multiset_commutative(seq![held[first]], out + rest);
        assert(seq![held[first]] =~= Seq::empty().push(held[first]));
        assert(held =~= next.insert(first, held[first]));
        assert(held.to_multiset() =~= next.to_multiset().insert(held[first]));
    } else {
        assert(bumped(held, depth).0 + bumped(held, depth).1 =~= held);
    }
}

/// Emitted pictures come in display order, before every picture still held.
pub proof fn law_emitted_in_display_order<T>(held: Seq<Buffered<T>>, depth: nat)
    ensures
        in_display_order(bumped(held, depth).0),
        forall|i: int, j: int|
            0 <= i < bumped(held, depth).0.len() && 0 <= j < bumped(held, depth).1.len() ==> (
            #[trigger] bumped(held, depth).0[i]).display_order <= (
            #[trigger] bumped(held, depth).1[j]).display_order,
    decreases held.len(),
{
    if held.len() > depth {
        let first = first_shown(held);
        lemma_first_shown(held);
        let next = held.remove(first);
        law_emitted_in_display_order(next, depth);
        let (out, rest) = bumped(next, depth);
        let all = seq![held[first]] + out;
        assert forall|i: int, j: int| 0 <= i <= j < all.len() implies (
        #[trigger] all[i]).display_order <= (#[trigger] all[j]).display_order by {
            if i == 0 && j > 0 {
                lemma_bumped_members(next, depth);
                assert(out[j - 1] == all[j]);
                let k = choose|k: int| 0 <= k < next.len() && next[k] == out[j - 1];
                assert(next[k] == held[if k < first { k } else { k + 1 }]);
            } else if i > 0 {
                assert(out[i - 1] == all[i]);
                assert(out[j - 1] == all[j]);
            }
        }
        assert forall|i: int, j: int| 0 <= i < all.len() && 0 <= j < rest.len() implies (
        #[trigger] all[i]).display_order <= (#[trigger] rest[j]).display_order by {
            if i == 0 {
                lemma_bumped_members(next, depth);
                let k = choose|k: int| 0 <= k < next.len() && next[k] == rest[j];
                assert(next[k] == held[if k < first { k } else { k + 1 }]);
            } else {
                assert(out[i - 1] == all[i]);
            }
        }
    }
}

proof fn lemma_bumped_members<T>(held: Seq<Buffered<T>>, depth: nat)
    ensures
        forall|i: int|
            0 <= i < bumped(held, depth).0.len() ==> held.contains(
                #[trigger] bumped(held, depth).0[i],
            ),
        forall|i: int|
            0 <= i < bumped(held, depth).1.len() ==> held.contains(
                #[trigger] bumped(held, depth).1[i],
            ),
    decreases held.len(),
{
    if held.len() > depth {
        let first = first_shown(held);
        lemma_first_shown(held);
        let next = held.remove(first);
        lemma_bumped_members(next, depth);
        let (out, rest) = bumped(next, depth);
        let all = seq![held[first]] + out;
        assert forall|i: int| 0 <= i < all.len() implies held.contains(#[trigger] all[i]) by {
            if i > 0 {
                assert(all[i] == out[i - 1]);
                let k = choose|k: int| 0 <= k < next.len() && next[k] == out[i - 1];
                assert(held[if k < first { k } else { k + 1 }] == all[i]);
            }
        }
        assert forall|i: int| 0 <= i < rest.len() implies held.contains(#[trigger] rest[i]) by {
            let k = choose|k: int| 0 <= k < next.len() && next[k] == rest[i];
            assert(held[if k < first { k } else { k + 1 }] == rest[i]);
        }
    }
}

/// Everything that is emitted when the pictures of a coded video sequence are
/// pushed one by one and the buffer is drained in the end.
pub open spec fn emitted_in_all<T>(
    held: Seq<Buffered<T>>,
    pictures: Seq<Buffered<T>>,
    depth: nat,
) -> Seq<Buffered<T>>
    decreases pictures.len(),
{
    if pictures.len() == 0 {
        bumped(held, 0).0
    } else {
        let (out, rest) = pushed(held, pictures[0], false, depth);
        out + emitted_in_all(rest, pictures.skip(1), depth)
    }
}

/// Pushing a picture loses and makes up nothing: what comes out and what is held
/// then are together what was held before and the picture.
pub proof fn law_push_loses_nothing<T>(
    held: Seq<Buffered<T>>,
    picture: Buffered<T>,
    is_keyframe: bool,
    depth: nat,
)
    ensures
        ({
            let (out, rest) = pushed(held, picture, is_keyframe, depth);
            (out + rest).to_multiset() == held.push(picture).to_multiset()
        }),
{
    broadcast use vstd::seq_lib::group_to_multiset_ensures;

    let (before, kept) = if is_keyframe {
        bumped(held, 0)
    } else {
        (Seq::empty(), held)
    };
    let (out, rest) = bumped(kept.push(picture), depth);
    law_nothing_is_lost(kept.push(picture), depth);
    if is_keyframe {
        law_nothing_is_lost(held, 0);
    } else {
        assert(before + kept =~= held);
    }
    assert((before + out) + rest =~= before + (out + rest));
    vstd::seq_lib::lemma_multiset_commutative(before, out + rest);
    vstd::seq_lib::lemma_multiset_commutative(before, kept.push(picture));
    assert(before + kept.push(picture) =~= (before + kept).push(picture));
}

/// Every picture comes out, and none comes out twice: everything that the buffer
/// emits for a coded video sequence, from the first picture to the final drain, is
/// what it held and what was pushed.
pub proof fn law_every_picture_comes_out_once<T>(
    held: Seq<Buffered<T>>,
    pictures: Seq<Buffered<T>>,
    depth: nat,
)
    ensures
        emitted_in_all(held, pictures, depth).to_multiset() == (held + pictures).to_multiset(),
    decreases pictures.len(),
{
    if pictures.len() == 0 {
        law_nothing_is_lost(held, 0);
        law_held_within_depth(held, 0);
        assert(bumped(held, 0).1 =~= Seq::empty());
        assert(bumped(held, 0).0 + bumped(held, 0).1 =~= bumped(held, 0).0);
        assert(held + pictures =~= held);
    } else {
        let (out, rest) = pushed(held, pictures[0], false, depth);
        let later = pictures.skip(1);
        law_push_loses_nothing(held, pictures[0], false, depth);
        law_every_picture_comes_out_once(rest, later, depth);
        let emitted = emitted_in_all(rest, later, depth);
        vstd::seq_lib::lemma_multiset_commutative(out, emitted);
        vstd::seq_lib::lemma_multiset_commutative(rest, later);
        vstd::seq_lib::lemma_multiset_commutative(out, rest);
        vstd::seq_lib::lemma_multiset_commutative(held.push(pictures[0]), later);
        assert(held + pictures =~= held.push(pictures[0]) + later);
        assert(out.to_multiset().add(rest.to_multiset().add(later.to_multiset()))
            =~= out.to_multiset().add(rest.to_multiset()).add(later.to_multiset()));
    }
}

/// Everything that is emitted for a stream: each of its pictures is pushed, those
/// marked as keyframes beginning a new coded video sequence, and the buffer is
/// drained in the end.
pub open spec fn emitted_for_stream<T>(
    held: Seq<Buffered<T>>,
    pictures: Seq<Buffered<T>>,
    keyframes: Seq<bool>,
    depth: nat,
) -> Seq<Buffered<T>>
    decreases pictures.len(),
{
    if pictures.len() == 0 {
        bumped(held, 0).0
    } else {
        let (out, rest) = pushed(held, pictures[0], keyframes[0], depth);
        out + emitted_for_stream(rest, pictures.skip(1), keyframes.skip(1), depth)
    }
}

/// Every picture of a stream comes out, and none comes out twice, wherever its
/// keyframes are.
pub proof fn law_stream_comes_out_once<T>(
    held: Seq<Buffered<T>>,
    pictures: Seq<Buffered<T>>,
    keyframes: Seq<bool>,
    depth: nat,
)
    ensures
        emitted_for_stream(held, pictures, keyframes, depth).to_multiset() == (held
            + pictures).to_multiset(),
    decreases pictures.len(),
{
    if pictures.len() == 0 {
        law_every_picture_comes_out_once(held, pictures, depth);
    } else {
        let (out, rest) = pushed(held, pictures[0], keyframes[0], depth);
        let later = pictures.skip(1);
        law_push_loses_nothing(held, pictures[0], keyframes[0], depth);
        law_stream_comes_out_once(rest, later, keyframes.skip(1), depth);
        let emitted = emitted_for_stream(rest, later, keyframes.skip(1), depth);
        vstd::seq_lib::lemma_multiset_commutative(out, emitted);
        vstd::seq_lib::lemma_multiset_commutative(rest, later);
        vstd::seq_lib::lemma_multiset_commutative(out, rest);
        vstd::seq_lib::lemma_multiset_commutative(held.push(pictures[0]), later);
        assert(held + pictures =~= held.push(pictures[0]) + later);
        assert(out.to_multiset().add(rest.to_multiset().add(later.to_multiset()))
            =~= out.to_multiset().add(rest.to_multiset()).add(later.to_multiset()));
    }
}

/// Whether `places` says where each emitted picture was among those pushed, and
/// pictures with the same display order were emitted in the order they had there.
pub open spec fn in_turn<T>(
    emitted: Seq<Buffered<T>>,
    source: Seq<Buffered<T>>,
    places: Seq<int>,
) -> bool {
    &&& places.len() == emitted.len()
    &&& forall|i: int|
        0 <= i < places.len() ==> 0 <= #[trigger] places[i] < source.len() && emitted[i]
            == source[places[i]]
    &&& forall|i: int, j: int|
        0 <= i < j < places.len() ==> #[trigger] places[i] != #[trigger] places[j]
    &&& forall|i: int, j: int|
        0 <= i < j < places.len() && emitted[i].display_order == emitted[j].display_order ==> (
        #[trigger] places[i]) < (#[trigger] places[j])
}

/// Where the emitted pictures and those still held were, the latter in the order
/// they had.
proof fn lemma_bumped_places<T>(held: Seq<Buffered<T>>, depth: nat) -> (places: Seq<int>)
    ensures
        ({
            let (out, rest) = bumped(held, depth);
            &&& in_turn(out + rest, held, places)
            &&& forall|i: int, j: int|
                out.len() <= i < j < places.len() ==> #[trigger] places[i] < #[trigger] places[j]
        }),
    decreases held.len(),
{
    if held.len() <= depth || held.len() == 0 {
        assert(Seq::empty() + held =~= held);
        Seq::new(held.len(), |i: int| i)
    } else {
        let first = first_shown(held);
        lemma_first_shown(held);
        let next = held.remove(first);
        let (out, rest) = bumped(next, depth);
        let later = lemma_bumped_places(next, depth);
        let all = out + rest;
        let places = Seq::new(
            later.len() + 1,
            |i: int|
                if i == 0 {
                    first
                } else if later[i - 1] < first {
                    later[i - 1]
                } else {
                    later[i - 1] + 1
                },
        );
        let emitted = (seq![held[first]] + out) + rest;
        assert(emitted =~= seq![held[first]] + all);
        assert forall|i: int| 0 <= i < places.len() implies 0 <= #[trigger] places[i] < held.len()
            && emitted[i] == held[places[i]] && (i > 0 ==> places[i] != first) by {
            if i > 0 {
                assert(0 <= later[i - 1] < next.len() && all[i - 1] == next[later[i - 1]]);
            }
        }
        assert forall|i: int, j: int| 0 <= i < j < places.len() implies #[trigger] places[i]
            != #[trigger] places[j] && (emitted[i].display_order == emitted[j].display_order
            ==> places[i] < places[j]) by {
            if i > 0 {
                assert(later[i - 1] != later[j - 1]);
                assert(all[i - 1] == emitted[i] && all[j - 1] == emitted[j]);
                if all[i - 1].display_order == all[j - 1].display_order {
                    assert(later[i - 1] < later[j - 1]);
                }
            } else {
                assert(emitted[j] == held[places[j]]);
            }
        }
        assert forall|i: int, j: int| 1 + out.len() <= i < j < places.len() implies
            #[trigger] places[i] < #[trigger] places[j] by {
            assert(later[i - 1] < later[j - 1]);
        }
        places
    }
}

/// Pictures with the same display order come out in the order they were pushed:
/// every emitted picture can be told apart from the others by its place among those
/// held and pushed, so that of two with the same order the earlier one is first.
pub proof fn law_equal_orders_come_out_in_turn<T>(
    held: Seq<Buffered<T>>,
    pictures: Seq<Buffered<T>>,
    depth: nat,
)
    ensures
        exists|places: Seq<int>|
            in_turn(emitted_in_all(held, pictures, depth), held + pictures, places),
{
    let places = lemma_emitted_places(held, pictures, depth);
    assert(in_turn(emitted_in_all(held, pictures, depth), held + pictures, places));
}

proof fn lemma_emitted_places<T>(
    held: Seq<Buffered<T>>,
    pictures: Seq<Buffered<T>>,
    depth: nat,
) -> (places: Seq<int>)
    ensures
        in_turn(emitted_in_all(held, pictures, depth), held + pictures, places),
    decreases pictures.len(),
{
    if pictures.len() == 0 {
        law_held_within_depth(held, 0);
        assert(bumped(held, 0).1 =~= Seq::empty());
        assert(bumped(held, 0).0 + bumped(held, 0).1 =~= bumped(held, 0).0);
        assert(held + pictures =~= held);
        lemma_bumped_places(held, 0)
    } else {
        let with = held.push(pictures[0]);
        let (out, rest) = bumped(with, depth);
        let later = pictures.skip(1);
        let now = lemma_bumped_places(with, depth);
        let next = lemma_emitted_places(rest, later, depth);
        let tail = emitted_in_all(rest, later, depth);
        let emitted = emitted_in_all(held, pictures, depth);
        assert(pushed(held, pictures[0], false, depth).0 =~= out);
        assert(emitted =~= out + tail);
        let source = held + pictures;
        let n = out.len() as int;
        let places = Seq::new(
            emitted.len(),
            |i: int|
                if i < n {
                    now[i]
                } else if next[i - n] < rest.len() {
                    now[n + next[i - n]]
                } else {
                    with.len() + (next[i - n] - rest.len())
                },
        );
        let both = out + rest;
        let follow = rest + later;
        assert(both.len() == now.len());
        assert forall|i: int| 0 <= i < places.len() implies 0 <= #[trigger] places[i]
            < source.len() && emitted[i] == source[places[i]] by {
            if i < n {
                assert(0 <= now[i] < with.len() && both[i] == with[now[i]]);
                assert(with[now[i]] == source[now[i]]);
            } else {
                let at = next[i - n];
                assert(0 <= at < follow.len() && tail[i - n] == follow[at]);
                if at < rest.len() {
                    assert(0 <= now[n + at] < with.len() && both[n + at] == with[now[n + at]]);
                    assert(with[now[n + at]] == source[now[n + at]]);
                } else {
                    assert(follow[at] == later[at - rest.len()]);
                    assert(source[with.len() + (at - rest.len())] == later[at - rest.len()]);
                }
            }
        }
        assert forall|i: int, j: int| 0 <= i < j < places.len() implies #[trigger] places[i]
            != #[trigger] places[j] && (emitted[i].display_order == emitted[j].display_order
            ==> places[i] < places[j]) by {
            assert(0 <= places[i] < source.len() && 0 <= places[j] < source.len());
            if j < n {
                assert(both[i] == emitted[i] && both[j] == emitted[j]);
                assert(now[i] != now[j]);
            } else {
                let b = next[j - n];
                assert(0 <= b < follow.len() && tail[j - n] == follow[b]);
                if i < n {
                    assert(0 <= now[i] < with.len());
                    if b < rest.len() {
                        assert(both[i] == emitted[i] && both[n + b] == emitted[j]);
                        assert(now[i] != now[n + b]);
                    }
                } else {
                    let a = next[i - n];
                    assert(0 <= a < follow.len() && tail[i - n] == follow[a]);
                    assert(a != b);
                    if a < rest.len() {
                        assert(0 <= now[n + a] < with.len());
                    }
                    if b < rest.len() {
                        assert(0 <= now[n + b] < with.len());
                    }
                    if a < rest.len() && b < rest.len() {
                        if a < b {
                            assert(now[n + a] < now[n + b]);
                        } else {
                            assert(now[n + b] < now[n + a]);
                        }
                    }
                }
            }
        }
        places
    }
}

/// How many of the pictures are shown after a picture with the given order.
pub open spec fn shown_after<T>(pictures: Seq<Buffered<T>>, display_order: i32) -> nat
    decreases pictures.len(),
{
    if pictures.len() == 0 {
        0
    } else {
        shown_after(pictures.drop_last(), display_order) + if pictures.last().display_order
            > display_order {
            1nat
        } else {
            0nat
        }
    }
}

/// Whether a reorder depth suffices: at most that many pictures precede any
/// picture in decode order and yet follow it in display order. The pictures
/// `held` come before the others.
pub open spec fn depth_suffices<T>(
    held: Seq<Buffered<T>>,
    pictures: Seq<Buffered<T>>,
    depth: nat,
) -> bool {
    forall|k: int|
        0 <= k < pictures.len() ==> shown_after(
            held + pictures.take(k),
            (#[trigger] pictures[k]).display_order,
        ) <= depth
}

proof fn lemma_shown_after_concat<T>(a: Seq<Buffered<T>>, b: Seq<Buffered<T>>, order: i32)
    ensures
        shown_after(a + b, order) == shown_after(a, order) + shown_after(b, order),
    decreases b.len(),
{
    if b.len() == 0 {
        assert(a + b =~= a);
    } else {
        assert((a + b).drop_last() =~= a + b.drop_last());
        lemma_shown_after_concat(a, b.drop_last(), order);
    }
}

proof fn lemma_shown_after_remove<T>(pictures: Seq<Buffered<T>>, i: int, order: i32)
    requires
        0 <= i < pictures.len(),
    ensures
        shown_after(pictures.remove(i), order) <= shown_after(pictures, order),
{
    let a = pictures.take(i);
    let b = pictures.skip(i + 1);
    let one = seq![pictures[i]];
    assert(pictures =~= a + (one + b));
    assert(pictures.remove(i) =~= a + b);
    lemma_shown_after_concat(a, one + b, order);
    lemma_shown_after_concat(one, b, order);
    lemma_shown_after_concat(a, b, order);
}

proof fn lemma_shown_after_bumped<T>(held: Seq<Buffered<T>>, depth: nat, order: i32)
    ensures
        shown_after(bumped(held, depth).1, order) <= shown_after(held, order),
    decreases held.len(),
{
    if held.len() > depth {
        let first = first_shown(held);
        lemma_first_shown(held);
        lemma_shown_after_remove(held, first, order);
        lemma_shown_after_bumped(held.remove(first), depth, order);
    }
}

proof fn lemma_all_shown_after<T>(pictures: Seq<Buffered<T>>, order: i32)
    requires
        forall|i: int| 0 <= i < pictures.len() ==> (#[trigger] pictures[i]).display_order > order,
    ensures
        shown_after(pictures, order) == pictures.len(),
    decreases pictures.len(),
{
    if pictures.len() > 0 {
        lemma_all_shown_after(pictures.drop_last(), order);
    }
}

/// A picture that is emitted comes before any picture that keeps within the
/// depth.
proof fn lemma_emitted_before<T>(held: Seq<Buffered<T>>, depth: nat, order: i32, i: int)
    requires
        0 <= i < bumped(held, depth).0.len(),
        shown_after(held, order) <= depth,
    ensures
        bumped(held, depth).0[i].display_order <= order,
    decreases held.len(),
{
    if held.len() > depth {
        let first = first_shown(held);
        lemma_first_shown(held);
        if i == 0 {
            if held[first].display_order > order {
                lemma_all_shown_after(held, order);
            }
        } else {
            lemma_shown_after_remove(held, first, order);
            lemma_emitted_before(held.remove(first), depth, order, i - 1);
        }
    }
}

proof fn lemma_emitted_members<T>(
    held: Seq<Buffered<T>>,
    pictures: Seq<Buffered<T>>,
    depth: nat,
    i: int,
)
    requires
        0 <= i < emitted_in_all(held, pictures, depth).len(),
    ensures
        ({
            let picture = emitted_in_all(held, pictures, depth)[i];
            held.contains(picture) || pictures.contains(picture)
        }),
    decreases pictures.len(),
{
    let all = emitted_in_all(held, pictures, depth);
    if pictures.len() == 0 {
        lemma_bumped_members(held, 0);
    } else {
        let with = held.push(pictures[0]);
        let (out, rest) = bumped(with, depth);
        assert(Seq::empty() + out =~= out);
        lemma_bumped_members(with, depth);
        let picture = all[i];
        if i < out.len() {
            assert(with.contains(out[i]));
        } else {
            let later = emitted_in_all(rest, pictures.skip(1), depth);
            assert(all[i] == later[i - out.len()]);
            lemma_emitted_members(rest, pictures.skip(1), depth, i - out.len());
            if rest.contains(picture) {
                let j = choose|j: int| 0 <= j < rest.len() && rest[j] == picture;
                assert(with.contains(rest[j]));
            } else {
                let j = choose|j: int|
                    0 <= j < pictures.skip(1).len() && pictures.skip(1)[j] == picture;
                assert(pictures[j + 1] == picture);
            }
        }
        if with.contains(picture) {
            let j = choose|j: int| 0 <= j < with.len() && with[j] == picture;
            if j < held.len() {
                assert(held[j] == picture);
            } else {
                assert(pictures[0] == picture);
            }
        }
    }
}

/// Pictures come out in display order. Where the reorder depth suffices for a
/// coded video sequence, everything that the buffer emits for it, from the first
/// picture to the final drain, is in display order.
pub proof fn law_display_order_is_restored<T>(
    held: Seq<Buffered<T>>,
    pictures: Seq<Buffered<T>>,
    depth: nat,
)
    requires
        depth_suffices(held, pictures, depth),
    ensures
        in_display_order(emitted_in_all(held, pictures, depth)),
    decreases pictures.len(),
{
    if pictures.len() == 0 {
        law_emitted_in_display_order(held, 0);
    } else {
        let with = held.push(pictures[0]);
        let (out, rest) = bumped(with, depth);
        let next = pictures.skip(1);
        assert(Seq::empty() + out =~= out);
        assert forall|k: int| 0 <= k < next.len() implies shown_after(
            rest + next.take(k),
            (#[trigger] next[k]).display_order,
        ) <= depth && shown_after(with, next[k].display_order) <= depth by {
            let order = next[k].display_order;
            assert(pictures[k + 1] == next[k]);
            assert(held + pictures.take(k + 1) =~= with + next.take(k));
            lemma_shown_after_concat(with, next.take(k), order);
            lemma_shown_after_concat(rest, next.take(k), order);
            lemma_shown_after_bumped(with, depth, order);
        }
        law_display_order_is_restored(rest, next, depth);
        law_emitted_in_display_order(with, depth);
        let later = emitted_in_all(rest, next, depth);
        let all = out + later;
        assert forall|i: int, j: int| 0 <= i <= j < all.len() implies (
        #[trigger] all[i]).display_order <= (#[trigger] all[j]).display_order by {
            if j < out.len() {
                assert(all[i] == out[i] && all[j] == out[j]);
            } else if i < out.len() {
                assert(all[i] == out[i]);
                assert(all[j] == later[j - out.len()]);
                lemma_emitted_members(rest, next, depth, j - out.len());
                if rest.contains(all[j]) {
                    let k = choose|k: int| 0 <= k < rest.len() && rest[k] == all[j];
                    assert(out[i].display_order <= rest[k].display_order);
                } else {
                    let k = choose|k: int| 0 <= k < next.len() && next[k] == all[j];
                    assert(shown_after(with, next[k].display_order) <= depth);
                    lemma_emitted_before(with, depth, next[k].display_order, i);
                }
            } else {
                assert(all[i] == later[i - out.len()] && all[j] == later[j - out.len()]);
            }
        }
    }
}

} // verus!
