//! The codec-generic part of a decoder.
//!
//! Everything that is identical across codecs: staging coded data for the decode
//! queue, finding the image of a DPB slot, and the layouts its images pass
//! through. A codec supplies only its differences.

use crate::error::{InvalidInput, PixelForgeError};
use crate::video::{aligned, law_aligned};
use vstd::prelude::*;

verus! {

/// Annex B start code prefixed to each slice handed to the driver.
///
/// Three bytes, not four. The leading zero byte of a 4-byte start code is legal
/// Annex B, and RADV decodes either form, but Intel's ANV decodes almost nothing
/// when a slice offset points at that extra zero: it reports no error and
/// returns a picture with a handful of macroblocks in it.
pub open spec fn start_code() -> Seq<u8> {
    seq![0u8, 0u8, 1u8]
}

/// The bytes of a picture's slices, each behind a start code.
pub open spec fn staged(slices: Seq<Seq<u8>>) -> Seq<u8>
    decreases slices.len(),
{
    if slices.len() == 0 {
        Seq::empty()
    } else {
        staged(slices.drop_last()) + start_code() + slices.last()
    }
}

/// Where the start code of slice `i` lies.
pub open spec fn slice_offset(slices: Seq<Seq<u8>>, i: int) -> int {
    staged(slices.take(i)).len() as int
}

/// The bytes that slices hold.
pub open spec fn contents(slices: Seq<&[u8]>) -> Seq<Seq<u8>> {
    slices.map_values(|s: &[u8]| s@)
}

/// A buffer for the decode queue: the slices of one picture, zero bytes up to the
/// alignment of its size, and where each slice begins.
#[derive(Debug)]
pub struct StagedSlices {
    pub bytes: Vec<u8>,
    pub offsets: Vec<u32>,
}

proof fn lemma_staged_grows(slices: Seq<Seq<u8>>, i: int, j: int)
    requires
        0 <= i <= j <= slices.len(),
    ensures
        slice_offset(slices, i) <= slice_offset(slices, j),
        staged(slices.take(j)).take(slice_offset(slices, i)) == staged(slices.take(i)),
    decreases j - i,
{
    if i < j {
        lemma_staged_grows(slices, i, j - 1);
        assert(slices.take(j).drop_last() =~= slices.take(j - 1));
        let whole = staged(slices.take(j));
        let part = staged(slices.take(j - 1));
        assert(whole.take(slice_offset(slices, i)) =~= part.take(slice_offset(slices, i)));
    } else {
        assert(staged(slices.take(j)).take(slice_offset(slices, i)) =~= staged(slices.take(i)));
    }
}

/// The driver finds every slice: at each offset stand a start code and then the
/// slice, whatever lies around them.
pub proof fn law_slices_are_found(slices: Seq<Seq<u8>>, padding: Seq<u8>, i: int)
    requires
        0 <= i < slices.len(),
    ensures
        ({
            let bytes = staged(slices) + padding;
            let start = slice_offset(slices, i);
            let end = start + start_code().len() + slices[i].len();
            &&& 0 <= start
            &&& end <= staged(slices).len()
            &&& end == if i + 1 < slices.len() {
                slice_offset(slices, i + 1)
            } else {
                staged(slices).len() as int
            }
            &&& bytes.subrange(start, end) == start_code() + slices[i]
        }),
{
    let bytes = staged(slices) + padding;
    let start = slice_offset(slices, i);
    let end = start + start_code().len() + slices[i].len();
    let n = slices.len() as int;
    assert(slices.take(n) =~= slices);
    lemma_staged_grows(slices, i + 1, n);
    assert(slices.take(i + 1).drop_last() =~= slices.take(i));
    let upto = staged(slices.take(i + 1));
    assert(upto == staged(slices.take(i)) + start_code() + slices[i]);
    assert(slice_offset(slices, i + 1) == end);
    assert(upto.subrange(start, end) =~= start_code() + slices[i]);
    assert(staged(slices).take(end) == upto);
    assert(bytes.subrange(start, end) =~= staged(slices).take(end).subrange(start, end));
}

/// Copy a picture's slices into one buffer, each prefixed with a start code, and
/// report each slice's offset. The size of the buffer is a multiple of
/// `alignment`; the padding is zero, so the driver never reads stale bytes.
///
/// `None` if the buffer would be too large for the offsets.
pub fn stage_slices(slices: &[&[u8]], alignment: u32) -> (result: Option<StagedSlices>)
    requires
        alignment > 0,
    ensures
        ({
            let all = contents(slices@);
            let size = aligned(staged(all).len() as int, alignment as int);
            match result {
                Some(buffer) => {
                    &&& size <= u32::MAX
                    &&& buffer.bytes@ == staged(all) + Seq::new(
                        (size - staged(all).len()) as nat,
                        |i: int| 0u8,
                    )
                    &&& buffer.offsets@ == Seq::new(
                        all.len(),
                        |i: int| slice_offset(all, i) as u32,
                    )
                },
                None => size > u32::MAX,
            }
        }),
{
    let ghost all = contents(slices@);
    proof {
        law_aligned(staged(all).len() as int, alignment as int);
    }
    let mut bytes: Vec<u8> = Vec::new();
    let mut offsets: Vec<u32> = Vec::new();
    let mut i: usize = 0;
    assert(all.take(0) =~= Seq::empty());
    assert(offsets@ =~= Seq::new(0, |k: int| slice_offset(all, k) as u32));
    while i < slices.len()
        invariant
            i <= slices@.len(),
            all == contents(slices@),
            bytes@ == staged(all.take(i as int)),
            bytes@.len() <= u32::MAX,
            offsets@ == Seq::new(i as nat, |k: int| slice_offset(all, k) as u32),
            alignment > 0,
            staged(all).len() <= aligned(staged(all).len() as int, alignment as int),
        decreases slices@.len() - i,
    {
        let slice: &[u8] = slices[i];
        proof {
            assert(all[i as int] == slice@);
            assert(all.take(i + 1).drop_last() =~= all.take(i as int));
            assert(all.take(all.len() as int) =~= all);
            lemma_staged_grows(all, i + 1, all.len() as int);
        }
        let room: usize = u32::MAX as usize - bytes.len();
        if room < 3 || slice.len() > room - 3 {
            return None;
        }
        offsets.push(bytes.len() as u32);
        assert(offsets@ =~= Seq::new((i + 1) as nat, |k: int| slice_offset(all, k) as u32));
        let ghost before = bytes@;
        bytes.push(0);
        bytes.push(0);
        bytes.push(1);
        bytes.extend_from_slice(slice);
        assert(bytes@ =~= before + start_code() + slice@);
        i = i + 1;
    }
    assert(all.take(i as int) =~= all);
    let total: u64 = bytes.len() as u64;
    let step: u64 = alignment as u64;
    let size: u64 = (total + (step - 1)) / step * step;
    if size > u32::MAX as u64 {
        return None;
    }
    let ghost padded = aligned(staged(all).len() as int, alignment as int);
    while bytes.len() < size as usize
        invariant
            staged(all).len() <= bytes@.len() <= size,
            size == padded,
            size <= u32::MAX,
            bytes@ == staged(all) + Seq::new(
                (bytes@.len() - staged(all).len()) as nat,
                |k: int| 0u8,
            ),
        decreases size - bytes@.len(),
    {
        let ghost before = bytes@;
        bytes.push(0);
        assert(bytes@ =~= staged(all) + Seq::new(
            (bytes@.len() - staged(all).len()) as nat,
            |k: int| 0u8,
        ));
    }
    Some(StagedSlices { bytes, offsets })
}

/// The image that holds a DPB slot, by index, and its array layer.
pub open spec fn slot_place(use_layered_dpb: bool, slot: u8) -> (usize, u32) {
    if use_layered_dpb {
        (0, slot as u32)
    } else {
        (slot as usize, 0)
    }
}

/// The image that holds DPB slot `slot`, by index, and its array layer. For
/// layered DPBs all slots share the first image and are distinguished by layer;
/// for separate images each slot has its own image at layer 0.
pub fn dpb_image_for_slot(use_layered_dpb: bool, slot: u8) -> (place: (usize, u32))
    ensures
        place == slot_place(use_layered_dpb, slot),
{
    if use_layered_dpb {
        (0, slot as u32)
    } else {
        (slot as usize, 0)
    }
}

/// Two slots never share an image and a layer.
pub proof fn law_slots_have_their_own_place(use_layered_dpb: bool, a: u8, b: u8)
    requires
        a != b,
    ensures
        slot_place(use_layered_dpb, a) != slot_place(use_layered_dpb, b),
{
}

/// Every queue family that may touch a decoded picture.
///
/// The decode family writes it, the transfer family copies from it, and a
/// consumer named by
/// [`with_consumer_queue_family`](crate::decoder::DecodeConfig::with_consumer_queue_family)
/// reads it.
pub fn picture_sharing_families(decode: u32, transfer: u32, consumer: Option<u32>) -> (families:
    Vec<u32>)
    ensures
        families@ == match consumer {
            Some(consumer) => seq![decode, transfer, consumer],
            None => seq![decode, transfer],
        },
{
    let mut families: Vec<u32> = vec![decode, transfer];
    if let Some(consumer) = consumer {
        families.push(consumer);
    }
    families
}

/// `VK_IMAGE_LAYOUT_UNDEFINED`.
pub const LAYOUT_UNDEFINED: i32 = 0;

/// `VK_IMAGE_LAYOUT_VIDEO_DECODE_DST_KHR`.
pub const LAYOUT_VIDEO_DECODE_DST: i32 = 1_000_024_000;

/// `VK_IMAGE_LAYOUT_VIDEO_DECODE_DPB_KHR`.
pub const LAYOUT_VIDEO_DECODE_DPB: i32 = 1_000_024_002;

/// A change of an image's layout.
#[derive(Clone, Copy, Debug, PartialEq, Eq, Structural)]
pub struct LayoutChange {
    pub old_layout: i32,
    pub new_layout: i32,
}

/// The layout changes before a decode: of the DPB slot it writes into, and of the
/// output image, if that is a distinct one.
#[derive(Clone, Copy, Debug, PartialEq, Eq, Structural)]
pub struct DecodeBarriers {
    pub slot: LayoutChange,
    pub output: Option<LayoutChange>,
}

/// The layout changes before a decode.
pub open spec fn barriers_for(slot_active: bool, distinct_output: bool) -> DecodeBarriers {
    DecodeBarriers {
        slot: LayoutChange {
            old_layout: if slot_active {
                LAYOUT_VIDEO_DECODE_DPB
            } else {
                LAYOUT_UNDEFINED
            },
            new_layout: LAYOUT_VIDEO_DECODE_DPB,
        },
        output: if distinct_output {
            Some(
                LayoutChange { old_layout: LAYOUT_UNDEFINED, new_layout: LAYOUT_VIDEO_DECODE_DST },
            )
        } else {
            None
        },
    }
}

/// A slot keeps its contents: the layout that one decode leaves it in is the one that
/// the next decode finds, and its contents are undefined only before the first. The
/// output is an image of its own or none.
pub proof fn law_layouts_carry_over(active: bool, distinct_output: bool)
    ensures
        barriers_for(true, distinct_output).slot.old_layout == barriers_for(
            active,
            distinct_output,
        ).slot.new_layout,
        barriers_for(active, distinct_output).slot.old_layout == LAYOUT_UNDEFINED <==> !active,
        barriers_for(active, distinct_output).slot.new_layout == LAYOUT_VIDEO_DECODE_DPB,
        barriers_for(active, distinct_output).output is Some <==> distinct_output,
        barriers_for(active, distinct_output).output matches Some(change) ==> change.old_layout
            == LAYOUT_UNDEFINED && change.new_layout == LAYOUT_VIDEO_DECODE_DST,
{
}

/// Plan the layout changes before a decode into a slot. The slot is undefined on
/// first use, and a DPB image afterwards; a distinct output image is undefined
/// every time.
pub fn plan_barriers(slot_active: bool, distinct_output: bool) -> (barriers: DecodeBarriers)
    ensures
        barriers.slot == (LayoutChange {
            old_layout: if slot_active {
                LAYOUT_VIDEO_DECODE_DPB
            } else {
                LAYOUT_UNDEFINED
            },
            new_layout: LAYOUT_VIDEO_DECODE_DPB,
        }),
        barriers.output == if distinct_output {
            Some(
                LayoutChange { old_layout: LAYOUT_UNDEFINED, new_layout: LAYOUT_VIDEO_DECODE_DST },
            )
        } else {
            None
        },
        barriers == barriers_for(slot_active, distinct_output),
{
    DecodeBarriers {
        slot: LayoutChange {
            old_layout: if slot_active {
                LAYOUT_VIDEO_DECODE_DPB
            } else {
                LAYOUT_UNDEFINED
            },
            new_layout: LAYOUT_VIDEO_DECODE_DPB,
        },
        output: if distinct_output {
            Some(
                LayoutChange { old_layout: LAYOUT_UNDEFINED, new_layout: LAYOUT_VIDEO_DECODE_DST },
            )
        } else {
            None
        },
    }
}

/// The active session, or an error if no parameter sets have been seen yet.
pub fn session<T>(active: Option<T>) -> (result: Result<T, PixelForgeError>)
    ensures
        match active {
            Some(session) => result == Ok::<T, PixelForgeError>(session),
            None => result == Err::<T, PixelForgeError>(
                PixelForgeError::InvalidInput(InvalidInput::NoSession),
            ),
        },
{
    match active {
        Some(session) => Ok(session),
        None => Err(PixelForgeError::InvalidInput(InvalidInput::NoSession)),
    }
}

/// A layered DPB is one image with a layer for each slot, and any other has an image
/// of one layer for each.
pub proof fn law_slots_are_layers_or_images(slot: u8)
    ensures
        slot_place(true, slot).0 == 0 && slot_place(true, slot).1 == slot,
        slot_place(false, slot).0 == slot && slot_place(false, slot).1 == 0,
{
}

} // verus!
