//! What a decoder makes of a coded stream: parameter sets and slices as they are
//! written, and the pictures that come of them.

use crate::decoder::bitreader::{cursor, payload_bits};
use crate::decoder::h264::nal::{NalType, NalView};
use crate::decoder::h264::parser::Pps;
use crate::decoder::h264::stream::{
    absorbed, absorbed_all, chroma_format, slice_pps_id, starts_picture, with_slice, MissingSet,
    PictureGroup, Progress, SetsView,
};
use crate::decoder::h264::syntax::{SliceHeaderView, SpsView};
use crate::decoder::h264::written::{
    header_codes, law_pps_is_read_back, law_slice_header_is_read_back, law_sps_is_read_back,
    lemma_pps_head, lists_code, pps_codes, put_pps_head, put_pps_tail, put_slice_header, put_sps,
    sps_codes, SliceExtras, SpsExtras,
};
use crate::decoder::written::group_read_back;
use vstd::prelude::*;

verus! {

/// The payload bits of a NAL unit, behind its header byte.
pub open spec fn coded_bits(nal: NalView) -> Seq<bool> {
    payload_bits(nal.data.skip(1))
}

/// A sequence parameter set is in effect from where it is sent: it takes the place
/// of one with the same id, and nothing else changes.
pub proof fn law_sps_is_taken_in(
    at: Progress,
    nal: NalView,
    sps: SpsView,
    extras: SpsExtras,
    rest: Seq<bool>,
)
    requires
        at.error is None,
        nal.nal_type == NalType::Sps,
        sps_codes(sps, extras),
        coded_bits(nal) == put_sps(sps, extras, rest),
    ensures
        absorbed(at, nal) == (Progress {
            sets: SetsView { sps: at.sets.sps.insert(sps.sps_id, sps), pps: at.sets.pps },
            ..at
        }),
{
    reveal(absorbed);
    law_sps_is_read_back(sps, extras, rest);
}

/// A picture parameter set is in effect from where it is sent: it takes the place of
/// one with the same id, and nothing else changes. Its scaling lists are as many as
/// the sequence parameter set that it names asks for.
pub proof fn law_pps_is_taken_in(
    at: Progress,
    nal: NalView,
    pps: Pps,
    lists: Seq<Option<Seq<u8>>>,
    rest: Seq<bool>,
)
    requires
        at.error is None,
        nal.nal_type == NalType::Pps,
        pps_codes(pps),
        pps.pic_scaling_matrix_present_flag ==> pps.transform_8x8_mode_flag && lists_code(lists, 0)
            && lists.len() == (if at.sets.sps.contains_key(pps.sps_id)
            && at.sets.sps[pps.sps_id].chroma.chroma_format_idc == 3 {
            12nat
        } else {
            8nat
        }),
        coded_bits(nal) == put_pps_head(pps, put_pps_tail(pps, lists, rest)),
    ensures
        absorbed(at, nal) == (Progress {
            sets: SetsView { sps: at.sets.sps, pps: at.sets.pps.insert(pps.pps_id, pps) },
            ..at
        }),
{
    reveal(absorbed);
    lemma_pps_head(pps, put_pps_tail(pps, lists, rest));
    law_pps_is_read_back(pps, lists, chroma_format(at.sets, pps.sps_id), rest);
}

proof fn lemma_pps_id(
    header: SliceHeaderView,
    extras: SliceExtras,
    idr: bool,
    ref_idc: u8,
    sps: SpsView,
    pps: Pps,
    rest: Seq<bool>,
)
    requires
        header_codes(header, extras, idr, ref_idc, sps, pps),
    ensures
        slice_pps_id(
            cursor(put_slice_header(header, extras, idr, ref_idc, sps, pps, rest)),
        ).0 == header.pps_id,
        slice_pps_id(
            cursor(put_slice_header(header, extras, idr, ref_idc, sps, pps, rest)),
        ).1.error is None,
{
    broadcast use group_read_back;

}

/// A slice is read with the parameter sets that its header names, as they are when
/// it comes: it joins the pictures with the very header that was sent.
pub proof fn law_slice_is_grouped(
    at: Progress,
    nal: NalView,
    header: SliceHeaderView,
    extras: SliceExtras,
    rest: Seq<bool>,
)
    requires
        at.error is None,
        nal.nal_type == NalType::Slice || nal.nal_type == NalType::IdrSlice,
        at.sets.pps.contains_key(header.pps_id),
        at.sets.sps.contains_key(at.sets.pps[header.pps_id].sps_id),
        ({
            let pps = at.sets.pps[header.pps_id];
            let sps = at.sets.sps[pps.sps_id];
            let idr = nal.nal_type == NalType::IdrSlice;
            &&& header_codes(header, extras, idr, nal.ref_idc, sps, pps)
            &&& coded_bits(nal) == put_slice_header(
                header,
                extras,
                idr,
                nal.ref_idc,
                sps,
                pps,
                rest,
            )
        }),
    ensures
        ({
            let pps = at.sets.pps[header.pps_id];
            let sps = at.sets.sps[pps.sps_id];
            absorbed(at, nal) == (Progress {
                pictures: with_slice(at.pictures, header, nal, sps, pps),
                ..at
            })
        }),
{
    reveal(absorbed);
    let pps = at.sets.pps[header.pps_id];
    let sps = at.sets.sps[pps.sps_id];
    let idr = nal.nal_type == NalType::IdrSlice;
    lemma_pps_id(header, extras, idr, nal.ref_idc, sps, pps, rest);
    law_slice_header_is_read_back(header, extras, idr, nal.ref_idc, sps, pps, rest);
}

/// A slice whose parameter sets have not been seen is left out. The first set that
/// was missing is what is reported, and nothing else changes.
pub proof fn law_slice_without_sets_is_left_out(
    at: Progress,
    nal: NalView,
    header: SliceHeaderView,
    extras: SliceExtras,
    sps: SpsView,
    pps: Pps,
    rest: Seq<bool>,
)
    requires
        at.error is None,
        nal.nal_type == NalType::Slice || nal.nal_type == NalType::IdrSlice,
        !at.sets.pps.contains_key(header.pps_id) || !at.sets.sps.contains_key(
            at.sets.pps[header.pps_id].sps_id,
        ),
        ({
            let idr = nal.nal_type == NalType::IdrSlice;
            &&& header_codes(header, extras, idr, nal.ref_idc, sps, pps)
            &&& coded_bits(nal) == put_slice_header(
                header,
                extras,
                idr,
                nal.ref_idc,
                sps,
                pps,
                rest,
            )
        }),
    ensures
        absorbed(at, nal).pictures == at.pictures,
        absorbed(at, nal).sets == at.sets,
        absorbed(at, nal).error is None,
        at.missing is Some ==> absorbed(at, nal).missing == at.missing,
        at.missing is None ==> absorbed(at, nal).missing == Some(
            if !at.sets.pps.contains_key(header.pps_id) {
                MissingSet::Pps(header.pps_id)
            } else {
                MissingSet::Sps(at.sets.pps[header.pps_id].sps_id)
            },
        ),
{
    reveal(absorbed);
    let idr = nal.nal_type == NalType::IdrSlice;
    lemma_pps_id(header, extras, idr, nal.ref_idc, sps, pps, rest);
}

/// A NAL unit that is neither a parameter set nor a slice is passed over, and once
/// there is an error everything is.
pub proof fn law_other_units_are_passed_over(at: Progress, nal: NalView)
    requires
        at.error is Some || nal.nal_type is Sei || nal.nal_type is Aud || nal.nal_type is Other,
    ensures
        absorbed(at, nal) == at,
{
    reveal(absorbed);
}

/// What cannot be read changes nothing but that there is an error now.
pub proof fn law_error_changes_nothing_else(at: Progress, nal: NalView)
    requires
        absorbed(at, nal).error is Some,
    ensures
        absorbed(at, nal).pictures == at.pictures,
        absorbed(at, nal).sets == at.sets,
        absorbed(at, nal).missing == at.missing,
{
    reveal(absorbed);
}

/// The slices of all pictures, one after the other.
pub open spec fn all_slices(pictures: Seq<PictureGroup>) -> Seq<Seq<u8>>
    decreases pictures.len(),
{
    if pictures.len() == 0 {
        Seq::empty()
    } else {
        all_slices(pictures.drop_last()) + pictures.last().slices
    }
}

/// No slice is lost or moved: the slices of all pictures, one after the other, are
/// those that came before, and the one that was added.
pub proof fn law_slices_stay_in_order(
    pictures: Seq<PictureGroup>,
    header: SliceHeaderView,
    nal: NalView,
    sps: SpsView,
    pps: Pps,
)
    ensures
        all_slices(with_slice(pictures, header, nal, sps, pps)) == all_slices(pictures).push(
            nal.data,
        ),
{
    let done = with_slice(pictures, header, nal, sps, pps);
    if starts_picture(pictures, header, nal.nal_type) {
        assert(done.drop_last() =~= pictures);
        assert(all_slices(pictures) + seq![nal.data] =~= all_slices(pictures).push(nal.data));
    } else {
        let part = pictures.drop_last();
        assert(done.drop_last() =~= part);
        assert(all_slices(part) + pictures.last().slices.push(nal.data) =~= (all_slices(part)
            + pictures.last().slices).push(nal.data));
    }
}

/// A slice begins a new picture where its picture differs from the one before it in
/// frame number, parameter set, kind, order count or IDR number, or where it is the
/// first of a picture. It belongs to the picture before it in no other case.
pub proof fn law_pictures_are_told_apart(
    pictures: Seq<PictureGroup>,
    header: SliceHeaderView,
    nal: NalView,
    sps: SpsView,
    pps: Pps,
)
    requires
        pictures.len() > 0,
    ensures
        ({
            let last = pictures.last();
            let done = with_slice(pictures, header, nal, sps, pps);
            let same = header.first_mb_in_slice != 0 && header.frame_num == last.header.frame_num
                && header.pps_id == last.header.pps_id && nal.nal_type == last.nal_type
                && header.pic_order_cnt_lsb == last.header.pic_order_cnt_lsb
                && header.idr_pic_id == last.header.idr_pic_id;
            &&& same ==> done.len() == pictures.len()
            &&& !same ==> done.len() == pictures.len() + 1 && done.drop_last() == pictures
            &&& forall|i: int| 0 <= i < pictures.len() - 1 ==> done[i] == pictures[i]
        }),
{
    let done = with_slice(pictures, header, nal, sps, pps);
    if starts_picture(pictures, header, nal.nal_type) {
        assert(done.drop_last() =~= pictures);
    }
}

/// The first slice of a picture says what the picture is, and the slices that follow
/// it do not change that. A picture is intra as long as all its slices are.
pub proof fn law_first_slice_describes_the_picture(
    pictures: Seq<PictureGroup>,
    header: SliceHeaderView,
    nal: NalView,
    sps: SpsView,
    pps: Pps,
)
    ensures
        ({
            let done = with_slice(pictures, header, nal, sps, pps);
            let picture = done.last();
            let intra = header.slice_type is I || header.slice_type is Si;
            &&& done.len() > 0
            &&& picture.slices.last() == nal.data
            &&& done.len() > pictures.len() ==> {
                &&& picture.header == header
                &&& picture.nal_type == nal.nal_type
                &&& picture.ref_idc == nal.ref_idc
                &&& picture.sps == sps
                &&& picture.pps == pps
                &&& picture.is_intra == intra
                &&& picture.slices == seq![nal.data]
            }
            &&& done.len() == pictures.len() ==> {
                &&& picture.header == pictures.last().header
                &&& picture.nal_type == pictures.last().nal_type
                &&& picture.ref_idc == pictures.last().ref_idc
                &&& picture.sps == pictures.last().sps
                &&& picture.pps == pictures.last().pps
                &&& picture.is_intra == (pictures.last().is_intra && intra)
                &&& picture.slices.drop_last() == pictures.last().slices
            }
        }),
{
    let done = with_slice(pictures, header, nal, sps, pps);
    if !starts_picture(pictures, header, nal.nal_type) {
        assert(done.last().slices.drop_last() =~= pictures.last().slices);
    }
}

/// A stream decodes from its first picture on: a sequence parameter set, a picture
/// parameter set and a slice, as they are written, make one picture with the header
/// and the parameter sets that were sent.
pub proof fn law_stream_begins_with_a_picture(
    at: Progress,
    sps_nal: NalView,
    sps: SpsView,
    sps_extras: SpsExtras,
    sps_rest: Seq<bool>,
    pps_nal: NalView,
    pps: Pps,
    pps_rest: Seq<bool>,
    nal: NalView,
    header: SliceHeaderView,
    extras: SliceExtras,
    rest: Seq<bool>,
)
    requires
        at.error is None,
        at.pictures.len() == 0,
        sps_nal.nal_type == NalType::Sps,
        sps_codes(sps, sps_extras),
        coded_bits(sps_nal) == put_sps(sps, sps_extras, sps_rest),
        pps_nal.nal_type == NalType::Pps,
        pps_codes(pps),
        !pps.pic_scaling_matrix_present_flag,
        pps.sps_id == sps.sps_id,
        coded_bits(pps_nal) == put_pps_head(pps, put_pps_tail(pps, Seq::empty(), pps_rest)),
        nal.nal_type == NalType::IdrSlice,
        header.pps_id == pps.pps_id,
        header_codes(header, extras, true, nal.ref_idc, sps, pps),
        coded_bits(nal) == put_slice_header(header, extras, true, nal.ref_idc, sps, pps, rest),
    ensures
        ({
            let done = absorbed_all(at, seq![sps_nal, pps_nal, nal]);
            &&& done.error is None
            &&& done.missing == at.missing
            &&& done.pictures == seq![
                PictureGroup {
                    header,
                    nal_type: NalType::IdrSlice,
                    ref_idc: nal.ref_idc,
                    is_intra: header.slice_type is I || header.slice_type is Si,
                    slices: seq![nal.data],
                    sps,
                    pps,
                },
            ]
        }),
{
    law_sps_is_taken_in(at, sps_nal, sps, sps_extras, sps_rest);
    let first = absorbed(at, sps_nal);
    law_pps_is_taken_in(first, pps_nal, pps, Seq::empty(), pps_rest);
    let second = absorbed(first, pps_nal);
    law_slice_is_grouped(second, nal, header, extras, rest);
    let third = absorbed(second, nal);
    let nals = seq![sps_nal, pps_nal, nal];
    assert(nals.skip(1) =~= seq![pps_nal, nal]);
    assert(seq![pps_nal, nal].skip(1) =~= seq![nal]);
    assert(seq![nal].skip(1) =~= Seq::<NalView>::empty());
    reveal_with_fuel(absorbed_all, 4);
    assert(absorbed_all(at, nals) == third);
    assert(third.pictures =~= seq![
        PictureGroup {
            header,
            nal_type: NalType::IdrSlice,
            ref_idc: nal.ref_idc,
            is_intra: header.slice_type is I || header.slice_type is Si,
            slices: seq![nal.data],
            sps,
            pps,
        },
    ]);
}

} // verus!
