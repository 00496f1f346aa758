//! Splitting an Annex B byte stream into NAL units.

use vstd::prelude::*;

verus! {

/// H.264 NAL unit types this parser cares about.
#[derive(Clone, Copy, Debug, PartialEq, Eq, Structural)]
pub enum NalType {
    /// Coded slice of a non-IDR picture (type 1).
    Slice,
    /// Coded slice of an IDR picture (type 5).
    IdrSlice,
    /// Supplemental enhancement information (type 6).
    Sei,
    /// Sequence parameter set (type 7).
    Sps,
    /// Picture parameter set (type 8).
    Pps,
    /// Access unit delimiter (type 9).
    Aud,
    /// Anything else.
    Other(u8),
}

/// The NAL unit type with the number `raw`.
pub open spec fn nal_type_of(raw: u8) -> NalType {
    match raw {
        1 => NalType::Slice,
        5 => NalType::IdrSlice,
        6 => NalType::Sei,
        7 => NalType::Sps,
        8 => NalType::Pps,
        9 => NalType::Aud,
        other => NalType::Other(other),
    }
}

/// Whether a NAL unit of this type is a coded slice.
pub open spec fn is_slice_type(nal_type: NalType) -> bool {
    nal_type == NalType::Slice || nal_type == NalType::IdrSlice
}

impl NalType {
    fn from_raw(raw: u8) -> (nal_type: Self)
        ensures
            nal_type == nal_type_of(raw),
    {
        match raw {
            1 => NalType::Slice,
            5 => NalType::IdrSlice,
            6 => NalType::Sei,
            7 => NalType::Sps,
            8 => NalType::Pps,
            9 => NalType::Aud,
            other => NalType::Other(other),
        }
    }

    /// Whether this is a coded slice.
    pub fn is_slice(self) -> (slice: bool)
        ensures
            slice == is_slice_type(self),
    {
        matches!(self, NalType::Slice | NalType::IdrSlice)
    }
}

/// A single NAL unit within an Annex B stream.
#[derive(Clone, Copy, Debug)]
pub struct NalUnit<'a> {
    pub nal_type: NalType,
    /// `nal_ref_idc`: non-zero means this NAL is part of a reference picture.
    pub ref_idc: u8,
    /// The complete NAL unit (header byte + EBSP payload), without start code.
    pub data: &'a [u8],
}

/// The mathematical view of a [`NalUnit`].
#[verifier::ext_equal]
pub struct NalView {
    pub nal_type: NalType,
    pub ref_idc: u8,
    pub data: Seq<u8>,
}

impl<'a> View for NalUnit<'a> {
    type V = NalView;

    open spec fn view(&self) -> NalView {
        NalView { nal_type: self.nal_type, ref_idc: self.ref_idc, data: self.data@ }
    }
}

impl<'a> NalUnit<'a> {
    /// EBSP payload after the 1-byte NAL header.
    pub fn payload(&self) -> (payload: &'a [u8])
        requires
            self.data@.len() >= 1,
        ensures
            payload@ == self.data@.skip(1),
    {
        let payload = vstd::slice::slice_subrange(self.data, 1, self.data.len());
        assert(payload@ =~= self.data@.skip(1));
        payload
    }
}

/// The length of the start code at offset `i`, 0 where there is none. A start
/// code is two or three zero bytes and a one.
pub open spec fn start_code_len(data: Seq<u8>, i: int) -> int {
    if i + 3 <= data.len() && data[i] == 0 && data[i + 1] == 0 && data[i + 2] == 1 {
        3
    } else if i + 4 <= data.len() && data[i] == 0 && data[i + 1] == 0 && data[i + 2] == 0
        && data[i + 3] == 1 {
        4
    } else {
        0
    }
}

/// The offset of the first start code at or after `from`, or the end of the data
/// where there is none.
pub open spec fn next_start_code(data: Seq<u8>, from: int) -> int
    decreases data.len() - from,
{
    if from >= data.len() {
        data.len() as int
    } else if start_code_len(data, from) > 0 {
        from
    } else {
        next_start_code(data, from + 1)
    }
}

/// Where `data[start..end]` ends without its trailing zero bytes.
pub open spec fn trimmed_end(data: Seq<u8>, start: int, end: int) -> int
    decreases end - start,
{
    if end > start && data[end - 1] == 0 {
        trimmed_end(data, start, end - 1)
    } else {
        end
    }
}

/// The NAL unit whose header byte and payload are `data`.
pub open spec fn nal_view(data: Seq<u8>) -> NalView {
    NalView { nal_type: nal_type_of(data[0] & 0x1F), ref_idc: (data[0] >> 5) & 0x3, data }
}

/// The NAL units of an Annex B stream from offset `from` on, each with the offset
/// of its start code. A NAL unit ends at the next start code, without the zero
/// bytes before that; an empty one is left out.
pub open spec fn nal_units(data: Seq<u8>, from: int) -> Seq<(int, NalView)>
    decreases data.len() - from,
{
    let start = next_start_code(data, from);
    if from >= data.len() || start >= data.len() {
        Seq::empty()
    } else {
        let payload = start + start_code_len(data, start);
        let end = next_start_code(data, payload);
        let trimmed = trimmed_end(data, payload, end);
        proof {
            lemma_next_start_code(data, from);
            lemma_next_start_code(data, payload);
        }
        let rest = nal_units(data, end);
        if trimmed > payload {
            seq![(start, nal_view(data.subrange(payload, trimmed)))] + rest
        } else {
            rest
        }
    }
}

/// NAL units without their offsets.
pub open spec fn units(nals: Seq<(int, NalView)>) -> Seq<NalView> {
    Seq::new(nals.len(), |i: int| nals[i].1)
}

/// The first start code lies within the data, and no other comes before it.
pub proof fn lemma_next_start_code(data: Seq<u8>, from: int)
    requires
        from <= data.len(),
    ensures
        from <= next_start_code(data, from) <= data.len(),
        next_start_code(data, from) < data.len() ==> start_code_len(
            data,
            next_start_code(data, from),
        ) > 0,
        forall|i: int|
            from <= i < next_start_code(data, from) ==> #[trigger] start_code_len(data, i) == 0,
        forall|i: int|
            from <= i < data.len() && #[trigger] start_code_len(data, i) > 0
                ==> next_start_code(data, from) <= i,
    decreases data.len() - from,
{
    if from < data.len() && start_code_len(data, from) == 0 {
        lemma_next_start_code(data, from + 1);
    }
}

/// Trimming stays within the range, and stops behind a byte that is not zero.
pub proof fn lemma_trimmed_end(data: Seq<u8>, start: int, end: int)
    requires
        0 <= start <= end <= data.len(),
    ensures
        start <= trimmed_end(data, start, end) <= end,
        trimmed_end(data, start, end) > start ==> data[trimmed_end(data, start, end) - 1] != 0,
        forall|i: int| trimmed_end(data, start, end) <= i < end ==> data[i] == 0,
    decreases end - start,
{
    if end > start && data[end - 1] == 0 {
        lemma_trimmed_end(data, start, end - 1);
    }
}

/// A NAL unit has at least its header byte.
pub proof fn lemma_nal_nonempty(data: Seq<u8>, from: int, i: int)
    requires
        0 <= from <= data.len(),
        0 <= i < nal_units(data, from).len(),
    ensures
        nal_units(data, from)[i].1.data.len() >= 1,
    decreases data.len() - from,
{
    let start = next_start_code(data, from);
    lemma_next_start_code(data, from);
    let payload = start + start_code_len(data, start);
    let end = next_start_code(data, payload);
    lemma_next_start_code(data, payload);
    lemma_trimmed_end(data, payload, end);
    if trimmed_end(data, payload, end) > payload {
        if i > 0 {
            lemma_nal_nonempty(data, end, i - 1);
        }
    } else {
        lemma_nal_nonempty(data, end, i);
    }
}

/// Find the next start code at or after `from`. Returns (start_code_pos, payload_pos).
fn find_start_code(data: &[u8], from: usize) -> (found: Option<(usize, usize)>)
    requires
        from <= data@.len(),
    ensures
        match found {
            Some((start, payload)) => start < data@.len() && start == next_start_code(
                data@,
                from as int,
            ) && payload == start + start_code_len(data@, start as int) && payload
                <= data@.len(),
            None => next_start_code(data@, from as int) == data@.len(),
        },
{
    let mut i: usize = from;
    while data.len() - i >= 3
        invariant
            from <= i <= data@.len(),
            next_start_code(data@, from as int) == next_start_code(data@, i as int),
        decreases data@.len() - i,
    {
        if data[i] == 0 && data[i + 1] == 0 {
            if data[i + 2] == 1 {
                return Some((i, i + 3));
            }
            if data.len() - i >= 4 && data[i + 2] == 0 && data[i + 3] == 1 {
                return Some((i, i + 4));
            }
        }
        i = i + 1;
    }
    proof {
        reveal_with_fuel(next_start_code, 4);
    }
    None
}

/// The views of a list of NAL units with offsets.
pub open spec fn nal_list(nals: Seq<(usize, NalUnit)>) -> Seq<(int, NalView)> {
    Seq::new(nals.len(), |i: int| (nals[i].0 as int, nals[i].1@))
}

/// The NAL units in an Annex B byte stream (3- or 4-byte start codes), each with
/// the offset of its start code within `data`. Used to slice the stream on
/// access-unit boundaries.
pub fn iter_nal_units_with_offsets(data: &[u8]) -> (nals: Vec<(usize, NalUnit<'_>)>)
    ensures
        nal_list(nals@) == nal_units(data@, 0),
{
    let mut nals: Vec<(usize, NalUnit)> = Vec::new();
    let mut pos: usize = 0;
    assert(nal_list(nals@) =~= Seq::empty());
    assert(Seq::empty() + nal_units(data@, 0) =~= nal_units(data@, 0));
    loop
        invariant
            pos <= data@.len(),
            nal_list(nals@) + nal_units(data@, pos as int) == nal_units(data@, 0),
        ensures
            next_start_code(data@, pos as int) == data@.len(),
        decreases data@.len() - pos,
    {
        let (start_code_pos, payload_start): (usize, usize) = match find_start_code(data, pos) {
            Some(found) => found,
            None => {
                break;
            },
        };
        proof {
            lemma_next_start_code(data@, pos as int);
            lemma_next_start_code(data@, payload_start as int);
        }
        let end: usize = match find_start_code(data, payload_start) {
            Some((next_start, _)) => next_start,
            None => data.len(),
        };
        proof {
            lemma_trimmed_end(data@, payload_start as int, end as int);
        }
        // Trim trailing zero padding before the next start code.
        let mut trimmed: usize = end;
        while trimmed > payload_start && data[trimmed - 1] == 0
            invariant
                payload_start <= trimmed <= end <= data@.len(),
                trimmed_end(data@, payload_start as int, end as int) == trimmed_end(
                    data@,
                    payload_start as int,
                    trimmed as int,
                ),
            decreases trimmed,
        {
            trimmed = trimmed - 1;
        }
        let ghost before = nal_list(nals@);
        if trimmed > payload_start {
            let nal = vstd::slice::slice_subrange(data, payload_start, trimmed);
            let header: u8 = nal[0];
            let unit = NalUnit {
                nal_type: NalType::from_raw(header & 0x1F),
                ref_idc: (header >> 5) & 0x3,
                data: nal,
            };
            nals.push((start_code_pos, unit));
            assert(nal_list(nals@) =~= before.push((start_code_pos as int, unit@)));
            assert(unit@ == nal_view(data@.subrange(payload_start as int, trimmed as int)));
        }
        assert(nal_list(nals@) + nal_units(data@, end as int) =~= before + nal_units(
            data@,
            pos as int,
        ));
        pos = end;
    }
    assert(nal_list(nals@) + nal_units(data@, pos as int) =~= nal_list(nals@));
    nals
}

/// The NAL units in an Annex B byte stream (3- or 4-byte start codes).
pub fn iter_nal_units(data: &[u8]) -> (nals: Vec<NalUnit<'_>>)
    ensures
        nals@.len() == nal_units(data@, 0).len(),
        forall|i: int| 0 <= i < nals@.len() ==> #[trigger] nals@[i]@ == nal_units(data@, 0)[i].1,
{
    let listed = iter_nal_units_with_offsets(data);
    let mut nals: Vec<NalUnit> = Vec::new();
    let mut i: usize = 0;
    while i < listed.len()
        invariant
            i <= listed@.len(),
            nal_list(listed@) == nal_units(data@, 0),
            nals@.len() == i,
            forall|k: int| 0 <= k < i ==> #[trigger] nals@[k]@ == nal_units(data@, 0)[k].1,
        decreases listed@.len() - i,
    {
        assert(nal_list(listed@)[i as int].1 == listed@[i as int].1@);
        nals.push(listed[i].1);
        i = i + 1;
    }
    nals
}

/// The number of a NAL unit type (table 7-1).
pub open spec fn nal_number(nal_type: NalType) -> u8 {
    match nal_type {
        NalType::Slice => 1,
        NalType::IdrSlice => 5,
        NalType::Sei => 6,
        NalType::Sps => 7,
        NalType::Pps => 8,
        NalType::Aud => 9,
        NalType::Other(number) => number,
    }
}

/// A NAL unit header is read back: its byte holds the reference number in two bits
/// and the type in the five lowest.
pub proof fn law_nal_header_is_read_back(ref_idc: u8, number: u8, payload: Seq<u8>)
    requires
        ref_idc < 4,
        number < 32,
    ensures
        ({
            let nal = nal_view(seq![(ref_idc * 32 + number) as u8] + payload);
            &&& nal.ref_idc == ref_idc
            &&& nal_number(nal.nal_type) == number
            &&& nal.data.skip(1) == payload
            &&& is_slice_type(nal.nal_type) <==> number == 1 || number == 5
            &&& nal.nal_type is Other ==> number == 0 || 2 <= number <= 4 || number > 9
        }),
{
    let byte = (ref_idc * 32 + number) as u8;
    assert((ref_idc * 32 + number) as u8 & 0x1F == number && ((ref_idc * 32 + number) as u8 >> 5)
        & 0x3 == ref_idc) by (bit_vector)
        requires
            ref_idc < 4,
            number < 32,
    ;
    let data = seq![byte] + payload;
    assert(data.skip(1) =~= payload);
}

} // verus!
