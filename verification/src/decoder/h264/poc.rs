//! Picture order counts of frame pictures (clause 8.2.1).

use crate::decoder::h264::parser::{SliceHeader, Sps};
use crate::decoder::h264::syntax::{SliceHeaderView, SpsView};
use vstd::prelude::*;

verus! {

/// What the order count of a picture is predicted from.
#[derive(Clone, Copy, Debug, PartialEq, Eq, Structural)]
pub struct PocState {
    /// POC type 0 (8.2.1.1): `prevPicOrderCntMsb`.
    pub prev_poc_msb: i32,
    /// POC type 0: `prevPicOrderCntLsb`.
    pub prev_poc_lsb: i32,
    /// POC types 1 and 2 (8.2.1.2, 8.2.1.3): `prevFrameNumOffset`.
    pub prev_frame_num_offset: i32,
    /// POC types 1 and 2: `prevFrameNum`.
    pub prev_frame_num: u32,
}

/// The state after an IDR picture or a memory management reset.
pub open spec fn poc_reset() -> PocState {
    PocState { prev_poc_msb: 0, prev_poc_lsb: 0, prev_frame_num_offset: 0, prev_frame_num: 0 }
}

/// Whether a number fits in an `i32`.
pub open spec fn is_i32(x: int) -> bool {
    i32::MIN <= x <= i32::MAX
}

/// The sum of a sequence.
pub open spec fn sum_of(s: Seq<i32>) -> int
    decreases s.len(),
{
    if s.len() == 0 {
        0
    } else {
        sum_of(s.drop_last()) + s.last()
    }
}

/// Whether `start` and its sums with the first 1, 2, .. `n` values fit in an `i32`.
pub open spec fn partial_sums_fit(values: Seq<i32>, n: int, start: int) -> bool {
    forall|j: int| 0 <= j <= n ==> is_i32(start + #[trigger] sum_of(values.take(j)))
}

/// POC type 0: the most significant part of the order count, `lsb` being the
/// coded part, which counts modulo `max_lsb`.
pub open spec fn poc_msb(state: PocState, lsb: int, max_lsb: int, idr: bool) -> int {
    if idr {
        0
    } else if lsb < state.prev_poc_lsb && state.prev_poc_lsb - lsb >= max_lsb / 2 {
        state.prev_poc_msb + max_lsb
    } else if lsb > state.prev_poc_lsb && lsb - state.prev_poc_lsb > max_lsb / 2 {
        state.prev_poc_msb - max_lsb
    } else {
        state.prev_poc_msb as int
    }
}

/// POC types 1 and 2: `FrameNumOffset`, which grows each time `frame_num` wraps.
pub open spec fn offset_of(state: PocState, frame_num: int, max_frame_num: int, idr: bool) -> int {
    if idr {
        0
    } else if (state.prev_frame_num as i32) > frame_num {
        state.prev_frame_num_offset + max_frame_num
    } else {
        state.prev_frame_num_offset as int
    }
}

/// POC type 1: `absFrameNum`.
pub open spec fn abs_frame_num(offset: int, frame_num: int, cycle_len: int, reference: bool) -> int {
    if cycle_len == 0 {
        0
    } else if !reference && offset + frame_num > 0 {
        offset + frame_num - 1
    } else {
        offset + frame_num
    }
}

/// POC type 1: the expected order count of the frame with number `abs`, the
/// `offsets` of a cycle being repeated.
pub open spec fn expected_poc(offsets: Seq<i32>, abs: int) -> int {
    if abs > 0 {
        ((abs - 1) / offsets.len() as int) * sum_of(offsets) + sum_of(
            offsets.take((abs - 1) % offsets.len() as int + 1),
        )
    } else {
        0
    }
}

/// The picture order count of a frame picture.
pub open spec fn poc_of(
    state: PocState,
    header: SliceHeaderView,
    sps: SpsView,
    idr: bool,
    reference: bool,
) -> int {
    let frame_num = header.frame_num as i32 as int;
    let offset = offset_of(state, frame_num, sps.max_frame_num() as i32 as int, idr);
    if sps.poc.pic_order_cnt_type == 0 {
        let lsb = header.pic_order_cnt_lsb as i32 as int;
        poc_msb(state, lsb, sps.max_pic_order_cnt_lsb() as i32 as int, idr) + lsb
    } else if sps.poc.pic_order_cnt_type == 1 {
        let offsets = sps.poc.offsets_for_ref_frame;
        expected_poc(
            offsets,
            abs_frame_num(offset, frame_num, offsets.len() as int, reference),
        ) + (if reference {
            0
        } else {
            sps.poc.offset_for_non_ref_pic as int
        }) + header.delta_pic_order_cnt.0
    } else if idr {
        0
    } else if reference {
        2 * (offset + frame_num)
    } else {
        2 * (offset + frame_num) - 1
    }
}

/// What later pictures predict from, after a frame picture without a memory
/// management reset.
pub open spec fn poc_advance(
    state: PocState,
    header: SliceHeaderView,
    sps: SpsView,
    idr: bool,
    reference: bool,
) -> PocState {
    let frame_num = header.frame_num as i32 as int;
    let offset = offset_of(state, frame_num, sps.max_frame_num() as i32 as int, idr);
    let lsb = header.pic_order_cnt_lsb as i32;
    let state = if idr { poc_reset() } else { state };
    if sps.poc.pic_order_cnt_type != 0 {
        PocState {
            prev_frame_num_offset: offset as i32,
            prev_frame_num: header.frame_num,
            ..state
        }
    } else if reference {
        PocState {
            prev_poc_msb: poc_msb(
                state,
                lsb as int,
                sps.max_pic_order_cnt_lsb() as i32 as int,
                idr,
            ) as i32,
            prev_poc_lsb: lsb,
            prev_frame_num: header.frame_num,
            ..state
        }
    } else {
        PocState { prev_frame_num: header.frame_num, ..state }
    }
}

/// Whether the arithmetic of a POC type 0 order count stays within an `i32`.
pub open spec fn type0_fits(
    state: PocState,
    header: SliceHeaderView,
    sps: SpsView,
    idr: bool,
) -> bool {
    let lsb = header.pic_order_cnt_lsb as i32 as int;
    let msb = poc_msb(state, lsb, sps.max_pic_order_cnt_lsb() as i32 as int, idr);
    &&& sps.poc.log2_max_pic_order_cnt_lsb_minus4 < 28
    &&& idr || is_i32(state.prev_poc_lsb - lsb) && is_i32(lsb - state.prev_poc_lsb)
    &&& is_i32(msb)
    &&& is_i32(msb + lsb)
}

/// Whether the frame number offset stays within an `i32`.
pub open spec fn offset_fits(
    state: PocState,
    header: SliceHeaderView,
    sps: SpsView,
    idr: bool,
) -> bool {
    let frame_num = header.frame_num as i32 as int;
    &&& sps.log2_max_frame_num_minus4 < 28
    &&& is_i32(offset_of(state, frame_num, sps.max_frame_num() as i32 as int, idr))
}

/// Whether the arithmetic of a POC type 1 order count stays within an `i32`.
pub open spec fn type1_fits(
    state: PocState,
    header: SliceHeaderView,
    sps: SpsView,
    idr: bool,
    reference: bool,
) -> bool {
    let frame_num = header.frame_num as i32 as int;
    let offset = offset_of(state, frame_num, sps.max_frame_num() as i32 as int, idr);
    let offsets = sps.poc.offsets_for_ref_frame;
    let len = offsets.len() as int;
    let abs = abs_frame_num(offset, frame_num, len, reference);
    let expected = expected_poc(offsets, abs) + (if reference {
        0
    } else {
        sps.poc.offset_for_non_ref_pic as int
    });
    &&& offset_fits(state, header, sps, idr)
    &&& len <= i32::MAX
    &&& len == 0 || is_i32(offset + frame_num)
    &&& expected_fits(offsets, abs)
    &&& is_i32(expected)
    &&& is_i32(expected + header.delta_pic_order_cnt.0)
}

/// Whether the arithmetic of a POC type 2 order count stays within an `i32`.
pub open spec fn type2_fits(
    state: PocState,
    header: SliceHeaderView,
    sps: SpsView,
    idr: bool,
    reference: bool,
) -> bool {
    let frame_num = header.frame_num as i32 as int;
    let temp = offset_of(state, frame_num, sps.max_frame_num() as i32 as int, idr) + frame_num;
    &&& offset_fits(state, header, sps, idr)
    &&& idr || is_i32(temp) && is_i32(2 * temp) && (reference || is_i32(2 * temp - 1))
}

/// Whether the order count of a picture can be computed in `i32` arithmetic.
pub open spec fn poc_fits(
    state: PocState,
    header: SliceHeaderView,
    sps: SpsView,
    idr: bool,
    reference: bool,
) -> bool {
    if sps.poc.pic_order_cnt_type == 0 {
        type0_fits(state, header, sps, idr)
    } else if sps.poc.pic_order_cnt_type == 1 {
        type1_fits(state, header, sps, idr, reference)
    } else if sps.poc.pic_order_cnt_type == 2 {
        type2_fits(state, header, sps, idr, reference)
    } else {
        true
    }
}

/// An `i64` as an `i32`, where it fits.
fn narrow(x: i64) -> (narrowed: Option<i32>)
    ensures
        match narrowed {
            Some(value) => value == x,
            None => !is_i32(x as int),
        },
{
    if x < i32::MIN as i64 || x > i32::MAX as i64 {
        None
    } else {
        Some(x as i32)
    }
}

/// `start` plus the first `n` values, if no partial sum leaves the range of an `i32`.
fn checked_sum(values: &Vec<i32>, n: usize, start: i64) -> (sum: Option<i32>)
    requires
        n <= values@.len(),
    ensures
        match sum {
            Some(value) => partial_sums_fit(values@, n as int, start as int) && value == start
                + sum_of(values@.take(n as int)),
            None => !partial_sums_fit(values@, n as int, start as int),
        },
{
    let mut sum: i32 = match narrow(start) {
        Some(sum) => sum,
        None => {
            assert(!is_i32(start + sum_of(values@.take(0))));
            return None;
        },
    };
    let mut i: usize = 0;
    while i < n
        invariant
            i <= n <= values@.len(),
            sum == start + sum_of(values@.take(i as int)),
            partial_sums_fit(values@, i as int, start as int),
        decreases n - i,
    {
        assert(values@.take(i + 1).drop_last() =~= values@.take(i as int));
        sum = match narrow(sum as i64 + values[i] as i64) {
            Some(sum) => sum,
            None => {
                assert(!is_i32(start + sum_of(values@.take(i + 1))));
                return None;
            },
        };
        i = i + 1;
    }
    Some(sum)
}

/// Whether the expected order count of the frame with number `abs` can be
/// computed in `i32` arithmetic.
pub open spec fn expected_fits(offsets: Seq<i32>, abs: int) -> bool {
    abs > 0 ==> {
        let len = offsets.len() as int;
        let cycles = ((abs - 1) / len) * sum_of(offsets);
        partial_sums_fit(offsets, len, 0) && partial_sums_fit(
            offsets,
            (abs - 1) % len + 1,
            cycles,
        )
    }
}

/// The expected order count of the frame with number `abs`, if it fits.
fn checked_expected(offsets: &Vec<i32>, abs: i32) -> (expected: Option<i32>)
    requires
        offsets@.len() <= i32::MAX,
        abs > 0 ==> offsets@.len() > 0,
    ensures
        match expected {
            Some(value) => expected_fits(offsets@, abs as int) && value == expected_poc(
                offsets@,
                abs as int,
            ),
            None => !expected_fits(offsets@, abs as int),
        },
{
    if abs <= 0 {
        return Some(0);
    }
    let len: usize = offsets.len();
    let cycle: i32 = checked_sum(offsets, len, 0)?;
    assert(offsets@.take(len as int) =~= offsets@);
    let before: i32 = abs - 1;
    let poc_cycle_cnt: i32 = before / len as i32;
    let frame_num_in_cycle: usize = (before % len as i32) as usize;
    proof {
        vstd::arithmetic::div_mod::lemma_div_is_ordered_by_denominator(
            before as int,
            1,
            len as int,
        );
        vstd::arithmetic::div_mod::lemma_div_basics(before as int);
        assert(-0x4000_0000_0000_0000 <= poc_cycle_cnt * cycle <= 0x4000_0000_0000_0000)
            by (nonlinear_arith)
            requires
                0 <= poc_cycle_cnt <= 0x7fff_ffff,
                -0x8000_0000 <= cycle <= 0x7fff_ffff,
        ;
    }
    let cycles: i64 = poc_cycle_cnt as i64 * cycle as i64;
    checked_sum(offsets, frame_num_in_cycle + 1, cycles)
}

impl PocState {
    /// POC type 0 (8.2.1.1): explicit LSB in the slice header, MSB tracked here.
    /// Returns the most significant part and the order count, if they fit.
    fn compute_poc_type0(&self, header: &SliceHeader, sps: &Sps, is_idr: bool) -> (poc: Option<
        (i32, i32),
    >)
        requires
            sps@.poc.pic_order_cnt_type == 0,
        ensures
            match poc {
                Some((msb, poc)) => type0_fits(*self, header@, sps@, is_idr) && poc == poc_of(
                    *self,
                    header@,
                    sps@,
                    is_idr,
                    true,
                ) && msb == poc_msb(
                    *self,
                    header@.pic_order_cnt_lsb as i32 as int,
                    sps@.max_pic_order_cnt_lsb() as i32 as int,
                    is_idr,
                ),
                None => !type0_fits(*self, header@, sps@, is_idr),
            },
    {
        if sps.log2_max_pic_order_cnt_lsb_minus4 >= 28 {
            return None;
        }
        let max_lsb: i64 = sps.max_pic_order_cnt_lsb() as i32 as i64;
        let lsb: i64 = header.pic_order_cnt_lsb as i32 as i64;
        let prev_lsb: i64 = self.prev_poc_lsb as i64;
        // The one negative value is that of two to the 31, which has no `i32`.
        let half: i64 = if max_lsb < 0 { -0x4000_0000 } else { max_lsb / 2 };
        if !is_idr && (narrow(prev_lsb - lsb).is_none() || narrow(lsb - prev_lsb).is_none()) {
            return None;
        }
        let msb: i64 = if is_idr {
            0
        } else if lsb < prev_lsb && prev_lsb - lsb >= half {
            self.prev_poc_msb as i64 + max_lsb
        } else if lsb > prev_lsb && lsb - prev_lsb > half {
            self.prev_poc_msb as i64 - max_lsb
        } else {
            self.prev_poc_msb as i64
        };
        match (narrow(msb), narrow(msb + lsb)) {
            (Some(msb), Some(poc)) => Some((msb, poc)),
            _ => None,
        }
    }

    /// Frame number offset shared by POC types 1 and 2 (handles frame_num wrap),
    /// if it fits.
    fn frame_num_offset(&self, header: &SliceHeader, sps: &Sps, is_idr: bool) -> (offset: Option<
        i32,
    >)
        ensures
            match offset {
                Some(offset) => offset_fits(*self, header@, sps@, is_idr) && offset == offset_of(
                    *self,
                    header@.frame_num as i32 as int,
                    sps@.max_frame_num() as i32 as int,
                    is_idr,
                ),
                None => !offset_fits(*self, header@, sps@, is_idr),
            },
    {
        if sps.log2_max_frame_num_minus4 >= 28 {
            return None;
        }
        let max_frame_num: i64 = sps.max_frame_num() as i32 as i64;
        if is_idr {
            Some(0)
        } else if (self.prev_frame_num as i32) > (header.frame_num as i32) {
            narrow(self.prev_frame_num_offset as i64 + max_frame_num)
        } else {
            Some(self.prev_frame_num_offset)
        }
    }

    /// POC type 1 (8.2.1.2): POC derived from a repeating cycle in the SPS.
    /// Returns the frame number offset and the order count, if they fit.
    fn compute_poc_type1(
        &self,
        header: &SliceHeader,
        sps: &Sps,
        is_idr: bool,
        is_reference: bool,
    ) -> (poc: Option<(i32, i32)>)
        requires
            sps@.poc.pic_order_cnt_type == 1,
        ensures
            match poc {
                Some((offset, poc)) => type1_fits(*self, header@, sps@, is_idr, is_reference)
                    && poc == poc_of(*self, header@, sps@, is_idr, is_reference) && offset
                    == offset_of(
                    *self,
                    header@.frame_num as i32 as int,
                    sps@.max_frame_num() as i32 as int,
                    is_idr,
                ),
                None => !type1_fits(*self, header@, sps@, is_idr, is_reference),
            },
    {
        let offset: i32 = self.frame_num_offset(header, sps, is_idr)?;
        let offsets: &Vec<i32> = &sps.offsets_for_ref_frame;
        let frame_num: i32 = header.frame_num as i32;
        let len: usize = offsets.len();
        if len > i32::MAX as usize {
            return None;
        }
        let mut abs: i32 = 0;
        if len != 0 {
            abs = narrow(offset as i64 + frame_num as i64)?;
            if !is_reference && abs > 0 {
                abs = abs - 1;
            }
        }
        let mut expected: i64 = checked_expected(offsets, abs)? as i64;
        if !is_reference {
            expected = expected + sps.offset_for_non_ref_pic as i64;
        }
        let expected: i32 = narrow(expected)?;
        let poc: i32 = narrow(expected as i64 + header.delta_pic_order_cnt[0] as i64)?;
        Some((offset, poc))
    }

    /// POC type 2 (8.2.1.3): POC is a direct function of frame_num (decode order).
    /// Returns the frame number offset and the order count, if they fit.
    fn compute_poc_type2(
        &self,
        header: &SliceHeader,
        sps: &Sps,
        is_idr: bool,
        is_reference: bool,
    ) -> (poc: Option<(i32, i32)>)
        requires
            sps@.poc.pic_order_cnt_type == 2,
        ensures
            match poc {
                Some((offset, poc)) => type2_fits(*self, header@, sps@, is_idr, is_reference)
                    && poc == poc_of(*self, header@, sps@, is_idr, is_reference) && offset
                    == offset_of(
                    *self,
                    header@.frame_num as i32 as int,
                    sps@.max_frame_num() as i32 as int,
                    is_idr,
                ),
                None => !type2_fits(*self, header@, sps@, is_idr, is_reference),
            },
    {
        let offset: i32 = self.frame_num_offset(header, sps, is_idr)?;
        if is_idr {
            return Some((offset, 0));
        }
        let temp: i32 = narrow(offset as i64 + (header.frame_num as i32) as i64)?;
        let twice: i32 = narrow(2 * temp as i64)?;
        let poc: i32 = if is_reference {
            twice
        } else {
            narrow(twice as i64 - 1)?
        };
        Some((offset, poc))
    }

    /// The order count of a frame picture, and what later pictures predict from.
    /// `None` where the arithmetic leaves the range of an `i32`.
    pub fn advance(
        &self,
        header: &SliceHeader,
        sps: &Sps,
        is_idr: bool,
        is_reference: bool,
    ) -> (next: Option<(i32, PocState)>)
        requires
            sps@.poc.pic_order_cnt_type <= 2,
        ensures
            match next {
                Some((poc, state)) => poc_fits(*self, header@, sps@, is_idr, is_reference) && poc
                    == poc_of(*self, header@, sps@, is_idr, is_reference) && state == poc_advance(
                    *self,
                    header@,
                    sps@,
                    is_idr,
                    is_reference,
                ),
                None => !poc_fits(*self, header@, sps@, is_idr, is_reference),
            },
    {
        let mut state: PocState = if is_idr {
            PocState {
                prev_poc_msb: 0,
                prev_poc_lsb: 0,
                prev_frame_num_offset: 0,
                prev_frame_num: 0,
            }
        } else {
            *self
        };
        state.prev_frame_num = header.frame_num;
        if sps.pic_order_cnt_type == 0 {
            let (msb, poc): (i32, i32) = self.compute_poc_type0(header, sps, is_idr)?;
            // Only reference pictures update the prev* state.
            if is_reference {
                state.prev_poc_msb = msb;
                state.prev_poc_lsb = header.pic_order_cnt_lsb as i32;
            }
            Some((poc, state))
        } else {
            let (offset, poc): (i32, i32) = if sps.pic_order_cnt_type == 1 {
                self.compute_poc_type1(header, sps, is_idr, is_reference)?
            } else {
                self.compute_poc_type2(header, sps, is_idr, is_reference)?
            };
            state.prev_frame_num_offset = offset;
            Some((poc, state))
        }
    }
}

/// Whether a state that order counts of type 0 are predicted from is one that
/// counting modulo `max_lsb` leads to: whole cycles, and a part of one.
pub open spec fn type0_whole(state: PocState, max_lsb: int) -> bool {
    state.prev_poc_msb as int % max_lsb == 0 && 0 <= state.prev_poc_lsb < max_lsb
}

/// Counting modulo `MaxPicOrderCntLsb` keeps whole cycles apart from the part of
/// one: a reset has no cycles, and every picture whose order count fits keeps them
/// apart.
pub proof fn law_type0_state_stays_whole(
    state: PocState,
    header: SliceHeaderView,
    sps: SpsView,
    idr: bool,
    reference: bool,
)
    requires
        sps.poc.pic_order_cnt_type == 0,
        sps.max_pic_order_cnt_lsb() <= i32::MAX,
        header.pic_order_cnt_lsb < sps.max_pic_order_cnt_lsb(),
        poc_fits(state, header, sps, idr, reference),
        type0_whole(state, sps.max_pic_order_cnt_lsb() as int),
    ensures
        type0_whole(poc_reset(), sps.max_pic_order_cnt_lsb() as int),
        type0_whole(
            poc_advance(state, header, sps, idr, reference),
            sps.max_pic_order_cnt_lsb() as int,
        ),
{
    let max_lsb = sps.max_pic_order_cnt_lsb() as int;
    let msb = state.prev_poc_msb as int;
    vstd::arithmetic::div_mod::lemma_mod_multiples_vanish(1, msb, max_lsb);
    vstd::arithmetic::div_mod::lemma_mod_multiples_vanish(-1, msb, max_lsb);
    vstd::arithmetic::div_mod::lemma_small_mod(0, max_lsb as nat);
    assert(max_lsb * 1 + msb == msb + max_lsb && max_lsb * -1 + msb == msb - max_lsb)
        by (nonlinear_arith);
}

/// POC type 0 recovers the order counts that an encoder meant: if a picture's
/// count lies within half a cycle of the last reference's, sending it modulo the
/// cycle length is enough.
pub proof fn law_type0_recovers_poc(state: PocState, poc: int, max_lsb: int)
    requires
        max_lsb > 0,
        max_lsb % 2 == 0,
        type0_whole(state, max_lsb),
        -max_lsb / 2 < poc - (state.prev_poc_msb + state.prev_poc_lsb) <= max_lsb / 2,
    ensures
        poc_msb(state, poc % max_lsb, max_lsb, false) + poc % max_lsb == poc,
{
    let msb = state.prev_poc_msb as int;
    let lsb = poc % max_lsb;
    let delta = poc - msb;
    vstd::arithmetic::div_mod::lemma_fundamental_div_mod(msb, max_lsb);
    let k = msb / max_lsb;
    assert(msb == max_lsb * k);
    assert((k - 1) * max_lsb == msb - max_lsb && (k + 1) * max_lsb == msb + max_lsb && k * max_lsb
        == msb) by (nonlinear_arith)
        requires
            msb == max_lsb * k,
    ;
    if delta < 0 {
        assert(delta + max_lsb >= 0);
        vstd::arithmetic::div_mod::lemma_fundamental_div_mod_converse(
            poc,
            max_lsb,
            k - 1,
            delta + max_lsb,
        );
    } else if delta >= max_lsb {
        vstd::arithmetic::div_mod::lemma_fundamental_div_mod_converse(
            poc,
            max_lsb,
            k + 1,
            delta - max_lsb,
        );
    } else {
        vstd::arithmetic::div_mod::lemma_fundamental_div_mod_converse(poc, max_lsb, k, delta);
    }
}

/// POC type 2 orders pictures as they are decoded: where `frame_num` advances
/// after each reference picture, modulo its cycle, and no two disposable pictures
/// follow one another, each picture comes after the one before it.
pub proof fn law_type2_is_decode_order(
    state: PocState,
    first: SliceHeaderView,
    second: SliceHeaderView,
    sps: SpsView,
    first_idr: bool,
    first_reference: bool,
    second_reference: bool,
)
    requires
        sps.poc.pic_order_cnt_type == 2,
        sps.log2_max_frame_num_minus4 < 27,
        type2_fits(state, first, sps, first_idr, first_reference),
        first.frame_num < sps.max_frame_num(),
        first_idr ==> first_reference && first.frame_num == 0,
        second.frame_num as int == if !first_reference {
            first.frame_num as int
        } else if first.frame_num + 1 == sps.max_frame_num() {
            0
        } else {
            first.frame_num + 1
        },
        first_reference || second_reference,
    ensures
        poc_of(state, first, sps, first_idr, first_reference) < poc_of(
            poc_advance(state, first, sps, first_idr, first_reference),
            second,
            sps,
            false,
            second_reference,
        ),
{
    vstd::arithmetic::power2::lemma2_to64();
    vstd::arithmetic::power2::lemma_pow2_strictly_increases(
        (sps.log2_max_frame_num_minus4 + 4) as nat,
        31,
    );
}

/// A picture that nothing may refer to leaves what POC type 0 predicts from as it
/// was, unless it starts a new sequence.
pub proof fn law_disposable_picture_keeps_prediction(
    state: PocState,
    header: SliceHeaderView,
    sps: SpsView,
)
    ensures
        poc_advance(state, header, sps, false, false).prev_poc_msb == state.prev_poc_msb,
        poc_advance(state, header, sps, false, false).prev_poc_lsb == state.prev_poc_lsb,
{
}

/// POC type 0 predicts from the last reference: its two parts add up to the order
/// count of that picture.
pub proof fn law_reference_is_predicted_from(
    state: PocState,
    header: SliceHeaderView,
    sps: SpsView,
    idr: bool,
)
    requires
        sps.poc.pic_order_cnt_type == 0,
        poc_fits(state, header, sps, idr, true),
    ensures
        ({
            let next = poc_advance(state, header, sps, idr, true);
            next.prev_poc_msb + next.prev_poc_lsb == poc_of(state, header, sps, idr, true)
        }),
{
}

/// The expected order count after `n` steps through the offsets of a cycle.
pub open spec fn walked(offsets: Seq<i32>, n: nat) -> int
    decreases n,
{
    if n == 0 {
        0
    } else {
        walked(offsets, (n - 1) as nat) + offsets[(n - 1) % offsets.len() as int]
    }
}

/// POC type 1 goes through the offsets of its cycle one by one, over and over.
pub proof fn law_expected_poc_walks_the_cycle(offsets: Seq<i32>, n: nat)
    requires
        offsets.len() > 0,
    ensures
        expected_poc(offsets, n as int) == walked(offsets, n),
    decreases n,
{
    if n > 0 {
        let len = offsets.len() as int;
        let before = n - 1;
        law_expected_poc_walks_the_cycle(offsets, before as nat);
        let cycle = before / len;
        let at = before % len;
        let sum = sum_of(offsets);
        let part = offsets.take(at + 1);
        vstd::arithmetic::div_mod::lemma_fundamental_div_mod(before, len);
        assert(sum_of(part) == sum_of(offsets.take(at)) + offsets[at]) by {
            assert(part.drop_last() =~= offsets.take(at));
            assert(part.last() == offsets[at]);
        }
        assert(expected_poc(offsets, before) == cycle * sum + sum_of(offsets.take(at))) by {
            lemma_one_step_back(offsets, before);
        }
        assert(expected_poc(offsets, n as int) == cycle * sum + sum_of(part));
    }
}

/// The expected order count, from the whole cycles before it.
proof fn lemma_one_step_back(offsets: Seq<i32>, n: int)
    requires
        offsets.len() > 0,
        n >= 0,
    ensures
        expected_poc(offsets, n) == (n / offsets.len() as int) * sum_of(offsets) + sum_of(
            offsets.take(n % offsets.len() as int),
        ),
{
    let len = offsets.len() as int;
    let cycle = n / len;
    let at = n % len;
    let sum = sum_of(offsets);
    vstd::arithmetic::div_mod::lemma_fundamental_div_mod(n, len);
    assert(offsets.take(0) =~= Seq::<i32>::empty());
    assert(sum_of(offsets.take(0)) == 0);
    vstd::arithmetic::div_mod::lemma_small_mod(0, len as nat);
    if at > 0 {
        assert(n - 1 == cycle * len + (at - 1)) by (nonlinear_arith)
            requires
                n == len * cycle + at,
        ;
        vstd::arithmetic::div_mod::lemma_fundamental_div_mod_converse(n - 1, len, cycle, at - 1);
    } else if n > 0 {
        assert(n - 1 == (cycle - 1) * len + (len - 1)) by (nonlinear_arith)
            requires
                n == len * cycle + at,
                at == 0,
        ;
        vstd::arithmetic::div_mod::lemma_fundamental_div_mod_converse(
            n - 1,
            len,
            cycle - 1,
            len - 1,
        );
        assert(offsets.take(len) =~= offsets);
        assert((cycle - 1) * sum + sum == cycle * sum) by (nonlinear_arith);
    } else {
        vstd::arithmetic::div_mod::lemma_basic_div(0, len);
        assert(0 * sum == 0);
    }
}

/// Whether a state has counted `count` frames: whole cycles of `frame_num`, and a
/// part of one.
pub open spec fn counted(state: PocState, count: int, max_frame_num: int) -> bool {
    &&& state.prev_frame_num_offset as int % max_frame_num == 0
    &&& state.prev_frame_num < max_frame_num
    &&& state.prev_frame_num_offset + state.prev_frame_num == count
}

/// `frame_num` is recovered from its remainder: if less than a cycle has passed
/// since the picture before, POC types 1 and 2 count as many frames as were sent.
pub proof fn law_frame_numbers_are_recovered(
    state: PocState,
    header: SliceHeaderView,
    sps: SpsView,
    reference: bool,
    before: int,
    count: int,
)
    requires
        sps.poc.pic_order_cnt_type == 1 || sps.poc.pic_order_cnt_type == 2,
        sps.log2_max_frame_num_minus4 < 27,
        counted(state, before, sps.max_frame_num() as int),
        before <= count < before + sps.max_frame_num(),
        0 <= before && count <= i32::MAX,
        header.frame_num as int == count % sps.max_frame_num() as int,
    ensures
        offset_of(
            state,
            header.frame_num as i32 as int,
            sps.max_frame_num() as i32 as int,
            false,
        ) + header.frame_num == count,
        counted(
            poc_advance(state, header, sps, false, reference),
            count,
            sps.max_frame_num() as int,
        ),
{
    let max = sps.max_frame_num() as int;
    lemma_max_frame_num(sps);
    let offset = state.prev_frame_num_offset as int;
    let k = offset / max;
    vstd::arithmetic::div_mod::lemma_fundamental_div_mod(offset, max);
    assert(offset == max * k);
    assert(k * max == offset && (k + 1) * max == offset + max) by (nonlinear_arith)
        requires
            offset == max * k,
    ;
    vstd::arithmetic::div_mod::lemma_mod_multiples_vanish(1, offset, max);
    if count - offset < max {
        vstd::arithmetic::div_mod::lemma_fundamental_div_mod_converse(
            count,
            max,
            k,
            count - offset,
        );
    } else {
        vstd::arithmetic::div_mod::lemma_fundamental_div_mod_converse(
            count,
            max,
            k + 1,
            count - offset - max,
        );
    }
}

proof fn lemma_max_frame_num(sps: SpsView)
    requires
        sps.log2_max_frame_num_minus4 < 27,
    ensures
        0 < sps.max_frame_num() <= 0x4000_0000,
{
    vstd::arithmetic::power2::lemma2_to64();
    vstd::arithmetic::power2::lemma_pow2_pos((sps.log2_max_frame_num_minus4 + 4) as nat);
    if sps.log2_max_frame_num_minus4 < 26 {
        vstd::arithmetic::power2::lemma_pow2_strictly_increases(
            (sps.log2_max_frame_num_minus4 + 4) as nat,
            30,
        );
    }
}

/// An IDR picture with frame number zero counts no frames, whatever came before.
pub proof fn law_idr_counts_from_zero(
    state: PocState,
    header: SliceHeaderView,
    sps: SpsView,
    reference: bool,
)
    requires
        sps.log2_max_frame_num_minus4 < 27,
        header.frame_num == 0,
    ensures
        counted(poc_reset(), 0, sps.max_frame_num() as int),
        counted(
            poc_advance(state, header, sps, true, reference),
            0,
            sps.max_frame_num() as int,
        ),
{
    lemma_max_frame_num(sps);
    vstd::arithmetic::div_mod::lemma_small_mod(0, sps.max_frame_num() as nat);
}

/// POC type 1: a reference with frame count `count` has the order count that as many
/// steps through the cycle lead to, a disposable picture that of the frame before it
/// and its own offset. The header adds its difference.
pub proof fn law_type1_follows_the_cycle(
    state: PocState,
    header: SliceHeaderView,
    sps: SpsView,
    reference: bool,
    before: int,
    count: int,
)
    requires
        sps.poc.pic_order_cnt_type == 1,
        sps.log2_max_frame_num_minus4 < 27,
        sps.poc.offsets_for_ref_frame.len() > 0,
        counted(state, before, sps.max_frame_num() as int),
        before <= count < before + sps.max_frame_num(),
        0 <= before && count <= i32::MAX,
        header.frame_num as int == count % sps.max_frame_num() as int,
    ensures
        reference ==> poc_of(state, header, sps, false, true) == walked(
            sps.poc.offsets_for_ref_frame,
            count as nat,
        ) + header.delta_pic_order_cnt.0,
        !reference && count > 0 ==> poc_of(state, header, sps, false, false) == walked(
            sps.poc.offsets_for_ref_frame,
            (count - 1) as nat,
        ) + sps.poc.offset_for_non_ref_pic + header.delta_pic_order_cnt.0,
{
    let offsets = sps.poc.offsets_for_ref_frame;
    law_frame_numbers_are_recovered(state, header, sps, reference, before, count);
    lemma_max_frame_num(sps);
    vstd::arithmetic::div_mod::lemma_mod_bound(count, sps.max_frame_num() as int);
    law_expected_poc_walks_the_cycle(offsets, count as nat);
    if count > 0 {
        law_expected_poc_walks_the_cycle(offsets, (count - 1) as nat);
    }
}

/// POC type 1 without a cycle: pictures have the order counts that their headers
/// give, disposable ones moved by their offset.
pub proof fn law_type1_without_cycle(
    state: PocState,
    header: SliceHeaderView,
    sps: SpsView,
    idr: bool,
)
    requires
        sps.poc.pic_order_cnt_type == 1,
        sps.poc.offsets_for_ref_frame.len() == 0,
    ensures
        poc_of(state, header, sps, idr, true) == header.delta_pic_order_cnt.0,
        poc_of(state, header, sps, idr, false) == sps.poc.offset_for_non_ref_pic
            + header.delta_pic_order_cnt.0,
{
}

/// POC type 2: a reference with frame count `count` has twice that order count, and
/// a disposable picture comes right before it.
pub proof fn law_type2_doubles_frame_counts(
    state: PocState,
    header: SliceHeaderView,
    sps: SpsView,
    reference: bool,
    before: int,
    count: int,
)
    requires
        sps.poc.pic_order_cnt_type == 2,
        sps.log2_max_frame_num_minus4 < 27,
        counted(state, before, sps.max_frame_num() as int),
        before <= count < before + sps.max_frame_num(),
        0 <= before && count <= i32::MAX,
        header.frame_num as int == count % sps.max_frame_num() as int,
    ensures
        poc_of(state, header, sps, false, true) == 2 * count,
        poc_of(state, header, sps, false, false) == 2 * count - 1,
        poc_of(state, header, sps, true, reference) == 0,
{
    law_frame_numbers_are_recovered(state, header, sps, reference, before, count);
    lemma_max_frame_num(sps);
    vstd::arithmetic::div_mod::lemma_mod_bound(count, sps.max_frame_num() as int);
}

/// POC type 2 counts up to a billion frames in `i32` arithmetic.
pub proof fn law_type2_counts_fit(
    state: PocState,
    header: SliceHeaderView,
    sps: SpsView,
    reference: bool,
    before: int,
    count: int,
)
    requires
        sps.poc.pic_order_cnt_type == 2,
        sps.log2_max_frame_num_minus4 < 27,
        counted(state, before, sps.max_frame_num() as int),
        before <= count < before + sps.max_frame_num(),
        0 <= before && count <= 0x3fff_ffff,
        header.frame_num as int == count % sps.max_frame_num() as int,
    ensures
        poc_fits(state, header, sps, false, reference),
        poc_fits(state, header, sps, true, reference),
{
    law_frame_numbers_are_recovered(state, header, sps, reference, before, count);
    lemma_max_frame_num(sps);
    vstd::arithmetic::div_mod::lemma_mod_bound(count, sps.max_frame_num() as int);
}

/// POC type 1 without a cycle is computed wherever its counts are `i32` values.
pub proof fn law_type1_without_cycle_fits(
    state: PocState,
    header: SliceHeaderView,
    sps: SpsView,
    reference: bool,
    before: int,
    count: int,
)
    requires
        sps.poc.pic_order_cnt_type == 1,
        sps.poc.offsets_for_ref_frame.len() == 0,
        sps.log2_max_frame_num_minus4 < 27,
        counted(state, before, sps.max_frame_num() as int),
        before <= count < before + sps.max_frame_num(),
        0 <= before && count <= i32::MAX,
        header.frame_num as int == count % sps.max_frame_num() as int,
        is_i32(sps.poc.offset_for_non_ref_pic + header.delta_pic_order_cnt.0),
    ensures
        poc_fits(state, header, sps, false, reference),
        poc_fits(state, header, sps, true, reference),
{
    law_frame_numbers_are_recovered(state, header, sps, reference, before, count);
    lemma_max_frame_num(sps);
    vstd::arithmetic::div_mod::lemma_mod_bound(count, sps.max_frame_num() as int);
}

} // verus!
