//! How bit strings are written: the inverse of what a bit reader does.
//!
//! Each `put_` function puts one code before the bits that follow it, as a syntax
//! table of the standard descends. Nothing here is executed. A reader is right
//! exactly if it reads back what was written.

use crate::decoder::bitreader::{
    bits_of, byte_bits, cursor, leading_zeros, uint, unescape, Cursor,
};
use crate::error::{InvalidInput, PixelForgeError};
use vstd::arithmetic::power2::{lemma2_to64, lemma_pow2_pos, lemma_pow2_unfold, pow2};
use vstd::prelude::*;

verus! {

/// A number as `n` binary digits, the most significant first.
pub open spec fn binary(value: nat, n: nat) -> Seq<bool> {
    Seq::new(n, |i: int| (value / pow2((n - 1 - i) as nat)) % 2 == 1)
}

/// How many digits a number has behind its leading one.
pub open spec fn magnitude(value: nat) -> nat
    decreases value,
{
    if value <= 1 {
        0
    } else {
        1 + magnitude(value / 2)
    }
}

/// An unsigned number of `n` bits: `u(n)`.
#[verifier::opaque]
pub open spec fn put_u(value: u32, n: nat, rest: Seq<bool>) -> Seq<bool> {
    binary(value as nat, n) + rest
}

/// A single bit.
#[verifier::opaque]
pub open spec fn put_flag(flag: bool, rest: Seq<bool>) -> Seq<bool> {
    seq![flag] + rest
}

/// An unsigned Exp-Golomb code: the number plus one in binary, behind as many zeros
/// as it has digits after the first.
#[verifier::opaque]
pub open spec fn put_ue(value: u32, rest: Seq<bool>) -> Seq<bool> {
    let code = (value + 1) as nat;
    Seq::new(magnitude(code), |i: int| false) + (binary(code, magnitude(code) + 1) + rest)
}

/// A signed Exp-Golomb code: positive numbers take the odd codes, the others the
/// even ones.
#[verifier::opaque]
pub open spec fn put_se(value: i32, rest: Seq<bool>) -> Seq<bool> {
    put_ue(
        if value > 0 {
            (2 * value - 1) as u32
        } else {
            (-2 * value) as u32
        },
        rest,
    )
}

/// Whether a number has an unsigned Exp-Golomb code.
pub open spec fn ue_codes(value: u32) -> bool {
    value < u32::MAX
}

/// Whether a number has a signed Exp-Golomb code.
pub open spec fn se_codes(value: i32) -> bool {
    value > i32::MIN
}

proof fn lemma_half(value: nat, k: nat)
    ensures
        (value / 2) / pow2(k) == value / pow2(k + 1),
{
    lemma_pow2_pos(k);
    lemma_pow2_unfold(k + 1);
    vstd::arithmetic::div_mod::lemma_div_denominator(value as int, 2, pow2(k) as int);
}

proof fn lemma_binary(value: nat, n: nat)
    requires
        value < pow2(n),
    ensures
        uint(binary(value, n)) == value,
    decreases n,
{
    if n == 0 {
        lemma2_to64();
    } else {
        let all = binary(value, n);
        let part = binary(value / 2, (n - 1) as nat);
        lemma_pow2_unfold(n);
        lemma2_to64();
        assert(all.drop_last() =~= part) by {
            assert forall|i: int| 0 <= i < n - 1 implies all[i] == part[i] by {
                lemma_half(value, (n - 2 - i) as nat);
            }
        }
        assert(value / pow2(0) == value) by {
            assert(pow2(0) == 1);
        }
        assert(all.last() == (value % 2 == 1));
        lemma_binary(value / 2, (n - 1) as nat);
    }
}

proof fn lemma_magnitude(value: nat)
    requires
        value >= 1,
    ensures
        pow2(magnitude(value)) <= value < pow2(magnitude(value) + 1),
    decreases value,
{
    lemma2_to64();
    if value > 1 {
        lemma_magnitude(value / 2);
        lemma_pow2_unfold(magnitude(value));
        lemma_pow2_unfold(magnitude(value) + 1);
    }
}

proof fn lemma_zeros(n: nat, rest: Seq<bool>)
    requires
        rest.len() > 0,
        rest[0],
    ensures
        leading_zeros(Seq::new(n, |i: int| false) + rest) == n,
    decreases n,
{
    let bits = Seq::new(n, |i: int| false) + rest;
    if n == 0 {
        assert(bits =~= rest);
    } else {
        lemma_zeros((n - 1) as nat, rest);
        assert(bits.skip(1) =~= Seq::new((n - 1) as nat, |i: int| false) + rest);
    }
}

/// A number of `n` bits is read back.
pub broadcast proof fn law_u_is_read_back(value: u32, n: nat, rest: Seq<bool>)
    requires
        n <= 32,
        value < pow2(n),
    ensures
        #[trigger] cursor(put_u(value, n, rest)).u(n) == (value, cursor(rest)),
{
    reveal(put_u);
    let bits = put_u(value, n, rest);
    lemma_binary(value as nat, n);
    assert(bits.take(n as int) =~= binary(value as nat, n));
    assert(bits.skip(n as int) =~= rest);
    lemma2_to64();
}

/// A bit is read back.
pub broadcast proof fn law_flag_is_read_back(flag: bool, rest: Seq<bool>)
    ensures
        #[trigger] cursor(put_flag(flag, rest)).flag() == (flag, cursor(rest)),
{
    reveal(put_flag);
    let bits = put_flag(flag, rest);
    assert(bits.take(1) =~= seq![flag]);
    assert(seq![flag].drop_last() =~= Seq::empty());
    assert(uint(seq![flag].drop_last()) == 0);
    assert(bits.skip(1) =~= rest);
}

/// An unsigned Exp-Golomb code is read back.
pub broadcast proof fn law_ue_is_read_back(value: u32, rest: Seq<bool>)
    requires
        ue_codes(value),
    ensures
        #[trigger] cursor(put_ue(value, rest)).ue() == (value, cursor(rest)),
{
    reveal(put_ue);
    let code = (value + 1) as nat;
    let z = magnitude(code);
    let digits = binary(code, z + 1);
    let bits = put_ue(value, rest);
    lemma_magnitude(code);
    lemma_binary(code, z + 1);
    lemma2_to64();
    lemma_pow2_unfold(z + 1);
    if z >= 32 {
        if z > 32 {
            vstd::arithmetic::power2::lemma_pow2_strictly_increases(32, z);
        }
        assert(false);
    }
    assert(digits[0]) by {
        assert(code / pow2(z) == 1) by (nonlinear_arith)
            requires
                pow2(z) <= code < 2 * pow2(z),
        ;
    }
    lemma_zeros(z, digits + rest);
    let low = bits.subrange((z + 1) as int, (2 * z + 1) as int);
    assert(low =~= digits.skip(1));
    lemma_pow2_pos(z);
    assert(low =~= binary((code - pow2(z)) as nat, z)) by {
        assert forall|i: int| 0 <= i < z implies low[i] == #[trigger] binary(
            (code - pow2(z)) as nat,
            z,
        )[i] by {
            let k = (z - 1 - i) as nat;
            let m = (i + 1) as nat;
            lemma_pow2_pos(k);
            vstd::arithmetic::power2::lemma_pow2_adds(k, m);
            lemma_pow2_unfold(m);
            let p = pow2(k) as int;
            let q = pow2(i as nat) as int;
            let rem = code - pow2(z);
            assert(pow2(z) == p * (2 * q)) by {
                assert(pow2(m) == 2 * q);
            }
            vstd::arithmetic::div_mod::lemma_hoist_over_denominator(rem, 2 * q, p as nat);
            assert(code as int == rem + (2 * q) * p) by (nonlinear_arith)
                requires
                    pow2(z) == p * (2 * q),
                    rem == code - pow2(z),
            ;
            assert((rem + (2 * q) * p) / p == rem / p + 2 * q);
            assert((rem / p + 2 * q) % 2 == (rem / p) % 2) by (nonlinear_arith);
            assert(low[i] == digits[i + 1]);
        }
    }
    lemma_binary((code - pow2(z)) as nat, z);
    assert(bits.skip((2 * z + 1) as int) =~= rest);
}

/// A signed Exp-Golomb code is read back.
pub broadcast proof fn law_se_is_read_back(value: i32, rest: Seq<bool>)
    requires
        se_codes(value),
    ensures
        #[trigger] cursor(put_se(value, rest)).se() == (value, cursor(rest)),
{
    reveal(put_se);
    let code: u32 = if value > 0 {
        (2 * value - 1) as u32
    } else {
        (-2 * value) as u32
    };
    law_ue_is_read_back(code, rest);
}

/// What is written is read back.
pub broadcast group group_read_back {
    law_u_is_read_back,
    law_flag_is_read_back,
    law_ue_is_read_back,
    law_se_is_read_back,
}

/// The bits of a byte denote it, the most significant first.
pub proof fn law_bits_denote_their_byte(byte: u8)
    ensures
        byte_bits(byte).len() == 8,
        uint(byte_bits(byte)) == byte,
{
    let bits = byte_bits(byte);
    reveal_with_fuel(uint, 9);
    let b6 = bits.drop_last();
    let b5 = b6.drop_last();
    let b4 = b5.drop_last();
    let b3 = b4.drop_last();
    let b2 = b3.drop_last();
    let b1 = b2.drop_last();
    let b0 = b1.drop_last();
    assert(b0.drop_last() =~= Seq::empty());
    let (d0, d1, d2, d3) = (
        (byte >> 7u8) & 1,
        (byte >> 6u8) & 1,
        (byte >> 5u8) & 1,
        (byte >> 4u8) & 1,
    );
    let (d4, d5, d6, d7) = (
        (byte >> 3u8) & 1,
        (byte >> 2u8) & 1,
        (byte >> 1u8) & 1,
        (byte >> 0u8) & 1,
    );
    assert(bits[0] == (d0 == 1) && bits[1] == (d1 == 1) && bits[2] == (d2 == 1) && bits[3] == (d3
        == 1) && bits[4] == (d4 == 1) && bits[5] == (d5 == 1) && bits[6] == (d6 == 1) && bits[7]
        == (d7 == 1));
    assert(d0 <= 1 && d1 <= 1 && d2 <= 1 && d3 <= 1 && d4 <= 1 && d5 <= 1 && d6 <= 1 && d7 <= 1
        && byte == 128 * d0 + 64 * d1 + 32 * d2 + 16 * d3 + 8 * d4 + 4 * d5 + 2 * d6 + d7)
        by (bit_vector)
        requires
            d0 == (byte >> 7u8) & 1,
            d1 == (byte >> 6u8) & 1,
            d2 == (byte >> 5u8) & 1,
            d3 == (byte >> 4u8) & 1,
            d4 == (byte >> 3u8) & 1,
            d5 == (byte >> 2u8) & 1,
            d6 == (byte >> 1u8) & 1,
            d7 == (byte >> 0u8) & 1,
    ;
}

/// The bits of bytes are those of each of them, one byte behind the other.
pub proof fn law_bytes_come_one_by_one(bytes: Seq<u8>, k: int)
    requires
        0 <= k < bytes.len(),
    ensures
        bits_of(bytes).len() == 8 * bytes.len(),
        uint(bits_of(bytes).subrange(8 * k, 8 * k + 8)) == bytes[k],
    decreases bytes.len(),
{
    let all = bits_of(bytes);
    let rest = bits_of(bytes.skip(1));
    lemma_bits_len(bytes);
    lemma_bits_len(bytes.skip(1));
    if k == 0 {
        assert(all.subrange(0, 8) =~= byte_bits(bytes[0]));
        law_bits_denote_their_byte(bytes[0]);
    } else {
        law_bytes_come_one_by_one(bytes.skip(1), k - 1);
        assert(all.subrange(8 * k, 8 * k + 8) =~= rest.subrange(8 * (k - 1), 8 * (k - 1) + 8));
    }
}

proof fn lemma_bits_len(bytes: Seq<u8>)
    ensures
        bits_of(bytes).len() == 8 * bytes.len(),
    decreases bytes.len(),
{
    if bytes.len() > 0 {
        lemma_bits_len(bytes.skip(1));
    }
}

/// The encapsulated form of payload bytes, `zeros` zero bytes in a row preceding
/// them: where two zero bytes would be followed by a byte up to `0x03`, a `0x03` is
/// put in between, so that no start code can occur.
pub open spec fn escaped(data: Seq<u8>, zeros: nat) -> Seq<u8>
    decreases data.len(),
{
    if data.len() == 0 {
        Seq::empty()
    } else if zeros >= 2 && data[0] <= 3 {
        seq![3u8, data[0]] + escaped(
            data.skip(1),
            if data[0] == 0 {
                1
            } else {
                0
            },
        )
    } else {
        seq![data[0]] + escaped(
            data.skip(1),
            if data[0] == 0 {
                zeros + 1
            } else {
                0
            },
        )
    }
}

/// Emulation prevention is undone: the payload of an encapsulated NAL unit is what
/// was encapsulated.
pub proof fn law_escaping_is_undone(data: Seq<u8>, zeros: nat)
    ensures
        unescape(escaped(data, zeros), zeros) == data,
    decreases data.len(),
{
    if data.len() == 0 {
        assert(unescape(escaped(data, zeros), zeros) =~= data);
    } else {
        let first = data[0];
        let rest = data.skip(1);
        let out = escaped(data, zeros);
        if zeros >= 2 && first <= 3 {
            let after: nat = if first == 0 {
                1
            } else {
                0
            };
            let tail = escaped(rest, after);
            law_escaping_is_undone(rest, after);
            assert(out.skip(1) =~= seq![first] + tail);
            assert(out.skip(1).skip(1) =~= tail);
            assert(out[0] == 3);
            assert(unescape(out, zeros) == unescape(out.skip(1), 0));
            assert(out.skip(1)[0] == first);
            assert(unescape(out.skip(1), 0) == seq![first] + unescape(tail, after));
        } else {
            let after: nat = if first == 0 {
                zeros + 1
            } else {
                0
            };
            let tail = escaped(rest, after);
            law_escaping_is_undone(rest, after);
            assert(out.skip(1) =~= tail);
            assert(out[0] == first);
        }
        assert(seq![first] + rest =~= data);
    }
}

/// Reading a number needs its bits and no more: it fails exactly where fewer are
/// left, and whatever stands behind them stays unread.
pub proof fn law_u_takes_its_bits(bits: Seq<bool>, more: Seq<bool>, n: nat)
    ensures
        cursor(bits).u(n).1.error is Some <==> bits.len() < n,
        cursor(bits).u(n).1.error matches Some(error) ==> error == PixelForgeError::InvalidInput(
            InvalidInput::EndOfNalUnit,
        ),
        bits.len() >= n ==> cursor(bits + more).u(n) == (cursor(bits).u(n).0, cursor(
            cursor(bits).u(n).1.rest + more,
        )),
        bits.len() >= n ==> cursor(bits).u(n).1.rest == bits.skip(n as int),
{
    if bits.len() >= n {
        assert((bits + more).take(n as int) =~= bits.take(n as int));
        assert((bits + more).skip(n as int) =~= bits.skip(n as int) + more);
    }
}

/// An Exp-Golomb code that starts with too many zeros is refused, and one that ends
/// early is too.
pub proof fn law_broken_codes_are_refused(bits: Seq<bool>)
    ensures
        leading_zeros(bits) >= 32 ==> cursor(bits).ue().1.error == Some(
            PixelForgeError::InvalidInput(InvalidInput::ExpGolomb),
        ),
        leading_zeros(bits) < 32 && bits.len() < 2 * leading_zeros(bits) + 1 ==> cursor(
            bits,
        ).ue().1.error == Some(PixelForgeError::InvalidInput(InvalidInput::EndOfNalUnit)),
        leading_zeros(bits) < 32 && bits.len() >= 2 * leading_zeros(bits) + 1 ==> cursor(
            bits,
        ).ue().1.error is None && cursor(bits).ue().1.rest.len() == bits.len() - 2
            * leading_zeros(bits) - 1,
{
}

/// The first error is the one that is reported: once there is one, reading changes
/// nothing.
pub proof fn law_first_error_stays(c: Cursor, n: nat, error: InvalidInput)
    requires
        c.error is Some,
    ensures
        c.u(n).1 == c,
        c.flag().1 == c,
        c.ue().1 == c,
        c.se().1 == c,
        c.fail(error) == c,
{
}

} // verus!
