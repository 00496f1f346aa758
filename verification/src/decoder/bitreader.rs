//! A bit reader for parsing codec bitstream syntax (Exp-Golomb, fixed-width).
//!
//! Operates on the *encapsulated* byte payload (EBSP) of a NAL unit and strips
//! `0x03` emulation-prevention bytes on the fly, so callers can hand it a raw
//! NAL payload without first converting to RBSP.

use crate::error::{InvalidInput, PixelForgeError};
use vstd::arithmetic::power2::pow2;
use vstd::prelude::*;

verus! {

/// The payload bytes (RBSP) that the encapsulated bytes `data` stand for, when
/// `zeros` zero bytes in a row precede `data`: a `0x03` after two zero bytes is
/// dropped.
pub open spec fn unescape(data: Seq<u8>, zeros: nat) -> Seq<u8>
    decreases data.len(),
{
    if data.len() == 0 {
        Seq::empty()
    } else if zeros >= 2 && data[0] == 0x03 {
        unescape(data.skip(1), 0)
    } else {
        seq![data[0]] + unescape(data.skip(1), if data[0] == 0 { zeros + 1 } else { 0 })
    }
}

/// Bit `i` of a byte, counted from the most significant one.
pub open spec fn bit_at(byte: u8, i: int) -> bool {
    (byte >> ((7 - i) as u8)) & 1 == 1
}

/// The eight bits of a byte, most significant first.
pub open spec fn byte_bits(byte: u8) -> Seq<bool> {
    Seq::new(8, |i: int| bit_at(byte, i))
}

/// The bits of a byte sequence, most significant bit of each byte first.
pub open spec fn bits_of(bytes: Seq<u8>) -> Seq<bool>
    decreases bytes.len(),
{
    if bytes.len() == 0 {
        Seq::empty()
    } else {
        byte_bits(bytes[0]) + bits_of(bytes.skip(1))
    }
}

/// The payload bits of a NAL unit whose encapsulated payload is `data`.
pub open spec fn payload_bits(data: Seq<u8>) -> Seq<bool> {
    bits_of(unescape(data, 0))
}

/// The number that a bit string denotes, most significant bit first.
pub open spec fn uint(bits: Seq<bool>) -> nat
    decreases bits.len(),
{
    if bits.len() == 0 {
        0
    } else {
        2 * uint(bits.drop_last()) + if bits.last() { 1nat } else { 0nat }
    }
}

/// The number of `false` bits before the first `true` one.
pub open spec fn leading_zeros(bits: Seq<bool>) -> nat
    decreases bits.len(),
{
    if bits.len() == 0 || bits[0] {
        0
    } else {
        1 + leading_zeros(bits.skip(1))
    }
}

/// A place in the syntax of a NAL unit: the bits still unread, and the first
/// error met on the way here. Once there is an error, reading changes nothing.
pub struct Cursor {
    pub rest: Seq<bool>,
    pub error: Option<PixelForgeError>,
}

/// The cursor at the head of `rest`, with no error so far.
pub open spec fn cursor(rest: Seq<bool>) -> Cursor {
    Cursor { rest, error: None }
}

impl Cursor {
    /// This place, with `error` met if none was met before.
    pub open spec fn fail(self, error: InvalidInput) -> Cursor {
        if self.error is Some {
            self
        } else {
            Cursor { rest: self.rest, error: Some(PixelForgeError::InvalidInput(error)) }
        }
    }

    /// `u(n)`: the next `n` bits as a number, of which the low 32 bits are kept.
    pub open spec fn u(self, n: nat) -> (u32, Cursor) {
        if self.error is Some {
            (0, self)
        } else if self.rest.len() < n {
            (0, cursor(Seq::empty()).fail(InvalidInput::EndOfNalUnit))
        } else {
            (
                (uint(self.rest.take(n as int)) % 0x1_0000_0000) as u32,
                cursor(self.rest.skip(n as int)),
            )
        }
    }

    /// `u(1)` as a boolean.
    pub open spec fn flag(self) -> (bool, Cursor) {
        let (bit, next) = self.u(1);
        (bit != 0, next)
    }

    /// `ue(v)`: an unsigned Exp-Golomb code, `z` zeros, a one and `z` more bits.
    pub open spec fn ue(self) -> (u32, Cursor) {
        let z = leading_zeros(self.rest) as int;
        if self.error is Some {
            (0, self)
        } else if z >= 32 {
            (0, cursor(self.rest.skip(32)).fail(InvalidInput::ExpGolomb))
        } else if self.rest.len() < 2 * z + 1 {
            (0, cursor(Seq::empty()).fail(InvalidInput::EndOfNalUnit))
        } else {
            (
                (pow2(z as nat) - 1 + uint(self.rest.subrange(z + 1, 2 * z + 1))) as u32,
                cursor(self.rest.skip(2 * z + 1)),
            )
        }
    }

    /// `se(v)`: a signed Exp-Golomb code. The codes 0, 1, 2, 3, 4 stand for
    /// 0, 1, -1, 2, -2 and so on.
    pub open spec fn se(self) -> (i32, Cursor) {
        let (code, next) = self.ue();
        (signed_code(code), next)
    }
}

/// The value of `se(v)` for the unsigned code `code`.
pub open spec fn signed_code(code: u32) -> i32 {
    if code % 2 == 0 {
        -(code as int / 2) as i32
    } else {
        ((code as int + 1) / 2) as i32
    }
}

/// Whether a read that returned `result` and left the bits `after` unread did
/// what the syntax says, `want` being the value and the place after it.
pub open spec fn reads<T>(
    result: Result<T, PixelForgeError>,
    after: Seq<bool>,
    want: (T, Cursor),
) -> bool {
    &&& after == want.1.rest
    &&& match result {
        Ok(value) => want.1.error is None && value == want.0,
        Err(error) => want.1.error == Some(error),
    }
}

proof fn lemma_bits_of_cons(byte: u8, rest: Seq<u8>)
    ensures
        bits_of(seq![byte] + rest) == byte_bits(byte) + bits_of(rest),
{
    assert((seq![byte] + rest).skip(1) =~= rest);
}

proof fn lemma_uint_single(bits: Seq<bool>)
    requires
        bits.len() > 0,
    ensures
        uint(bits.take(1)) == if bits[0] { 1nat } else { 0nat },
{
    assert(bits.take(1).drop_last() =~= Seq::empty());
    assert(uint(bits.take(1).drop_last()) == 0);
}

proof fn lemma_unescape_capped(data: Seq<u8>, zeros: nat)
    requires
        zeros >= 2,
    ensures
        unescape(data, zeros) == unescape(data, 2),
    decreases data.len(),
{
    if data.len() > 0 && data[0] == 0 {
        lemma_unescape_capped(data.skip(1), zeros + 1);
        lemma_unescape_capped(data.skip(1), 3);
    }
}

/// A bit string of length `n` denotes a number below two to the `n`.
pub proof fn lemma_uint_bound(bits: Seq<bool>)
    ensures
        uint(bits) < pow2(bits.len()),
    decreases bits.len(),
{
    if bits.len() == 0 {
        vstd::arithmetic::power2::lemma2_to64();
    } else {
        lemma_uint_bound(bits.drop_last());
        vstd::arithmetic::power2::lemma_pow2_unfold(bits.len());
    }
}

proof fn lemma_leading_zeros(bits: Seq<bool>, n: nat)
    requires
        n <= bits.len(),
        forall|i: int| 0 <= i < n ==> !bits[i],
    ensures
        leading_zeros(bits) == n + leading_zeros(bits.skip(n as int)),
    decreases n,
{
    if n == 0 {
        assert(bits.skip(0) =~= bits);
    } else {
        lemma_leading_zeros(bits.skip(1), (n - 1) as nat);
        assert(bits.skip(1).skip(n - 1) =~= bits.skip(n as int));
    }
}

/// Reads bits MSB-first from a NAL payload, skipping emulation-prevention bytes.
///
/// Its view is the sequence of payload bits that are still to be read.
pub struct BitReader<'a> {
    data: &'a [u8],
    /// Index of the next byte to load.
    byte_pos: usize,
    /// Bit offset (0..8) within the current byte.
    bit_pos: u32,
    /// Number of consecutive zero bytes seen, counted up to two (for emulation
    /// prevention).
    zero_run: u32,
}

impl<'a> View for BitReader<'a> {
    type V = Seq<bool>;

    closed spec fn view(&self) -> Seq<bool> {
        if self.bit_pos == 0 {
            bits_of(unescape(self.data@.skip(self.byte_pos as int), self.zero_run as nat))
        } else {
            byte_bits(self.data@[self.byte_pos as int]).skip(self.bit_pos as int) + bits_of(
                unescape(self.data@.skip(self.byte_pos + 1), self.zero_run as nat),
            )
        }
    }
}

impl<'a> BitReader<'a> {
    #[verifier::type_invariant]
    spec fn in_range(self) -> bool {
        &&& self.byte_pos <= self.data@.len()
        &&& self.bit_pos < 8
        &&& self.bit_pos > 0 ==> self.byte_pos < self.data@.len()
        &&& self.zero_run <= 2
    }

    /// A reader at the first payload bit of `data`.
    pub fn new(data: &'a [u8]) -> (reader: Self)
        ensures
            reader@ == payload_bits(data@),
    {
        assert(data@.skip(0) =~= data@);
        Self { data, byte_pos: 0, bit_pos: 0, zero_run: 0 }
    }

    /// Read a single bit.
    pub fn bit(&mut self) -> (result: Result<u32, PixelForgeError>)
        ensures
            reads(result, final(self)@, cursor(old(self)@).u(1)),
            result matches Ok(bit) ==> bit <= 1 && old(self)@.len() > 0 && (bit == 1) == old(
                self,
            )@[0] && final(self)@ == old(self)@.skip(1),
            result is Err ==> old(self)@.len() == 0 && final(self)@ == old(self)@,
    {
        proof { use_type_invariant(&*self); }
        if self.bit_pos == 0 {
            // About to start a new byte: skip an emulation prevention byte
            // (0x03 after two zero bytes).
            if self.zero_run >= 2 && self.byte_pos < self.data.len() && self.data[self.byte_pos]
                == 0x03 {
                assert(self.data@.skip(self.byte_pos as int).skip(1) =~= self.data@.skip(
                    self.byte_pos + 1,
                ));
                self.byte_pos = self.byte_pos + 1;
                self.zero_run = 0;
            }
            assert(self@ == old(self)@);
            proof {
                let rest = self.data@.skip(self.byte_pos as int);
                if rest.len() > 0 {
                    assert(rest.skip(1) =~= self.data@.skip(self.byte_pos + 1));
                    if self.zero_run == 2 {
                        lemma_unescape_capped(rest.skip(1), 3);
                    }
                    lemma_bits_of_cons(
                        rest[0],
                        unescape(
                            rest.skip(1),
                            if rest[0] == 0 { (self.zero_run + 1) as nat } else { 0 },
                        ),
                    );
                }
            }
            if self.byte_pos >= self.data.len() {
                return Err(PixelForgeError::InvalidInput(InvalidInput::EndOfNalUnit));
            }
            if self.data[self.byte_pos] == 0 {
                if self.zero_run < 2 {
                    self.zero_run = self.zero_run + 1;
                }
            } else {
                self.zero_run = 0;
            }
        }
        let byte: u8 = self.data[self.byte_pos];
        let ghost tail = bits_of(unescape(self.data@.skip(self.byte_pos + 1), self.zero_run as nat));
        let ghost pos = self.bit_pos as int;
        assert(old(self)@ =~= byte_bits(byte).skip(pos) + tail);
        let shift: u32 = 7 - self.bit_pos;
        let bit: u8 = (byte >> shift) & 1;
        assert((byte >> shift) & 1 <= 1) by (bit_vector);
        assert(bit_at(byte, pos) == (bit == 1));
        if self.bit_pos == 7 {
            self.bit_pos = 0;
            self.byte_pos = self.byte_pos + 1;
        } else {
            self.bit_pos = self.bit_pos + 1;
        }
        proof {
            assert(byte_bits(byte).skip(8) =~= Seq::empty());
            assert(byte_bits(byte).skip(pos).skip(1) =~= byte_bits(byte).skip(pos + 1));
            assert(old(self)@.skip(1) =~= byte_bits(byte).skip(pos).skip(1) + tail);
            lemma_uint_single(old(self)@);
        }
        Ok(bit as u32)
    }

    /// Read `n` bits (n <= 32) as an unsigned value. `u(n)` in spec notation.
    /// Of a wider field the low 32 bits are returned.
    pub fn bits(&mut self, n: u32) -> (result: Result<u32, PixelForgeError>)
        ensures
            reads(result, final(self)@, cursor(old(self)@).u(n as nat)),
    {
        let ghost all = self@;
        let mut v: u32 = 0;
        let mut i: u32 = 0;
        assert(all.skip(0) =~= all);
        while i < n
            invariant
                i <= n,
                i <= all.len(),
                all == old(self)@,
                self@ == all.skip(i as int),
                v == uint(all.take(i as int)) % 0x1_0000_0000,
            decreases n - i,
        {
            let bit: u32 = match self.bit() {
                Ok(bit) => bit,
                Err(e) => {
                    return Err(e);
                },
            };
            proof {
                assert(all.take(i + 1).drop_last() =~= all.take(i as int));
                assert(all.skip(i as int).skip(1) =~= all.skip(i + 1));
                assert((v << 1) | bit == (2 * v + bit) % 0x1_0000_0000) by (bit_vector)
                    requires
                        bit <= 1,
                ;
                let before = uint(all.take(i as int)) as int;
                assert((2 * (before % 0x1_0000_0000) + bit) % 0x1_0000_0000 == (2 * before + bit)
                    % 0x1_0000_0000);
            }
            v = (v << 1) | bit;
            i = i + 1;
        }
        Ok(v)
    }

    /// Read a boolean flag. `u(1)`.
    pub fn flag(&mut self) -> (result: Result<bool, PixelForgeError>)
        ensures
            reads(result, final(self)@, cursor(old(self)@).flag()),
    {
        match self.bit() {
            Ok(bit) => Ok(bit != 0),
            Err(e) => Err(e),
        }
    }

    /// Read an unsigned Exp-Golomb value. `ue(v)`.
    pub fn ue(&mut self) -> (result: Result<u32, PixelForgeError>)
        ensures
            reads(result, final(self)@, cursor(old(self)@).ue()),
    {
        let ghost all = self@;
        let mut leading: u32 = 0;
        assert(all.skip(0) =~= all);
        loop
            invariant_except_break
                leading <= all.len(),
                self@ == all.skip(leading as int),
            invariant
                leading <= 31,
                all == old(self)@,
                forall|i: int| 0 <= i < leading ==> !all[i],
            ensures
                leading < all.len(),
                all[leading as int],
                self@ == all.skip(leading + 1),
            decreases 32 - leading,
        {
            proof {
                lemma_leading_zeros(all, leading as nat);
            }
            let bit: u32 = match self.bit() {
                Ok(bit) => bit,
                Err(e) => {
                    return Err(e);
                },
            };
            assert(all.skip(leading as int).skip(1) =~= all.skip(leading + 1));
            if bit != 0 {
                break;
            }
            leading = leading + 1;
            if leading > 31 {
                proof {
                    lemma_leading_zeros(all, leading as nat);
                }
                return Err(PixelForgeError::InvalidInput(InvalidInput::ExpGolomb));
            }
        }
        proof {
            lemma_leading_zeros(all, leading as nat);
            vstd::arithmetic::power2::lemma2_to64();
            assert(all.subrange(1, 1) =~= Seq::empty());
        }
        if leading == 0 {
            return Ok(0);
        }
        let suffix: u32 = match self.bits(leading) {
            Ok(suffix) => suffix,
            Err(e) => {
                return Err(e);
            },
        };
        proof {
            let tail = all.subrange(leading + 1, 2 * leading + 1);
            assert(all.skip(leading + 1).take(leading as int) =~= tail);
            assert(all.skip(leading + 1).skip(leading as int) =~= all.skip(2 * leading + 1));
            lemma_uint_bound(tail);
            assert(pow2(leading as nat) <= 0x8000_0000) by {
                vstd::arithmetic::power2::lemma2_to64();
                if leading < 31 {
                    vstd::arithmetic::power2::lemma_pow2_strictly_increases(leading as nat, 31);
                }
            }
            vstd::bits::lemma_u32_shl_is_mul(1, leading);
        }
        Ok((1u32 << leading) - 1 + suffix)
    }

    /// Read a signed Exp-Golomb value. `se(v)`.
    pub fn se(&mut self) -> (result: Result<i32, PixelForgeError>)
        ensures
            reads(result, final(self)@, cursor(old(self)@).se()),
    {
        match self.ue() {
            Ok(code) => {
                // Mapping: 0 -> 0, 1 -> 1, 2 -> -1, 3 -> 2, 4 -> -2, ...
                let value: i32 = (code / 2 + code % 2) as i32;
                if code % 2 == 0 {
                    Ok(-value)
                } else {
                    Ok(value)
                }
            },
            Err(e) => Err(e),
        }
    }
}

} // verus!
