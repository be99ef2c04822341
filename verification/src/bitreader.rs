//! A bit-level cursor over an immutable byte buffer.
//!
//! Bits are counted from the most-significant bit of byte 0; all reads are
//! big-endian, most-significant-bit first. On top of the primitive reads sit
//! the Exp-Golomb decoders `read_ue` and `read_se`.

use vstd::arithmetic::div_mod::lemma_fundamental_div_mod;
use vstd::arithmetic::power2::lemma2_to64;
use vstd::arithmetic::power2::lemma_pow2_adds;
use vstd::arithmetic::power2::pow2;
use vstd::bits::lemma_u32_shl_is_mul;
use vstd::prelude::*;

use crate::error::BitstreamError;

verus! {

/// The bit of `s` at absolute position `i`, counting from the
/// most-significant bit of byte 0: either 0 or 1.
pub open spec fn bit_at(s: Seq<u8>, i: nat) -> u8 {
    (s[(i / 8) as int] >> ((7 - i % 8) as u8)) & 1
}

/// The unsigned value of the `n` bits of `s` starting at position `p`,
/// most-significant bit first.
pub open spec fn bits_value(s: Seq<u8>, p: nat, n: nat) -> nat
    decreases n,
{
    if n == 0 {
        0
    } else {
        (bits_value(s, p, (n - 1) as nat) * 2 + bit_at(s, (p + n - 1) as nat)) as nat
    }
}

/// How many consecutive 0 bits stand at position `p` of `s` before a 1 bit
/// or the end of the buffer.
pub open spec fn zero_run(s: Seq<u8>, p: nat) -> nat
    decreases 8 * s.len() - p,
{
    if p >= 8 * s.len() {
        0
    } else if bit_at(s, p) != 0 {
        0
    } else {
        1 + zero_run(s, p + 1)
    }
}

/// Whether an Exp-Golomb codeword can be decoded at position `p`: the
/// leading-zero run stays within the defensive cap of 31 and the whole
/// codeword (run, 1 bit, suffix) lies inside the buffer.
pub open spec fn ue_ok(s: Seq<u8>, p: nat) -> bool {
    let k = zero_run(s, p);
    k <= 31 && p + 2 * k + 1 <= 8 * s.len()
}

/// The value of the Exp-Golomb codeword at position `p`:
/// `2^k - 1 + suffix` for a leading-zero run of `k`.
pub open spec fn ue_value(s: Seq<u8>, p: nat) -> nat {
    let k = zero_run(s, p);
    (pow2(k) - 1 + bits_value(s, (p + k + 1) as nat, k)) as nat
}

/// The position one past the Exp-Golomb codeword at position `p`.
pub open spec fn ue_end(s: Seq<u8>, p: nat) -> nat {
    (p + 2 * zero_run(s, p) + 1) as nat
}

/// The signed remapping of an unsigned Exp-Golomb value:
/// 0, 1, 2, 3, 4, ... become 0, 1, -1, 2, -2, ...
pub open spec fn se_map(v: nat) -> int {
    if v % 2 == 0 {
        -((v / 2) as int)
    } else {
        ((v + 1) / 2) as int
    }
}

/// A single bit read as a value is the bit itself.
proof fn lemma_bits_value_one(s: Seq<u8>, q: nat)
    ensures
        bits_value(s, q, 1) == bit_at(s, q),
{
    reveal_with_fuel(bits_value, 2);
}

/// A bit of a buffer is 0 or 1.
proof fn lemma_bit_at_le_1(s: Seq<u8>, i: nat)
    ensures
        bit_at(s, i) <= 1,
{
    let byte = s[(i / 8) as int];
    let sh = (7 - i % 8) as u8;
    assert((byte >> sh) & 1 <= 1) by (bit_vector);
}

/// `n` bits hold a value below `2^n`.
pub proof fn lemma_bits_value_bound(s: Seq<u8>, p: nat, n: nat)
    ensures
        bits_value(s, p, n) < pow2(n),
    decreases n,
{
    if n == 0 {
        lemma2_to64();
    } else {
        lemma_bits_value_bound(s, p, (n - 1) as nat);
        lemma_bit_at_le_1(s, (p + n - 1) as nat);
        lemma_pow2_adds((n - 1) as nat, 1);
        lemma2_to64();
    }
}

/// A decodable Exp-Golomb value fits in 32 bits with room for the signed
/// remapping: it is at most `2^32 - 2`.
pub proof fn lemma_ue_value_bound(s: Seq<u8>, p: nat)
    requires
        zero_run(s, p) <= 31,
    ensures
        ue_value(s, p) <= 0xFFFF_FFFE,
{
    let k = zero_run(s, p);
    lemma_bits_value_bound(s, (p + k + 1) as nat, k);
    assert(pow2(k) <= pow2(31)) by {
        if k < 31 {
            vstd::arithmetic::power2::lemma_pow2_strictly_increases(k, 31);
        }
    }
    lemma2_to64();
}

/// A positionable bit-level reader over a borrowed byte buffer.
#[derive(Clone)]
pub struct BitReader<'input> {
    /// Source data to read bits from.
    pub byte_buf: &'input [u8],
    /// The current byte in the slice.
    pub byte_index: usize,
    /// The current bit within the byte, counting down from 7 (the
    /// most-significant bit) to 0.
    pub bit_offset: u8,
}

impl<'input> BitReader<'input> {
    /// The number of bits in the whole buffer.
    pub open spec fn total_bits(self) -> nat {
        8 * self.byte_buf@.len()
    }

    /// The absolute bit position of the cursor, from the start of the buffer.
    pub open spec fn pos(self) -> nat {
        (self.byte_index * 8 + 7 - self.bit_offset) as nat
    }

    /// The cursor invariant: the bit offset stays within a byte, the position
    /// never leaves the buffer, and the buffer's bit count fits the machine.
    pub open spec fn wf(self) -> bool {
        &&& self.bit_offset <= 7
        &&& self.pos() <= self.total_bits()
        &&& self.total_bits() <= usize::MAX
    }

    /// A cursor standing on the most-significant bit of byte 0.
    pub fn from_bytes(data: &'input [u8]) -> (r: BitReader<'input>)
        requires
            8 * data@.len() <= usize::MAX,
        ensures
            r.wf(),
            r.byte_buf@ == data@,
            r.pos() == 0,
    {
        BitReader { byte_buf: data, byte_index: 0, bit_offset: 7 }
    }

    /// The absolute bit offset from the start of the buffer; used as a
    /// save/restore point by higher layers.
    pub fn position(&self) -> (r: usize)
        requires
            self.wf(),
        ensures
            r == self.pos(),
    {
        self.byte_index * 8 + (7 - self.bit_offset) as usize
    }

    /// Reads the next `n` bits as an unsigned integer without moving the
    /// cursor; fails with `OutOfBounds`, and exactly then, if fewer than `n`
    /// bits remain.
    #[verifier::loop_isolation(false)]
    pub fn peek(&self, n: usize) -> (r: Result<u32, BitstreamError>)
        requires
            self.wf(),
            n <= 32,
        ensures
            match r {
                Ok(v) => self.pos() + n <= self.total_bits() && v == bits_value(
                    self.byte_buf@,
                    self.pos(),
                    n as nat,
                ),
                Err(e) => e == BitstreamError::OutOfBounds && self.pos() + n > self.total_bits(),
            },
    {
        let total: usize = 8 * self.byte_buf.len();
        let start: usize = self.position();
        if total - start < n {
            return Err(BitstreamError::OutOfBounds);
        }

        proof {
            lemma2_to64();
        }
        let mut i: usize = 0;
        let mut acc: u32 = 0;
        while i < n
            invariant
                self.wf(),
                n <= 32,
                i <= n,
                start == self.pos(),
                start + n <= self.total_bits(),
                acc == bits_value(self.byte_buf@, start as nat, i as nat),
                acc < pow2(i as nat),
            decreases n - i,
        {
            let bp: usize = start + i;
            proof {
                lemma_fundamental_div_mod(bp as int, 8);
            }
            let idx: usize = bp / 8;
            let rem: usize = bp % 8;
            let byte: u8 = self.byte_buf[idx];
            let shift: u8 = (7 - rem) as u8;
            let b: u8 = (byte >> shift) & 1;
            proof {
                assert(b == bit_at(self.byte_buf@, bp as nat));
                lemma_bit_at_le_1(self.byte_buf@, bp as nat);
                lemma_pow2_adds(i as nat, 1);
                lemma2_to64();
            }
            acc = acc * 2 + (b as u32);
            i = i + 1;
        }
        Ok(acc)
    }

    /// Moves the cursor forward by `n` bits; fails with `OutOfBounds`, and
    /// exactly then, if fewer than `n` bits remain, leaving the cursor where
    /// it was.
    fn advance(&mut self, n: usize) -> (r: Result<(), BitstreamError>)
        requires
            old(self).wf(),
        ensures
            final(self).wf(),
            final(self).byte_buf@ == old(self).byte_buf@,
            match r {
                Ok(()) => old(self).pos() + n <= old(self).total_bits() && final(self).pos()
                    == old(self).pos() + n,
                Err(e) => {
                    &&& e == BitstreamError::OutOfBounds
                    &&& old(self).pos() + n > old(self).total_bits()
                    &&& final(self).pos() == old(self).pos()
                },
            },
    {
        let total: usize = 8 * self.byte_buf.len();
        let pos: usize = self.position();
        if n > total - pos {
            return Err(BitstreamError::OutOfBounds);
        }
        let newpos: usize = pos + n;
        proof {
            lemma_fundamental_div_mod(newpos as int, 8);
        }
        self.byte_index = newpos / 8;
        self.bit_offset = (7 - (newpos % 8)) as u8;
        Ok(())
    }

    /// Reads the next `n` bits (`n <= 32`) as an unsigned integer,
    /// most-significant bit first, and advances the cursor by `n`; fails with
    /// `OutOfBounds`, and exactly then, if fewer than `n` bits remain, leaving
    /// the cursor where it was.
    pub fn read(&mut self, n: usize) -> (r: Result<u32, BitstreamError>)
        requires
            old(self).wf(),
            n <= 32,
        ensures
            final(self).wf(),
            final(self).byte_buf@ == old(self).byte_buf@,
            match r {
                Ok(v) => {
                    &&& old(self).pos() + n <= old(self).total_bits()
                    &&& v == bits_value(old(self).byte_buf@, old(self).pos(), n as nat)
                    &&& final(self).pos() == old(self).pos() + n
                },
                Err(e) => {
                    &&& e == BitstreamError::OutOfBounds
                    &&& old(self).pos() + n > old(self).total_bits()
                    &&& final(self).pos() == old(self).pos()
                },
            },
    {
        let val = match self.peek(n) {
            Ok(v) => v,
            Err(e) => {
                return Err(e);
            },
        };
        match self.advance(n) {
            Ok(()) => Ok(val),
            Err(e) => Err(e),
        }
    }

    /// Moves the cursor backward by `n` bits; fails with `OutOfBounds`, and
    /// exactly then, if `n` exceeds the number of bits already consumed,
    /// leaving the cursor where it was.
    pub fn rewind(&mut self, n: usize) -> (r: Result<(), BitstreamError>)
        requires
            old(self).wf(),
        ensures
            final(self).wf(),
            final(self).byte_buf@ == old(self).byte_buf@,
            match r {
                Ok(()) => n <= old(self).pos() && final(self).pos() == old(self).pos() - n,
                Err(e) => {
                    &&& e == BitstreamError::OutOfBounds
                    &&& n > old(self).pos()
                    &&& final(self).pos() == old(self).pos()
                },
            },
    {
        let prior_bits: usize = self.position();
        if prior_bits < n {
            return Err(BitstreamError::OutOfBounds);
        }
        let newpos: usize = prior_bits - n;
        proof {
            lemma_fundamental_div_mod(newpos as int, 8);
        }
        self.byte_index = newpos / 8;
        self.bit_offset = (7 - (newpos % 8)) as u8;
        Ok(())
    }

    /// Decodes an unsigned Exp-Golomb codeword: counts leading zero bits up
    /// to a defensive cap of 31 (`CodeOverflow` beyond it), then reads the
    /// suffix and returns `2^k - 1 + suffix`. Succeeds exactly when the whole
    /// codeword lies inside the buffer and the run stays within the cap.
    #[verifier::loop_isolation(false)]
    pub fn read_ue(&mut self) -> (r: Result<u32, BitstreamError>)
        requires
            old(self).wf(),
        ensures
            final(self).wf(),
            final(self).byte_buf@ == old(self).byte_buf@,
            match r {
                Ok(v) => {
                    &&& ue_ok(old(self).byte_buf@, old(self).pos())
                    &&& v == ue_value(old(self).byte_buf@, old(self).pos())
                    &&& final(self).pos() == ue_end(old(self).byte_buf@, old(self).pos())
                },
                Err(e) => {
                    &&& (e == BitstreamError::CodeOverflow || e == BitstreamError::OutOfBounds)
                    &&& (e == BitstreamError::CodeOverflow ==> zero_run(
                        old(self).byte_buf@,
                        old(self).pos(),
                    ) >= 32)
                    &&& (e == BitstreamError::OutOfBounds ==> zero_run(
                        old(self).byte_buf@,
                        old(self).pos(),
                    ) <= 31 && !ue_ok(old(self).byte_buf@, old(self).pos()))
                },
            },
    {
        let ghost s = self.byte_buf@;
        let ghost p = self.pos();
        let mut k: u32 = 0;

        // count the leading zero bits; `b` is the last bit read, at p + k
        let mut b = match self.read(1) {
            Ok(v) => v,
            Err(e) => {
                return Err(e);
            },
        };
        while b == 0
            invariant
                self.wf(),
                self.byte_buf@ == s,
                k <= 31,
                self.pos() == p + k + 1,
                zero_run(s, p) == k + zero_run(s, (p + k) as nat),
                b == bits_value(s, (p + k) as nat, 1),
            decreases 8 * s.len() - self.pos(),
        {
            proof {
                lemma_bits_value_one(s, (p + k) as nat);
                assert(zero_run(s, (p + k) as nat) == 1 + zero_run(s, (p + k + 1) as nat));
            }
            if k >= 31 {
                // a 32nd leading zero exceeds the defensive cap
                return Err(BitstreamError::CodeOverflow);
            }
            k = k + 1;
            b = match self.read(1) {
                Ok(v) => v,
                Err(e) => {
                    return Err(e);
                },
            };
        }
        proof {
            lemma_bits_value_one(s, (p + k) as nat);
            assert(zero_run(s, (p + k) as nat) == 0);
            assert(zero_run(s, p) == k);
        }

        if k == 0 {
            proof {
                lemma2_to64();
            }
            return Ok(0);
        }

        let suffix = match self.read(k as usize) {
            Ok(v) => v,
            Err(e) => {
                return Err(e);
            },
        };
        proof {
            lemma_bits_value_bound(s, (p + k + 1) as nat, k as nat);
            lemma2_to64();
            assert(pow2(k as nat) <= pow2(31)) by {
                lemma2_to64();
                if (k as nat) < 31 {
                    vstd::arithmetic::power2::lemma_pow2_strictly_increases(k as nat, 31);
                }
            }
            lemma_u32_shl_is_mul(1u32, k);
        }
        Ok((1u32 << k) - 1 + suffix)
    }

    /// Decodes a signed Exp-Golomb codeword: the unsigned value `v` of
    /// `read_ue` is remapped to `-(v/2)` when even and `(v+1)/2` when odd,
    /// giving 0, 1, -1, 2, -2, ... The cursor and the failure conditions are
    /// those of `read_ue`.
    pub fn read_se(&mut self) -> (r: Result<i32, BitstreamError>)
        requires
            old(self).wf(),
        ensures
            final(self).wf(),
            final(self).byte_buf@ == old(self).byte_buf@,
            match r {
                Ok(v) => {
                    &&& ue_ok(old(self).byte_buf@, old(self).pos())
                    &&& v == se_map(ue_value(old(self).byte_buf@, old(self).pos()))
                    &&& final(self).pos() == ue_end(old(self).byte_buf@, old(self).pos())
                },
                Err(e) => {
                    &&& (e == BitstreamError::CodeOverflow || e == BitstreamError::OutOfBounds)
                    &&& (e == BitstreamError::CodeOverflow ==> zero_run(
                        old(self).byte_buf@,
                        old(self).pos(),
                    ) >= 32)
                    &&& (e == BitstreamError::OutOfBounds ==> zero_run(
                        old(self).byte_buf@,
                        old(self).pos(),
                    ) <= 31 && !ue_ok(old(self).byte_buf@, old(self).pos()))
                },
            },
    {
        let ghost s = self.byte_buf@;
        let ghost p = self.pos();
        let ue_val = match self.read_ue() {
            Ok(v) => v,
            Err(e) => {
                return Err(e);
            },
        };
        proof {
            lemma_ue_value_bound(s, p);
        }
        if ue_val % 2 == 0 {
            Ok(-((ue_val / 2) as i32))
        } else {
            Ok(((ue_val + 1) / 2) as i32)
        }
    }
}

/// Round trip: after a successful `read(n)` takes a cursor from `r0` to `r1`,
/// a successful `rewind(n)` takes it to a cursor `r2` standing exactly where
/// `r0` stood, and a second `read(n)` there returns the value the first read
/// returned, because a read is a function of the buffer and the position
/// alone. The hypotheses are the postconditions of `read` and `rewind`.
pub proof fn lemma_read_rewind_round_trip<'a>(
    r0: BitReader<'a>,
    r1: BitReader<'a>,
    r2: BitReader<'a>,
    n: usize,
    v1: u32,
    v2: u32,
)
    requires
        // r1 is r0 after a successful read(n) that returned v1
        r1.byte_buf@ == r0.byte_buf@,
        v1 == bits_value(r0.byte_buf@, r0.pos(), n as nat),
        r1.pos() == r0.pos() + n,
        // r2 is r1 after a successful rewind(n)
        r2.byte_buf@ == r1.byte_buf@,
        n <= r1.pos(),
        r2.pos() == r1.pos() - n,
        // v2 is what a read(n) at r2 returns
        v2 == bits_value(r2.byte_buf@, r2.pos(), n as nat),
    ensures
        r2.pos() == r0.pos(),
        v2 == v1,
{
}

/// Peek non-mutation: `peek(n)` borrows the cursor immutably, so the position
/// cannot change; a `read(n)` immediately after starts from the same position
/// and therefore returns exactly the value the peek returned. The hypotheses
/// are the postconditions of `peek` and `read` on one cursor `r0`.
pub proof fn lemma_peek_then_read_agree<'a>(
    r0: BitReader<'a>,
    r1: BitReader<'a>,
    n: usize,
    peeked: u32,
    got: u32,
)
    requires
        // peeked is what peek(n) returned on r0
        peeked == bits_value(r0.byte_buf@, r0.pos(), n as nat),
        // r1 is r0 after a successful read(n) that returned got
        r1.byte_buf@ == r0.byte_buf@,
        got == bits_value(r0.byte_buf@, r0.pos(), n as nat),
        r1.pos() == r0.pos() + n,
    ensures
        peeked == got,
{
}

} // verus!
