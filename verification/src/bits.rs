//! Bit-aligned reading from a byte buffer.
//!
//! BUFR packs its payload as a flat bit sequence, big-endian throughout:
//! within a byte, bit 0 is the most significant. The reader keeps an
//! absolute bit cursor over an immutable buffer and hands out unsigned
//! integers, booleans, byte runs and raw bit runs of arbitrary width.
//! Reading past the end of the buffer yields an error, never a panic.

use vstd::prelude::*;
use vstd::arithmetic::power2::{pow2, lemma_pow2_unfold, lemma_pow2_strictly_increases, lemma2_to64};
use crate::BufrKitError;

verus! {

/// The bit at absolute bit index `i` of the buffer, MSB-first within
/// each byte: bit 0 of a byte is its most significant bit.
pub open spec fn bit_at(bytes: Seq<u8>, i: int) -> u8 {
    (bytes[i / 8] >> ((7 - (i % 8)) as u8)) & 1
}

/// The unsigned value of the `n` bits starting at absolute bit index
/// `pos`, read MSB-first.
pub open spec fn bits_value(bytes: Seq<u8>, pos: int, n: nat) -> nat
    decreases n,
{
    if n == 0 {
        0
    } else {
        (bits_value(bytes, pos, (n - 1) as nat) * 2 + bit_at(bytes, pos + n - 1)) as nat
    }
}

/// Every bit is 0 or 1.
pub proof fn lemma_bit_at_bound(bytes: Seq<u8>, i: int)
    ensures
        bit_at(bytes, i) <= 1,
{
    let b = bytes[i / 8];
    let sh = (7 - (i % 8)) as u8;
    assert((b >> sh) & 1 <= 1) by (bit_vector);
}

/// An `n`-bit value is below `2^n`.
pub proof fn lemma_bits_value_bound(bytes: Seq<u8>, pos: int, n: nat)
    ensures
        bits_value(bytes, pos, n) < pow2(n),
    decreases n,
{
    if n == 0 {
        assert(pow2(0) == 1) by {
            lemma2_to64();
        }
    } else {
        lemma_bits_value_bound(bytes, pos, (n - 1) as nat);
        lemma_bit_at_bound(bytes, pos + n - 1);
        lemma_pow2_unfold(n);
    }
}

/// Reading a window of all-one bits yields the all-missing pattern
/// `2^n - 1`: the BUFR convention for an absent value.
pub proof fn lemma_bits_value_all_ones(bytes: Seq<u8>, pos: int, n: nat)
    requires
        forall|i: int| pos <= i < pos + n ==> bit_at(bytes, i) == 1,
    ensures
        bits_value(bytes, pos, n) == pow2(n) - 1,
    decreases n,
{
    if n == 0 {
        assert(pow2(0) == 1) by {
            lemma2_to64();
        }
    } else {
        lemma_bits_value_all_ones(bytes, pos, (n - 1) as nat);
        lemma_pow2_unfold(n);
    }
}

/// A cursor over an immutable byte buffer, tracking an absolute bit
/// position. Created once per message and discarded when decoding
/// completes.
pub struct BitReader {
    bytes: Vec<u8>,
    pos: usize,
}

impl BitReader {
    /// The underlying buffer.
    pub closed spec fn data(&self) -> Seq<u8> {
        self.bytes@
    }

    /// The absolute bit position of the cursor.
    pub closed spec fn position(&self) -> nat {
        self.pos as nat
    }

    /// Well-formedness: the cursor sits inside the buffer and the
    /// buffer is small enough that bit arithmetic cannot overflow.
    pub closed spec fn inv(&self) -> bool {
        &&& self.pos <= 8 * self.bytes@.len()
        &&& 8 * self.bytes@.len() + 64 <= usize::MAX
    }

    /// A well-formed reader's cursor never passes the buffer's end.
    pub proof fn lemma_position_in_bounds(&self)
        requires
            self.inv(),
        ensures
            self.position() <= 8 * self.data().len(),
    {
    }

    pub fn new(bytes: Vec<u8>) -> (r: BitReader)
        requires
            8 * bytes@.len() + 64 <= usize::MAX,
        ensures
            r.inv(),
            r.data() == bytes@,
            r.position() == 0,
    {
        BitReader { bytes, pos: 0 }
    }

    /// Consume `nbits` bits (1..=32) and return their value, MSB-first.
    /// Fails, leaving the reader unchanged, iff fewer bits remain.
    pub fn read_u32(&mut self, nbits: u8) -> (r: Result<u32, BufrKitError>)
        requires
            old(self).inv(),
            1 <= nbits <= 32,
        ensures
            final(self).inv(),
            final(self).data() == old(self).data(),
            match r {
                Ok(v) => {
                    &&& old(self).position() + nbits <= 8 * old(self).data().len()
                    &&& final(self).position() == old(self).position() + nbits
                    &&& v == bits_value(old(self).data(), old(self).position() as int, nbits as nat)
                },
                Err(_) => {
                    &&& old(self).position() + nbits > 8 * old(self).data().len()
                    &&& *final(self) == *old(self)
                },
            },
    {
        let n = nbits as usize;
        if self.pos + n > 8 * self.bytes.len() {
            return Err(BufrKitError::new(String::from_str("end of input: not enough bits remain")));
        }
        let ghost bytes0 = self.bytes@;
        let ghost pos0 = self.pos as int;
        let mut v: u64 = 0;
        let mut k: usize = 0;
        proof {
            lemma2_to64();
        }
        while k < n
            invariant
                k <= n <= 32,
                self.bytes@ == bytes0,
                self.pos == pos0 + k,
                pos0 + n <= 8 * bytes0.len(),
                8 * bytes0.len() + 64 <= usize::MAX,
                v == bits_value(bytes0, pos0, k as nat),
                v < pow2(k as nat),
            decreases n - k,
        {
            proof {
                lemma_pow2_unfold((k + 1) as nat);
                lemma_bit_at_bound(bytes0, pos0 + k);
                if k + 1 < 32 {
                    lemma_pow2_strictly_increases((k + 1) as nat, 32);
                }
                lemma2_to64();
            }
            let byte_i = self.pos / 8;
            let sh = (7 - (self.pos % 8)) as u8;
            let bit = (self.bytes[byte_i] >> sh) & 1;
            assert(bit == bit_at(bytes0, pos0 + k));
            v = v * 2 + bit as u64;
            self.pos = self.pos + 1;
            k = k + 1;
        }
        proof {
            lemma_bits_value_bound(bytes0, pos0, n as nat);
            if n < 32 {
                lemma_pow2_strictly_increases(n as nat, 32);
            }
            lemma2_to64();
        }
        Ok(v as u32)
    }

    /// How many bits remain between the cursor and the end of the buffer.
    pub fn remaining_bits(&self) -> (r: usize)
        requires
            self.inv(),
        ensures
            r == 8 * self.data().len() - self.position(),
    {
        8 * self.bytes.len() - self.pos
    }

    /// Consume `nbits` bits (1..=8) and return their value, MSB-first.
    pub fn read_u8(&mut self, nbits: u8) -> (r: Result<u8, BufrKitError>)
        requires
            old(self).inv(),
            1 <= nbits <= 8,
        ensures
            final(self).inv(),
            final(self).data() == old(self).data(),
            match r {
                Ok(v) => {
                    &&& old(self).position() + nbits <= 8 * old(self).data().len()
                    &&& final(self).position() == old(self).position() + nbits
                    &&& v == bits_value(old(self).data(), old(self).position() as int, nbits as nat)
                },
                Err(_) => {
                    &&& old(self).position() + nbits > 8 * old(self).data().len()
                    &&& *final(self) == *old(self)
                },
            },
    {
        proof {
            lemma_bits_value_bound(self.data(), self.position() as int, nbits as nat);
            lemma2_to64();
            if nbits < 8 {
                lemma_pow2_strictly_increases(nbits as nat, 8);
            }
        }
        match self.read_u32(nbits) {
            Ok(v) => Ok(v as u8),
            Err(e) => Err(e),
        }
    }

    /// Consume `8 * nbytes` bits and return them as whole bytes.
    pub fn read_bytes(&mut self, nbytes: usize) -> (r: Result<Vec<u8>, BufrKitError>)
        requires
            old(self).inv(),
        ensures
            final(self).inv(),
            final(self).data() == old(self).data(),
            match r {
                Ok(v) => {
                    &&& old(self).position() + 8 * nbytes <= 8 * old(self).data().len()
                    &&& final(self).position() == old(self).position() + 8 * nbytes
                    &&& v@.len() == nbytes
                    &&& forall|i: int|
                        0 <= i < nbytes ==> v@[i] == bits_value(
                            old(self).data(),
                            old(self).position() + 8 * i,
                            8,
                        )
                },
                Err(_) => {
                    &&& old(self).position() + 8 * nbytes > 8 * old(self).data().len()
                    &&& *final(self) == *old(self)
                },
            },
    {
        if nbytes > self.remaining_bits() / 8 {
            assert(8 * nbytes > 8 * self.data().len() - self.position());
            return Err(BufrKitError::new(
                String::from_str("end of input: not enough bits remain"),
            ));
        }
        assert(self.position() + 8 * nbytes <= 8 * self.data().len());
        let ghost data0 = self.data();
        let ghost pos0 = self.position() as int;
        let mut out: Vec<u8> = Vec::new();
        let mut i: usize = 0;
        while i < nbytes
            invariant
                i <= nbytes,
                self.inv(),
                self.data() == data0,
                self.position() == pos0 + 8 * i,
                pos0 + 8 * nbytes <= 8 * data0.len(),
                out@.len() == i,
                forall|j: int| 0 <= j < i ==> out@[j] == bits_value(data0, pos0 + 8 * j, 8),
            decreases nbytes - i,
        {
            proof {
                lemma_bits_value_bound(data0, pos0 + 8 * i, 8);
                lemma2_to64();
            }
            let v = match self.read_u32(8) {
                Ok(v) => v,
                Err(e) => {
                    proof {
                        assert(false);
                    }
                    return Err(e);
                },
            };
            out.push(v as u8);
            i = i + 1;
        }
        Ok(out)
    }

    /// Consume `nbits` bits and return them packed into `ceil(nbits/8)`
    /// bytes, MSB-first, with trailing bits in the final byte
    /// left-justified within that byte.
    pub fn read_raw(&mut self, nbits: usize) -> (r: Result<Vec<u8>, BufrKitError>)
        requires
            old(self).inv(),
        ensures
            final(self).inv(),
            final(self).data() == old(self).data(),
            match r {
                Ok(v) => {
                    &&& old(self).position() + nbits <= 8 * old(self).data().len()
                    &&& final(self).position() == old(self).position() + nbits
                    &&& v@.len() == (nbits + 7) / 8
                    &&& forall|i: int|
                        0 <= i < nbits / 8 ==> v@[i] == bits_value(
                            old(self).data(),
                            old(self).position() + 8 * i,
                            8,
                        )
                    &&& nbits % 8 != 0 ==> v@[nbits as int / 8] == bits_value(
                        old(self).data(),
                        old(self).position() + 8 * (nbits / 8),
                        (nbits % 8) as nat,
                    ) * pow2((8 - nbits % 8) as nat)
                },
                Err(_) => {
                    &&& old(self).position() + nbits > 8 * old(self).data().len()
                    &&& *final(self) == *old(self)
                },
            },
    {
        if nbits > self.remaining_bits() {
            return Err(BufrKitError::new(
                String::from_str("end of input: not enough bits remain"),
            ));
        }
        let ghost data0 = self.data();
        let ghost pos0 = self.position() as int;
        let full = nbits / 8;
        let rem = nbits % 8;
        let mut out = match self.read_bytes(full) {
            Ok(v) => v,
            Err(e) => {
                proof {
                    assert(false);
                }
                return Err(e);
            },
        };
        if rem != 0 {
            let v = match self.read_u8(rem as u8) {
                Ok(v) => v,
                Err(e) => {
                    proof {
                        assert(false);
                    }
                    return Err(e);
                },
            };
            let sh = (8 - rem) as u8;
            proof {
                lemma2_to64();
                lemma_bits_value_bound(data0, pos0 + 8 * (full as int), rem as nat);
                vstd::arithmetic::power2::lemma_pow2_adds(rem as nat, sh as nat);
                vstd::arithmetic::power2::lemma_pow2_pos(sh as nat);
                assert((v as int) * pow2(sh as nat) < 256) by (nonlinear_arith)
                    requires
                        v < pow2(rem as nat),
                        pow2(rem as nat) * pow2(sh as nat) == 256,
                        pow2(sh as nat) > 0,
                ;
            }
            let justified = (v as u32) << (sh as u32);
            assert(justified == (v as u32) * pow2(sh as nat)) by {
                vstd::bits::lemma_u32_shl_is_mul(v as u32, sh as u32);
            }
            assert(justified < 256);
            out.push(justified as u8);
            assert(out@.len() == nbits / 8 + 1);
            assert((nbits + 7) / 8 == nbits / 8 + 1);
        } else {
            assert(out@.len() == nbits / 8);
            assert((nbits + 7) / 8 == nbits / 8);
        }
        Ok(out)
    }

    /// Consume one bit and return whether it is set.
    pub fn read_bool(&mut self) -> (r: Result<bool, BufrKitError>)
        requires
            old(self).inv(),
        ensures
            final(self).inv(),
            final(self).data() == old(self).data(),
            match r {
                Ok(v) => {
                    &&& old(self).position() + 1 <= 8 * old(self).data().len()
                    &&& final(self).position() == old(self).position() + 1
                    &&& v == (bits_value(old(self).data(), old(self).position() as int, 1) != 0)
                },
                Err(_) => {
                    &&& old(self).position() + 1 > 8 * old(self).data().len()
                    &&& *final(self) == *old(self)
                },
            },
    {
        match self.read_u32(1) {
            Ok(v) => Ok(v != 0),
            Err(e) => Err(e),
        }
    }
}

/// The BUFR "all missing" bit pattern for a width `nbits` in 1..=64:
/// the value `2^nbits - 1`, all bits set. Other widths have no pattern.
pub fn missing_bits_pattern(nbits: u8) -> (r: Option<u64>)
    ensures
        match r {
            Some(v) => 1 <= nbits <= 64 && v == pow2(nbits as nat) - 1,
            None => nbits == 0 || nbits > 64,
        },
{
    if nbits == 0 || nbits > 64 {
        None
    } else if nbits == 64 {
        proof {
            lemma2_to64();
        }
        Some(u64::MAX)
    } else {
        proof {
            lemma2_to64();
            vstd::arithmetic::power2::lemma2_to64_rest();
            lemma_pow2_strictly_increases(nbits as nat, 64);
        }
        let one: u64 = 1;
        let sh = nbits as u64;
        let p = one << sh;
        assert(p == pow2(nbits as nat)) by {
            vstd::bits::lemma_u64_shl_is_mul(1u64, sh);
        }
        Some(p - 1)
    }
}

} // verus!
