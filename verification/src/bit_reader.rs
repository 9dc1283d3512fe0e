//! LSB-first bit cursor over a byte buffer.
//!
//! Bits are consumed least-significant-first within each byte; bytes are
//! consumed in buffer order. This is the bit order of the ACS image
//! compression stream.

use vstd::prelude::*;
use vstd::arithmetic::power2::{lemma2_to64, lemma_pow2_strictly_increases, lemma_pow2_unfold,
    pow2};

verus! {

/// Bit `k` of the stream formed by reading each byte's bits from least to
/// most significant, bytes in buffer order.
pub open spec fn bit_at(bytes: Seq<u8>, k: int) -> bool
    recommends
        0 <= k < 8 * bytes.len(),
{
    (bytes[k / 8] >> ((k % 8) as u8)) & 1 == 1
}

/// The unsigned value of `n` stream bits starting at bit `k`: the first bit
/// read is bit 0 of the result, the second is bit 1, and so on.
pub open spec fn bits_val(bytes: Seq<u8>, k: int, n: nat) -> nat
    recommends
        0 <= k && k + n <= 8 * bytes.len(),
    decreases n,
{
    if n == 0 {
        0
    } else {
        (if bit_at(bytes, k) {
            1nat
        } else {
            0nat
        }) + 2 * bits_val(bytes, k + 1, (n - 1) as nat)
    }
}

pub proof fn lemma_bits_val_bound(bytes: Seq<u8>, k: int, n: nat)
    ensures
        bits_val(bytes, k, n) < pow2(n),
    decreases n,
{
    if n == 0 {
        lemma2_to64();
    } else {
        lemma_bits_val_bound(bytes, k + 1, (n - 1) as nat);
        lemma_pow2_unfold(n);
    }
}

pub proof fn lemma_bits_val_snoc(bytes: Seq<u8>, k: int, n: nat)
    ensures
        bits_val(bytes, k, n + 1) == bits_val(bytes, k, n) + (if bit_at(bytes, k + n) {
            1nat
        } else {
            0nat
        }) * pow2(n),
    decreases n,
{
    if n == 0 {
        lemma2_to64();
        assert(bits_val(bytes, k, 1) == (if bit_at(bytes, k) {
            1nat
        } else {
            0nat
        }) + 2 * bits_val(bytes, k + 1, 0));
    } else {
        let m: nat = (n - 1) as nat;
        lemma_bits_val_snoc(bytes, k + 1, m);
        lemma_pow2_unfold(n);
        let b0: nat = if bit_at(bytes, k) {
            1nat
        } else {
            0nat
        };
        let bn: nat = if bit_at(bytes, k + n) {
            1nat
        } else {
            0nat
        };
        assert(bits_val(bytes, k, n + 1) == b0 + 2 * bits_val(bytes, k + 1, n));
        assert(bits_val(bytes, k, n) == b0 + 2 * bits_val(bytes, k + 1, m));
        assert(bits_val(bytes, k + 1, n) == bits_val(bytes, k + 1, m) + bn * pow2(m));
        assert(2 * (bits_val(bytes, k + 1, m) + bn * pow2(m)) == 2 * bits_val(bytes, k + 1, m)
            + bn * (2 * pow2(m))) by (nonlinear_arith);
        assert(bits_val(bytes, k, n + 1) == bits_val(bytes, k, n) + bn * pow2(n));
    }
}


/// Eight bits read LSB-first from the start of a byte reassemble exactly
/// that byte.
pub proof fn lemma_bits_val_byte0(bytes: Seq<u8>)
    requires
        bytes.len() >= 1,
    ensures
        bits_val(bytes, 0, 8) == bytes[0],
{
    let x: u8 = bytes[0];
    assert(((x >> 0u8) & 1) < 2 && ((x >> 1u8) & 1) < 2 && ((x >> 2u8) & 1) < 2 && ((x >> 3u8)
        & 1) < 2 && ((x >> 4u8) & 1) < 2 && ((x >> 5u8) & 1) < 2 && ((x >> 6u8) & 1) < 2 && ((
    x >> 7u8) & 1) < 2) by (bit_vector);
    assert(x == ((x >> 0u8) & 1) + 2 * (((x >> 1u8) & 1) + 2 * (((x >> 2u8) & 1) + 2 * (((x
        >> 3u8) & 1) + 2 * (((x >> 4u8) & 1) + 2 * (((x >> 5u8) & 1) + 2 * (((x >> 6u8) & 1) + 2
        * ((x >> 7u8) & 1)))))))) by (bit_vector);
    assert(bits_val(bytes, 8, 0) == 0);
    assert(bits_val(bytes, 7, 1) == (if bit_at(bytes, 7) {
        1nat
    } else {
        0nat
    }) + 2 * bits_val(bytes, 8, 0));
    assert(bits_val(bytes, 6, 2) == (if bit_at(bytes, 6) {
        1nat
    } else {
        0nat
    }) + 2 * bits_val(bytes, 7, 1));
    assert(bits_val(bytes, 5, 3) == (if bit_at(bytes, 5) {
        1nat
    } else {
        0nat
    }) + 2 * bits_val(bytes, 6, 2));
    assert(bits_val(bytes, 4, 4) == (if bit_at(bytes, 4) {
        1nat
    } else {
        0nat
    }) + 2 * bits_val(bytes, 5, 3));
    assert(bits_val(bytes, 3, 5) == (if bit_at(bytes, 3) {
        1nat
    } else {
        0nat
    }) + 2 * bits_val(bytes, 4, 4));
    assert(bits_val(bytes, 2, 6) == (if bit_at(bytes, 2) {
        1nat
    } else {
        0nat
    }) + 2 * bits_val(bytes, 3, 5));
    assert(bits_val(bytes, 1, 7) == (if bit_at(bytes, 1) {
        1nat
    } else {
        0nat
    }) + 2 * bits_val(bytes, 2, 6));
    assert(bits_val(bytes, 0, 8) == (if bit_at(bytes, 0) {
        1nat
    } else {
        0nat
    }) + 2 * bits_val(bytes, 1, 7));
}

/// A cursor over `bytes` at byte `idx`, bit `bidx` within that byte.
pub struct Bits {
    pub bytes: Vec<u8>,
    pub idx: usize,
    pub bidx: usize,
}

impl Bits {
    /// The cursor state is consistent: the bit index stays below 8 and the
    /// byte index never passes the end of the buffer.
    pub open spec fn wf(&self) -> bool {
        &&& self.bidx <= 7
        &&& self.idx <= self.bytes@.len()
        &&& (self.idx == self.bytes@.len() ==> self.bidx == 0)
    }

    /// The absolute bit position of the cursor.
    pub open spec fn bitpos(&self) -> int {
        8 * self.idx + self.bidx
    }

    pub fn new(bytes: Vec<u8>) -> (r: Bits)
        ensures
            r.wf(),
            r.bytes@ == bytes@,
            r.bitpos() == 0,
    {
        Bits { bytes, idx: 0, bidx: 0 }
    }

    /// Pop the bit under the cursor and advance, or report end of stream.
    pub fn pop_bit(&mut self) -> (r: Option<bool>)
        requires
            old(self).wf(),
        ensures
            final(self).wf(),
            final(self).bytes@ == old(self).bytes@,
            old(self).bitpos() < 8 * old(self).bytes@.len() ==> {
                &&& r == Some(bit_at(old(self).bytes@, old(self).bitpos()))
                &&& final(self).bitpos() == old(self).bitpos() + 1
            },
            old(self).bitpos() == 8 * old(self).bytes@.len() ==> {
                &&& r is None
                &&& *final(self) == *old(self)
            },
    {
        if self.idx >= self.bytes.len() {
            return None;
        }
        let w: u8 = self.bytes[self.idx];
        let ret: u8 = (w >> (self.bidx as u8)) & 1;

        self.bidx = self.bidx + 1;
        if self.bidx > 7 {
            self.bidx = 0;
            self.idx = self.idx + 1;
        }
        Some(ret == 1)
    }

    /// Pop `count` bits and assemble them into an unsigned integer, the first
    /// bit read becoming bit 0 of the result. Reports end of stream when
    /// fewer than `count` bits remain; the cursor is then at the very end.
    pub fn pop_bits(&mut self, count: usize) -> (r: Option<u32>)
        requires
            old(self).wf(),
            count <= 32,
        ensures
            final(self).wf(),
            final(self).bytes@ == old(self).bytes@,
            old(self).bitpos() + count <= 8 * old(self).bytes@.len() ==> {
                &&& r == Some(bits_val(old(self).bytes@, old(self).bitpos(), count as nat) as u32)
                &&& final(self).bitpos() == old(self).bitpos() + count
            },
            old(self).bitpos() + count > 8 * old(self).bytes@.len() ==> {
                &&& r is None
                &&& final(self).bitpos() == 8 * old(self).bytes@.len()
            },
    {
        let ghost start: int = self.bitpos();
        let mut acc: u64 = 0;
        let mut mul: u64 = 1;
        let mut j: usize = 0;
        proof {
            lemma2_to64();
        }
        while j < count
            invariant
                self.wf(),
                self.bytes@ == old(self).bytes@,
                count <= 32,
                j <= count,
                start == old(self).bitpos(),
                self.bitpos() == start + j,
                start + j <= 8 * self.bytes@.len(),
                acc == bits_val(self.bytes@, start, j as nat),
                mul == pow2(j as nat),
                mul <= 0x1_0000_0000u64,
            decreases count - j,
        {
            let b: Option<bool> = self.pop_bit();
            match b {
                None => {
                    return None;
                },
                Some(bit) => {
                    proof {
                        lemma_bits_val_snoc(self.bytes@, start, j as nat);
                        lemma_bits_val_bound(self.bytes@, start, j as nat);
                        if j + 1 < 32 {
                            lemma_pow2_strictly_increases((j + 1) as nat, 32nat);
                        }
                        lemma_pow2_unfold((j + 1) as nat);
                        lemma2_to64();
                    }
                    if bit {
                        acc = acc + mul;
                    }
                    mul = mul * 2;
                    j = j + 1;
                },
            }
        }
        proof {
            lemma_bits_val_bound(self.bytes@, start, count as nat);
            if count < 32 {
                lemma_pow2_strictly_increases(count as nat, 32nat);
            }
            lemma2_to64();
        }
        Some(acc as u32)
    }

    /// Pop eight bits as a byte.
    pub fn pop_byte(&mut self) -> (r: Option<u8>)
        requires
            old(self).wf(),
        ensures
            final(self).wf(),
            final(self).bytes@ == old(self).bytes@,
            old(self).bitpos() + 8 <= 8 * old(self).bytes@.len() ==> {
                &&& r == Some(bits_val(old(self).bytes@, old(self).bitpos(), 8) as u8)
                &&& final(self).bitpos() == old(self).bitpos() + 8
            },
            old(self).bitpos() + 8 > 8 * old(self).bytes@.len() ==> {
                &&& r is None
                &&& final(self).bitpos() == 8 * old(self).bytes@.len()
            },
    {
        proof {
            lemma_bits_val_bound(self.bytes@, self.bitpos(), 8);
            lemma2_to64();
        }
        match self.pop_bits(8) {
            None => None,
            Some(v) => Some(v as u8),
        }
    }
}

} // verus!
