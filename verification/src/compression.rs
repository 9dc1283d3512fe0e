//! Decompressor for the LZ77-style bit-stream compression used by ACS image
//! and region payloads.
//!
//! The stream starts with one zero byte. After it, each token starts with a
//! control bit: `0` introduces a literal byte (the next 8 bits); `1`
//! introduces a back-reference, encoded as a tiered offset (the tier is
//! selected by up to three leading `1` bits) followed by an Elias-gamma-like
//! length code (up to eleven leading `1` bits, a twelfth `1` is malformed).
//! A tier-3 offset field of all ones ends the stream.
//!
//! The whole protocol is written down as the spec-level decoder
//! [`spec_decompress`]; the executable [`decompress`] is verified to return
//! exactly its result.

use vstd::prelude::*;
use vstd::arithmetic::power2::{lemma2_to64, lemma_pow2_strictly_increases, lemma_pow2_unfold,
    pow2};
use crate::bit_reader::{bit_at, bits_val, lemma_bits_val_bound, Bits};

verus! {

#[derive(Debug, Clone, PartialEq, Eq)]
pub enum DecompressionError {
    UnexpectedEof,
    MissingLeadingZero,
    MalformedLengthEncoding,
    InvalidBackReference,
}

/// Number of bits in the stream.
pub open spec fn stream_len(b: Seq<u8>) -> int {
    8 * (b.len() as int)
}

/// Count up to `cap` consecutive `1` bits starting at bit `k`; a terminating
/// `0` bit is consumed, but after `cap` ones the count stops without reading
/// further. `None` means the stream ended during the count.
pub open spec fn spec_ones_capped(b: Seq<u8>, k: int, cap: nat) -> Option<(nat, int)>
    decreases cap,
{
    if cap == 0 {
        Some((0nat, k))
    } else if k >= stream_len(b) {
        None
    } else if bit_at(b, k) {
        match spec_ones_capped(b, k + 1, (cap - 1) as nat) {
            None => None,
            Some((o, k2)) => Some(((o + 1) as nat, k2)),
        }
    } else {
        Some((0nat, k + 1))
    }
}

pub proof fn lemma_ones_capped_bounds(b: Seq<u8>, k: int, cap: nat)
    ensures
        (match spec_ones_capped(b, k, cap) {
            Some((o, k2)) => o <= cap && k2 == k + (if o == cap {
                cap as int
            } else {
                o + 1 as int
            }),
            None => true,
        }),
    decreases cap,
{
    if cap != 0 && k < stream_len(b) && bit_at(b, k) {
        lemma_ones_capped_bounds(b, k + 1, (cap - 1) as nat);
    }
}

/// The length code: count consecutive `1` bits; `depth` ones have been seen
/// already. At most eleven ones are allowed; a twelfth `1` bit is malformed.
/// The terminating `0` bit is consumed.
pub open spec fn spec_len_ones(b: Seq<u8>, k: int, depth: nat) -> Result<
    (nat, int),
    DecompressionError,
>
    decreases 12 - depth,
    when depth <= 11
{
    if k >= stream_len(b) {
        Err(DecompressionError::UnexpectedEof)
    } else if depth == 11 {
        if bit_at(b, k) {
            Err(DecompressionError::MalformedLengthEncoding)
        } else {
            Ok((0nat, k + 1))
        }
    } else if bit_at(b, k) {
        match spec_len_ones(b, k + 1, depth + 1) {
            Err(e) => Err(e),
            Ok((o, k2)) => Ok(((o + 1) as nat, k2)),
        }
    } else {
        Ok((0nat, k + 1))
    }
}

pub proof fn lemma_len_ones_bounds(b: Seq<u8>, k: int, depth: nat)
    requires
        depth <= 11,
    ensures
        (match spec_len_ones(b, k, depth) {
            Ok((o, k2)) => o + depth <= 11 && k2 == k + o + 1,
            Err(e) => true,
        }),
    decreases 12 - depth,
{
    if k < stream_len(b) && depth < 11 && bit_at(b, k) {
        lemma_len_ones_bounds(b, k + 1, depth + 1);
    }
}

/// Append `len` bytes to `out`, each copied from `off` positions behind the
/// current end of the output. The copy may overlap its own tail, which makes
/// it a run-length repetition.
pub open spec fn lz_copy(out: Seq<u8>, off: int, len: nat) -> Seq<u8>
    recommends
        1 <= off <= out.len(),
    decreases len,
{
    if len == 0 {
        out
    } else {
        lz_copy(out.push(out[out.len() - off]), off, (len - 1) as nat)
    }
}

pub proof fn lemma_lz_copy_len(out: Seq<u8>, off: int, len: nat)
    ensures
        lz_copy(out, off, len).len() == out.len() + len,
    decreases len,
{
    if len != 0 {
        lemma_lz_copy_len(out.push(out[out.len() - off]), off, (len - 1) as nat);
    }
}

pub proof fn lemma_lz_copy_split(out: Seq<u8>, off: int, a: nat, c: nat)
    ensures
        lz_copy(out, off, a + c) == lz_copy(lz_copy(out, off, a), off, c),
    decreases a,
{
    if a != 0 {
        lemma_lz_copy_split(out.push(out[out.len() - off]), off, (a - 1) as nat, c);
    }
}

/// The width of the offset field for a tier selected by `ones` leading ones.
pub open spec fn tier_bits(ones: nat) -> nat {
    if ones == 0 {
        6
    } else if ones == 1 {
        9
    } else if ones == 2 {
        12
    } else {
        20
    }
}

/// The offset added to the raw field value for a tier.
pub open spec fn tier_addend(ones: nat) -> int {
    if ones == 0 {
        1
    } else if ones == 1 {
        65
    } else if ones == 2 {
        577
    } else {
        4673
    }
}

/// One decoding step at bit `k` with accumulated output `out`: reaching the
/// end of the bits between tokens or the explicit end marker finishes with
/// `out`; otherwise a literal or a back-reference extends the output.
pub open spec fn spec_decomp_loop(b: Seq<u8>, k: int, out: Seq<u8>) -> Result<
    Seq<u8>,
    DecompressionError,
>
    decreases stream_len(b) - k,
    when k <= stream_len(b)
{
    if k >= stream_len(b) {
        Ok(out)
    } else if !bit_at(b, k) {
        // literal: the next 8 bits are one output byte
        if k + 9 > stream_len(b) {
            Err(DecompressionError::UnexpectedEof)
        } else {
            spec_decomp_loop(b, k + 9, out.push(bits_val(b, k + 1, 8) as u8))
        }
    } else {
        match spec_ones_capped(b, k + 1, 3) {
            None => Err(DecompressionError::UnexpectedEof),
            Some((ones, k1)) => {
                let nbits = tier_bits(ones);
                if k1 + nbits > stream_len(b) {
                    Err(DecompressionError::UnexpectedEof)
                } else {
                    let num = bits_val(b, k1, nbits);
                    let k2 = k1 + nbits;
                    if ones == 3 && num == 0xfffff {
                        Ok(out)
                    } else {
                        let off = num + tier_addend(ones);
                        let base: int = if ones == 3 {
                            3
                        } else {
                            2
                        };
                        if off > out.len() {
                            Err(DecompressionError::InvalidBackReference)
                        } else {
                            match spec_len_ones(b, k2, 0) {
                                Err(e) => Err(e),
                                Ok((lones, k3)) => {
                                    if k3 + lones > stream_len(b) {
                                        Err(DecompressionError::UnexpectedEof)
                                    } else {
                                        let extra = bits_val(b, k3, lones);
                                        let total = (base + pow2(lones) - 1 + extra) as nat;
                                        proof {
                                            lemma_ones_capped_bounds(b, k + 1, 3);
                                            lemma_len_ones_bounds(b, k2, 0);
                                        }
                                        spec_decomp_loop(b, k3 + lones, lz_copy(out, off, total))
                                    }
                                },
                            }
                        }
                    }
                }
            },
        }
    }
}

/// The decompression of a whole buffer: a leading zero byte, then tokens
/// until the bits run out or the end marker appears.
pub open spec fn spec_decompress(b: Seq<u8>) -> Result<Seq<u8>, DecompressionError> {
    if stream_len(b) < 8 {
        Err(DecompressionError::UnexpectedEof)
    } else if bits_val(b, 0, 8) != 0 {
        Err(DecompressionError::MissingLeadingZero)
    } else {
        spec_decomp_loop(b, 8, Seq::empty())
    }
}

/// Count up to three consecutive `1` bits, mirroring [`spec_ones_capped`].
fn pop_ones3(bits: &mut Bits) -> (r: Option<u32>)
    requires
        old(bits).wf(),
    ensures
        final(bits).wf(),
        final(bits).bytes@ == old(bits).bytes@,
        (match r {
            Some(o) => o <= 3 && spec_ones_capped(old(bits).bytes@, old(bits).bitpos(), 3)
                == Some((o as nat, final(bits).bitpos())),
            None => spec_ones_capped(old(bits).bytes@, old(bits).bitpos(), 3) is None,
        }),
{
    let ghost b: Seq<u8> = old(bits).bytes@;
    let ghost k0: int = old(bits).bitpos();
    let mut ones: u32 = 0;
    loop
        invariant
            bits.wf(),
            b == old(bits).bytes@,
            k0 == old(bits).bitpos(),
            bits.bytes@ == b,
            ones <= 3,
            (match spec_ones_capped(b, bits.bitpos(), (3 - ones) as nat) {
                None => spec_ones_capped(b, k0, 3) is None,
                Some((o, k2)) => spec_ones_capped(b, k0, 3) == Some((((ones + o) as nat), k2)),
            }),
        decreases 4 - ones,
    {
        if ones == 3 {
            assert(spec_ones_capped(b, bits.bitpos(), 0) == Some((0nat, bits.bitpos())));
            return Some(3);
        }
        let ghost kc: int = bits.bitpos();
        match bits.pop_bit() {
            None => {
                assert(spec_ones_capped(b, kc, (3 - ones) as nat) is None);
                return None;
            },
            Some(true) => {
                proof {
                    let cap: nat = (3 - ones) as nat;
                    assert(spec_ones_capped(b, kc, cap) == (match spec_ones_capped(
                        b,
                        kc + 1,
                        (cap - 1) as nat,
                    ) {
                        None => None::<(nat, int)>,
                        Some((o, k2)) => Some((((o + 1) as nat), k2)),
                    }));
                }
                ones = ones + 1;
            },
            Some(false) => {
                assert(spec_ones_capped(b, kc, (3 - ones) as nat) == Some((0nat, kc + 1)));
                return Some(ones);
            },
        }
    }
}

/// Read the length code's run of `1` bits, mirroring [`spec_len_ones`].
fn pop_len_ones(bits: &mut Bits) -> (r: Result<u32, DecompressionError>)
    requires
        old(bits).wf(),
    ensures
        final(bits).wf(),
        final(bits).bytes@ == old(bits).bytes@,
        (match r {
            Ok(o) => o <= 11 && spec_len_ones(old(bits).bytes@, old(bits).bitpos(), 0)
                == Ok::<(nat, int), DecompressionError>((o as nat, final(bits).bitpos())),
            Err(e) => spec_len_ones(old(bits).bytes@, old(bits).bitpos(), 0)
                == Err::<(nat, int), DecompressionError>(e),
        }),
{
    let ghost b: Seq<u8> = old(bits).bytes@;
    let ghost k0: int = old(bits).bitpos();
    let mut ones: u32 = 0;
    loop
        invariant
            bits.wf(),
            b == old(bits).bytes@,
            k0 == old(bits).bitpos(),
            bits.bytes@ == b,
            ones <= 11,
            (match spec_len_ones(b, bits.bitpos(), ones as nat) {
                Ok((o, k2)) => spec_len_ones(b, k0, 0) == Ok::<(nat, int), DecompressionError>((
                    ((ones + o) as nat),
                    k2,
                )),
                Err(e) => spec_len_ones(b, k0, 0) == Err::<(nat, int), DecompressionError>(e),
            }),
        decreases 12 - ones,
    {
        let ghost kc: int = bits.bitpos();
        if ones == 11 {
            match bits.pop_bit() {
                None => {
                    return Err(DecompressionError::UnexpectedEof);
                },
                Some(true) => {
                    return Err(DecompressionError::MalformedLengthEncoding);
                },
                Some(false) => {
                    assert(spec_len_ones(b, kc, 11) == Ok::<(nat, int), DecompressionError>((
                        0nat,
                        kc + 1,
                    )));
                    return Ok(11);
                },
            }
        }
        match bits.pop_bit() {
            None => {
                return Err(DecompressionError::UnexpectedEof);
            },
            Some(false) => {
                assert(spec_len_ones(b, kc, ones as nat) == Ok::<(nat, int), DecompressionError>((
                    0nat,
                    kc + 1,
                )));
                return Ok(ones);
            },
            Some(true) => {
                proof {
                    let d: nat = ones as nat;
                    assert(spec_len_ones(b, kc, d) == (match spec_len_ones(b, kc + 1, d + 1) {
                        Err(e) => Err::<(nat, int), DecompressionError>(e),
                        Ok((o, k2)) => Ok((((o + 1) as nat), k2)),
                    }));
                }
                ones = ones + 1;
            },
        }
    }
}

/// Two raised to a small exponent, computed by doubling.
fn pow2_small(e: u32) -> (r: usize)
    requires
        e <= 11,
    ensures
        r == pow2(e as nat),
        r <= 2048,
{
    let mut p: usize = 1;
    let mut t: u32 = 0;
    proof {
        lemma2_to64();
    }
    while t < e
        invariant
            t <= e,
            e <= 11,
            p == pow2(t as nat),
            p <= 2048,
        decreases e - t,
    {
        proof {
            lemma_pow2_unfold((t + 1) as nat);
            if t + 1 < 11 {
                lemma_pow2_strictly_increases((t + 1) as nat, 11nat);
            }
            lemma2_to64();
        }
        p = p * 2;
        t = t + 1;
    }
    p
}

/// Decompress a complete buffer.
///
/// The result is exactly [`spec_decompress`] of the input: the decoded bytes
/// on success, and the first protocol violation otherwise.
pub fn decompress(bytes: Vec<u8>) -> (r: Result<Vec<u8>, DecompressionError>)
    ensures
        (match r {
            Ok(v) => spec_decompress(bytes@) == Ok::<Seq<u8>, DecompressionError>(v@),
            Err(e) => spec_decompress(bytes@) == Err::<Seq<u8>, DecompressionError>(e),
        }),
{
    let ghost b: Seq<u8> = bytes@;
    let mut ret: Vec<u8> = Vec::new();
    let mut bits = Bits::new(bytes);

    proof {
        lemma_bits_val_bound(b, 0, 8);
        lemma2_to64();
    }
    match bits.pop_byte() {
        None => {
            return Err(DecompressionError::UnexpectedEof);
        },
        Some(lead) => {
            if lead != 0 {
                return Err(DecompressionError::MissingLeadingZero);
            }
        },
    }

    loop
        invariant
            bits.wf(),
            b == bytes@,
            bits.bytes@ == b,
            bits.bitpos() <= stream_len(b),
            spec_decompress(b) == spec_decomp_loop(b, bits.bitpos(), ret@),
        decreases stream_len(b) - bits.bitpos(),
    {
        let ghost k: int = bits.bitpos();
        let ghost out0: Seq<u8> = ret@;
        match bits.pop_bit() {
            None => {
                return Ok(ret);
            },
            Some(false) => {
                // literal byte
                match bits.pop_byte() {
                    None => {
                        return Err(DecompressionError::UnexpectedEof);
                    },
                    Some(v) => {
                        ret.push(v);
                        proof {
                            lemma_bits_val_bound(b, k + 1, 8);
                            lemma2_to64();
                        }
                        assert(spec_decomp_loop(b, k, out0) == spec_decomp_loop(
                            b,
                            k + 9,
                            out0.push(bits_val(b, k + 1, 8) as u8),
                        ));
                    },
                }
            },
            Some(true) => {
                // back-reference
                let ones: u32 = match pop_ones3(&mut bits) {
                    None => {
                        return Err(DecompressionError::UnexpectedEof);
                    },
                    Some(o) => o,
                };
                let ghost k1: int = bits.bitpos();
                proof {
                    lemma_ones_capped_bounds(b, k + 1, 3);
                }
                let (nbits, addend): (u32, u32) = if ones == 0 {
                    (6, 1)
                } else if ones == 1 {
                    (9, 65)
                } else if ones == 2 {
                    (12, 577)
                } else {
                    (20, 4673)
                };
                assert(nbits == tier_bits(ones as nat) && addend == tier_addend(ones as nat));
                let num: u32 = match bits.pop_bits(nbits as usize) {
                    None => {
                        return Err(DecompressionError::UnexpectedEof);
                    },
                    Some(n) => n,
                };
                let ghost k2: int = bits.bitpos();
                proof {
                    lemma_bits_val_bound(b, k1, nbits as nat);
                    lemma_pow2_strictly_increases(nbits as nat, 21nat);
                    lemma2_to64();
                }
                if ones == 3 && num == 0xfffff {
                    return Ok(ret);
                }
                let off: u32 = num + addend;
                if off as usize > ret.len() {
                    return Err(DecompressionError::InvalidBackReference);
                }
                let lones: u32 = match pop_len_ones(&mut bits) {
                    Ok(o) => o,
                    Err(e) => {
                        return Err(e);
                    },
                };
                let ghost k3: int = bits.bitpos();
                proof {
                    lemma_len_ones_bounds(b, k2, 0);
                }
                let extra: u32 = match bits.pop_bits(lones as usize) {
                    None => {
                        return Err(DecompressionError::UnexpectedEof);
                    },
                    Some(n) => n,
                };
                proof {
                    lemma_bits_val_bound(b, k3, lones as nat);
                    if lones < 11 {
                        lemma_pow2_strictly_increases(lones as nat, 11nat);
                    }
                    lemma2_to64();
                }
                let base: usize = if ones == 3 {
                    3
                } else {
                    2
                };
                let count: usize = base + pow2_small(lones) - 1 + extra as usize;
                let ghost total: nat = count as nat;

                proof {
                    assert(spec_decomp_loop(b, k, out0) == spec_decomp_loop(
                        b,
                        bits.bitpos(),
                        lz_copy(out0, off as int, total),
                    ));
                }

                let mut i: usize = 0;
                while i < count
                    invariant
                        1 <= off,
                        off as int <= out0.len(),
                        i <= count,
                        off as usize <= ret.len(),
                        ret@ == lz_copy(out0, off as int, i as nat),
                        ret@.len() == out0.len() + i,
                    decreases count - i,
                {
                    let ghost pre: Seq<u8> = ret@;
                    // the source of each copied byte lies `off` before the
                    // current end of the output, so it is always in bounds
                    let pos: usize = ret.len() - off as usize;
                    let v: u8 = ret[pos];
                    ret.push(v);
                    proof {
                        lemma_lz_copy_split(out0, off as int, i as nat, 1nat);
                        lemma_lz_copy_len(out0, off as int, (i + 1) as nat);
                        assert(lz_copy(pre.push(pre[pre.len() - off]), off as int, 0nat)
                            == pre.push(pre[pre.len() - off]));
                        assert(lz_copy(pre, off as int, 1nat) == pre.push(pre[pre.len() - off]));
                        assert(ret@ == lz_copy(out0, off as int, (i + 1) as nat));
                    }
                    i = i + 1;
                }
            },
        }
    }
}

/// Decompression is a pure function of the input bytes: two results that
/// each meet [`decompress`]'s contract for the same input are identical, so
/// decompressing a buffer again yields byte-identical output.
pub proof fn lemma_decompress_repeatable(
    b: Seq<u8>,
    r1: Result<Seq<u8>, DecompressionError>,
    r2: Result<Seq<u8>, DecompressionError>,
)
    requires
        r1 == spec_decompress(b),
        r2 == spec_decompress(b),
    ensures
        r1 == r2,
{
}

/// Bytes already present are never disturbed by a copy.
pub proof fn lemma_lz_copy_prefix(out: Seq<u8>, off: int, len: nat, j: int)
    requires
        1 <= off <= out.len(),
        0 <= j < out.len(),
    ensures
        lz_copy(out, off, len)[j] == out[j],
    decreases len,
{
    if len != 0 {
        lemma_lz_copy_prefix(out.push(out[out.len() - off]), off, (len - 1) as nat, j);
    }
}

/// Every byte a back-reference copies is read strictly inside the output
/// existing at that instant: with the offset guard `1 <= off <= out.len()`
/// that the decoder enforces, the `i`-th appended byte is read at index
/// `out.len() - off + i`, below the then-current length `out.len() + i`,
/// and equals exactly the byte standing there at that moment.
pub proof fn lemma_back_reference_reads_within_output(out: Seq<u8>, off: int, len: nat, i: int)
    requires
        1 <= off <= out.len(),
        0 <= i < len,
    ensures
        0 <= out.len() - off + i < out.len() + i,
        lz_copy(out, off, len)[out.len() + i] == lz_copy(out, off, i as nat)[out.len() - off + i],
{
    let mid = lz_copy(out, off, i as nat);
    lemma_lz_copy_len(out, off, i as nat);
    lemma_lz_copy_split(out, off, i as nat, 1nat);
    assert(lz_copy(mid.push(mid[mid.len() - off]), off, 0nat) == mid.push(mid[mid.len() - off]));
    assert(lz_copy(mid, off, 1nat) == mid.push(mid[mid.len() - off]));
    assert(lz_copy(out, off, (i + 1) as nat) == mid.push(mid[mid.len() - off]));
    lemma_lz_copy_len(out, off, (i + 1) as nat);
    lemma_lz_copy_split(out, off, (i + 1) as nat, (len - i - 1) as nat);
    lemma_lz_copy_prefix(
        lz_copy(out, off, (i + 1) as nat),
        off,
        (len - i - 1) as nat,
        out.len() + i,
    );
}

/// A stream whose first byte is not zero is rejected as missing its
/// leading zero.
pub proof fn lemma_missing_leading_zero(b: Seq<u8>)
    requires
        b.len() >= 1,
        b[0] != 0,
    ensures
        spec_decompress(b) == Err::<Seq<u8>, DecompressionError>(
            DecompressionError::MissingLeadingZero,
        ),
{
    crate::bit_reader::lemma_bits_val_byte0(b);
}

/// Eleven `1` bits followed by a twelfth `1` bit in a length code are
/// malformed, whatever follows them.
pub proof fn lemma_length_run_rejected(b: Seq<u8>, k: int)
    ensures
        (k + 12 <= stream_len(b) && (forall|i: int| 0 <= i < 12 ==> #[trigger] bit_at(b, k + i)))
            ==> spec_len_ones(b, k, 0) == Err::<(nat, int), DecompressionError>(
            DecompressionError::MalformedLengthEncoding,
        ),
{
    if k + 12 <= stream_len(b) && (forall|i: int| 0 <= i < 12 ==> #[trigger] bit_at(b, k + i)) {
        lemma_length_run_rejected_from(b, k, 0);
    }
}

proof fn lemma_length_run_rejected_from(b: Seq<u8>, k: int, depth: nat)
    requires
        depth <= 11,
        k + (12 - depth) <= stream_len(b),
        forall|i: int| 0 <= i < 12 - depth ==> #[trigger] bit_at(b, k + i),
    ensures
        spec_len_ones(b, k, depth) == Err::<(nat, int), DecompressionError>(
            DecompressionError::MalformedLengthEncoding,
        ),
    decreases 12 - depth,
{
    assert(bit_at(b, k + 0));
    if depth < 11 {
        assert forall|i: int| 0 <= i < 12 - (depth + 1) implies #[trigger] bit_at(
            b,
            (k + 1) + i,
        ) by {
            assert(bit_at(b, k + (i + 1)));
        }
        lemma_length_run_rejected_from(b, k + 1, depth + 1);
    }
}

/// A back-reference whose resolved offset exceeds the output produced so
/// far is rejected, before its length code is even read.
pub proof fn lemma_invalid_back_reference(b: Seq<u8>, k: int, out: Seq<u8>, ones: nat, k1: int)
    requires
        0 <= k < stream_len(b),
        bit_at(b, k),
        spec_ones_capped(b, k + 1, 3) == Some((ones, k1)),
        k1 + tier_bits(ones) <= stream_len(b),
        !(ones == 3 && bits_val(b, k1, tier_bits(ones)) == 0xfffff),
        bits_val(b, k1, tier_bits(ones)) + tier_addend(ones) > out.len(),
    ensures
        spec_decomp_loop(b, k, out) == Err::<Seq<u8>, DecompressionError>(
            DecompressionError::InvalidBackReference,
        ),
{
}

} // verus!
