//! Bit-packed bitmaps: the wire form of validity masks and boolean values.
//!
//! Bit `i` of a bitmap lives in byte `i / 8` at bit position `i % 8`
//! (least-significant bit first), the canonical little-endian bit layout of
//! the interchange format.
use vstd::prelude::*;

verus! {

/// Bit `i` of the packed byte sequence.
pub open spec fn spec_bit(bytes: Seq<u8>, i: int) -> bool {
    (bytes[i / 8] >> ((i % 8) as u8)) & 1u8 == 1u8
}

/// The unpacked form of the first `n` bits.
pub open spec fn spec_bits(bytes: Seq<u8>, n: nat) -> Seq<bool> {
    Seq::new(n, |i: int| spec_bit(bytes, i))
}

/// How many bytes a bitmap of `n` bits occupies.
pub open spec fn spec_bitmap_bytes(n: nat) -> nat {
    (n + 7) / 8
}

/// The number of cleared bits — the null count a writer declares for a
/// validity mask.
pub open spec fn nulls_in(bits: Seq<bool>) -> nat
    decreases bits,
{
    if bits.len() == 0 {
        0
    } else {
        nulls_in(bits.drop_last()) + if bits.last() {
            0nat
        } else {
            1nat
        }
    }
}

pub proof fn lemma_nulls_in_le(bits: Seq<bool>)
    ensures
        nulls_in(bits) <= bits.len(),
    decreases bits,
{
    if bits.len() > 0 {
        lemma_nulls_in_le(bits.drop_last());
    }
}

proof fn lemma_zero_bit(x: u8, m: u8)
    requires
        x == 0,
        m < 8,
    ensures
        (x >> m) & 1u8 == 0u8,
{
    assert(x == 0 && m < 8 ==> (x >> m) & 1u8 == 0u8) by (bit_vector);
}

proof fn lemma_or_bit(x: u8, k: u8, m: u8)
    requires
        k < 8,
        m < 8,
    ensures
        m == k ==> ((x | (1u8 << k)) >> m) & 1u8 == 1u8,
        m != k ==> ((x | (1u8 << k)) >> m) & 1u8 == (x >> m) & 1u8,
{
    assert(k < 8 && m < 8 && m == k ==> ((x | (1u8 << k)) >> m) & 1u8 == 1u8) by (bit_vector);
    assert(k < 8 && m < 8 && m != k ==> ((x | (1u8 << k)) >> m) & 1u8 == (x >> m) & 1u8)
        by (bit_vector);
}

/// Pack `bits` into the little-endian-bit byte form; trailing padding bits
/// of the last byte are cleared.
pub fn pack_bits(bits: &Vec<bool>) -> (r: Vec<u8>)
    ensures
        r@.len() == spec_bitmap_bytes(bits@.len()),
        forall|i: int| 0 <= i < bits@.len() ==> spec_bit(r@, i) == bits@[i],
        forall|i: int| bits@.len() <= i < 8 * r@.len() ==> !spec_bit(r@, i),
{
    let n = bits.len();
    let nbytes = n / 8 + if n % 8 == 0 { 0 } else { 1 };
    let mut out: Vec<u8> = Vec::new();
    let mut j: usize = 0;
    while j < nbytes
        invariant
            out@.len() == j,
            j <= nbytes,
            forall|i: int| 0 <= i < j ==> out@[i] == 0u8,
        decreases nbytes - j,
    {
        out.push(0u8);
        j = j + 1;
    }
    assert forall|i: int| 0 <= i < 8 * out@.len() implies !spec_bit(out@, i) by {
        lemma_zero_bit(out@[i / 8], (i % 8) as u8);
    }
    let mut i: usize = 0;
    while i < n
        invariant
            n == bits@.len(),
            out@.len() == nbytes,
            nbytes == spec_bitmap_bytes(n as nat),
            i <= n,
            n <= 8 * nbytes,
            forall|k: int| 0 <= k < i ==> spec_bit(out@, k) == bits@[k],
            forall|k: int| i <= k < 8 * nbytes ==> !spec_bit(out@, k),
        decreases n - i,
    {
        if bits[i] {
            let byte_idx = i / 8;
            let bit_idx = (i % 8) as u8;
            let old_byte = out[byte_idx];
            let ghost old_out = out@;
            out.set(byte_idx, old_byte | (1u8 << bit_idx));
            assert forall|k: int| 0 <= k < 8 * nbytes && k != i implies spec_bit(out@, k)
                == spec_bit(old_out, k) by {
                if k / 8 == i / 8 {
                    assert(k % 8 != i % 8);
                    lemma_or_bit(old_byte, bit_idx, (k % 8) as u8);
                } else {
                    assert(out@[k / 8] == old_out[k / 8]);
                }
            };
            proof {
                lemma_or_bit(old_byte, bit_idx, bit_idx);
            }
            assert(spec_bit(out@, i as int));
            assert forall|k: int| i + 1 <= k < 8 * nbytes implies !spec_bit(out@, k) by {
                assert(spec_bit(out@, k) == spec_bit(old_out, k));
                assert(!spec_bit(old_out, k));
            };
        } else {
            assert(!spec_bit(out@, i as int));
        }
        i = i + 1;
    }
    out
}

/// Unpack `n` bits of `bytes`, starting at byte offset `start`.
pub fn unpack_bits(bytes: &Vec<u8>, start: usize, n: usize) -> (r: Vec<bool>)
    requires
        start <= bytes@.len(),
        n <= 8 * (bytes@.len() - start),
    ensures
        r@ == spec_bits(bytes@.skip(start as int), n as nat),
{
    let blen = bytes.len();
    let mut out: Vec<bool> = Vec::new();
    let mut i: usize = 0;
    while i < n
        invariant
            blen == bytes@.len(),
            start <= bytes@.len(),
            n <= 8 * (bytes@.len() - start),
            i <= n,
            out@.len() == i,
            forall|k: int| 0 <= k < i ==> out@[k] == spec_bit(bytes@.skip(start as int), k),
        decreases n - i,
    {
        assert(i / 8 < blen - start) by (nonlinear_arith)
            requires
                i < n,
                n <= 8 * (blen - start),
        ;
        let byte = bytes[start + i / 8];
        assert(byte == bytes@.skip(start as int)[i as int / 8]);
        let b = (byte >> ((i % 8) as u8)) & 1u8 == 1u8;
        out.push(b);
        i = i + 1;
    }
    proof {
        assert(out@ =~= spec_bits(bytes@.skip(start as int), n as nat));
    }
    out
}

/// Count the cleared bits of an unpacked mask.
pub fn count_nulls(bits: &Vec<bool>) -> (r: usize)
    ensures
        r == nulls_in(bits@),
{
    let mut cnt: usize = 0;
    let mut i: usize = 0;
    while i < bits.len()
        invariant
            i <= bits@.len(),
            cnt <= i,
            cnt == nulls_in(bits@.take(i as int)),
        decreases bits@.len() - i,
    {
        proof {
            assert(bits@.take(i + 1).drop_last() =~= bits@.take(i as int));
            assert(bits@.take(i + 1).last() == bits@[i as int]);
        }
        if !bits[i] {
            cnt = cnt + 1;
        }
        i = i + 1;
    }
    proof {
        assert(bits@.take(bits@.len() as int) =~= bits@);
    }
    cnt
}

} // verus!
