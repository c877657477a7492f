//! Physical value buffers: 64-bit value codec (both endiannesses) and the
//! block-compression frame around each buffer.
//!
//! When a batch declares block compression, every buffer begins with an
//! 8-byte prefix. An all-ones prefix marks a body that is stored
//! uncompressed (the passthrough frame, which this core reads and writes
//! itself); any other prefix marks a codec-compressed body, whose
//! decompression is delegated to a collaborator this core does not bundle
//! and is therefore reported as unsupported rather than guessed at.
use vstd::prelude::*;

use vstd::bytes::{
    lemma_auto_spec_u64_to_from_le_bytes, spec_u64_from_le_bytes, spec_u64_to_le_bytes,
    u64_from_le_bytes, u64_to_le_bytes,
};

use crate::errors::{CorruptionKind, IpcError, UnsupportedKind};

verus! {

/// The block codecs a stream may declare. This core orchestrates when a
/// buffer must be decompressed; it never runs a codec itself.
#[derive(Clone, Copy, Debug, PartialEq, Eq, Structural)]
pub enum Compression {
    Lz4,
    Zstd,
}

/// The length of a compression frame prefix, in bytes.
pub const FRAME_PREFIX_LEN: usize = 8;

/// True when the first `FRAME_PREFIX_LEN` bytes are the all-ones
/// passthrough marker.
pub open spec fn spec_is_passthrough(buf: Seq<u8>) -> bool {
    forall|j: int| 0 <= j < FRAME_PREFIX_LEN ==> buf[j] == 0xFFu8
}

/// The body of buffer `buf` (queue index `at`, for error context) under the
/// given compression setting.
pub open spec fn spec_frame_body(
    buf: Seq<u8>,
    comp: Option<Compression>,
    at: usize,
) -> Result<Seq<u8>, IpcError> {
    match comp {
        None => Ok(buf),
        Some(_) => {
            if buf.len() < FRAME_PREFIX_LEN {
                Err(IpcError::Corruption(CorruptionKind::TruncatedFrame { buffer: at }))
            } else if spec_is_passthrough(buf) {
                Ok(buf.skip(FRAME_PREFIX_LEN as int))
            } else {
                Err(IpcError::UnsupportedFeature(UnsupportedKind::UnknownCodecFrame {
                    buffer: at,
                }))
            }
        },
    }
}

/// The framed form a writer produces: the body as-is without compression,
/// or the passthrough frame around it with compression.
pub open spec fn spec_frame(body: Seq<u8>, comp: Option<Compression>) -> Seq<u8> {
    match comp {
        None => body,
        Some(_) => Seq::new(FRAME_PREFIX_LEN as nat, |j: int| 0xFFu8) + body,
    }
}

/// Reading a frame a matching writer produced yields the body back.
pub proof fn lemma_frame_round_trip(body: Seq<u8>, comp: Option<Compression>, at: usize)
    ensures
        spec_frame_body(spec_frame(body, comp), comp, at) == Ok::<Seq<u8>, IpcError>(body),
{
    match comp {
        None => {},
        Some(_) => {
            let framed = spec_frame(body, comp);
            assert(spec_is_passthrough(framed));
            assert(framed.skip(FRAME_PREFIX_LEN as int) =~= body);
        },
    }
}

/// Locate the body of the popped buffer `buf` within it: the byte offset at
/// which the body starts, after validating the frame.
pub fn frame_body_start(buf: &Vec<u8>, comp: Option<Compression>, at: usize) -> (r: Result<
    usize,
    IpcError,
>)
    ensures
        match r {
            Ok(s) => s <= buf@.len() && spec_frame_body(buf@, comp, at) == Ok::<_, IpcError>(
                buf@.skip(s as int),
            ),
            Err(e) => spec_frame_body(buf@, comp, at) == Err::<Seq<u8>, _>(e),
        },
{
    match comp {
        None => {
            proof {
                assert(buf@.skip(0) =~= buf@);
            }
            Ok(0)
        },
        Some(_) => {
            if buf.len() < FRAME_PREFIX_LEN {
                Err(IpcError::Corruption(CorruptionKind::TruncatedFrame { buffer: at }))
            } else {
                let mut j: usize = 0;
                let mut all_ones = true;
                while j < FRAME_PREFIX_LEN
                    invariant
                        j <= FRAME_PREFIX_LEN,
                        FRAME_PREFIX_LEN <= buf@.len(),
                        all_ones == (forall|k: int| 0 <= k < j ==> buf@[k] == 0xFFu8),
                    decreases FRAME_PREFIX_LEN - j,
                {
                    if buf[j] != 0xFF {
                        all_ones = false;
                    }
                    j = j + 1;
                }
                if all_ones {
                    Ok(FRAME_PREFIX_LEN)
                } else {
                    Err(IpcError::UnsupportedFeature(UnsupportedKind::UnknownCodecFrame {
                        buffer: at,
                    }))
                }
            }
        },
    }
}

/// Wrap an encoded body in the frame the compression setting calls for.
pub fn make_frame(body: Vec<u8>, comp: Option<Compression>) -> (r: Vec<u8>)
    ensures
        r@ == spec_frame(body@, comp),
{
    match comp {
        None => body,
        Some(_) => {
            let mut out: Vec<u8> = Vec::new();
            let mut j: usize = 0;
            while j < FRAME_PREFIX_LEN
                invariant
                    j <= FRAME_PREFIX_LEN,
                    out@.len() == j,
                    forall|k: int| 0 <= k < j ==> out@[k] == 0xFFu8,
                decreases FRAME_PREFIX_LEN - j,
            {
                out.push(0xFF);
                j = j + 1;
            }
            let mut rest = body;
            let ghost body0 = rest@;
            out.append(&mut rest);
            proof {
                assert(out@ =~= spec_frame(body0, comp));
            }
            out
        },
    }
}

/// The signed 64-bit value held by one 8-byte group, in the given byte
/// order.
pub open spec fn spec_i64_from(b: Seq<u8>, little_endian: bool) -> i64 {
    if little_endian {
        spec_u64_from_le_bytes(b) as i64
    } else {
        spec_u64_from_le_bytes(b.reverse()) as i64
    }
}

/// The first `n` 64-bit values of a body.
pub open spec fn spec_i64s(body: Seq<u8>, n: nat, little_endian: bool) -> Seq<i64> {
    Seq::new(n, |i: int| spec_i64_from(body.subrange(8 * i, 8 * i + 8), little_endian))
}

/// The little-endian byte form of a value sequence, as a matching writer
/// lays it out.
pub open spec fn spec_i64s_bytes(values: Seq<i64>) -> Seq<u8>
    decreases values,
{
    if values.len() == 0 {
        Seq::empty()
    } else {
        spec_i64s_bytes(values.drop_last()) + spec_u64_to_le_bytes(values.last() as u64)
    }
}

pub proof fn lemma_i64s_bytes_len(values: Seq<i64>)
    ensures
        spec_i64s_bytes(values).len() == 8 * values.len(),
    decreases values,
{
    lemma_auto_spec_u64_to_from_le_bytes();
    if values.len() > 0 {
        lemma_i64s_bytes_len(values.drop_last());
    }
}

/// Each 8-byte group of the encoded form holds the bytes of its own value.
pub proof fn lemma_i64s_bytes_group(values: Seq<i64>, i: int)
    requires
        0 <= i < values.len(),
    ensures
        spec_i64s_bytes(values).subrange(8 * i, 8 * i + 8) == spec_u64_to_le_bytes(
            values[i] as u64,
        ),
    decreases values,
{
    lemma_auto_spec_u64_to_from_le_bytes();
    lemma_i64s_bytes_len(values);
    lemma_i64s_bytes_len(values.drop_last());
    if i == values.len() - 1 {
        assert(spec_i64s_bytes(values).subrange(8 * i, 8 * i + 8) =~= spec_u64_to_le_bytes(
            values.last() as u64,
        ));
    } else {
        lemma_i64s_bytes_group(values.drop_last(), i);
        assert(spec_i64s_bytes(values).subrange(8 * i, 8 * i + 8) =~= spec_i64s_bytes(
            values.drop_last(),
        ).subrange(8 * i, 8 * i + 8));
    }
}

/// A signed value survives the unsigned detour through the wire form.
pub proof fn lemma_i64_u64_round_trip(v: i64)
    ensures
        (v as u64) as i64 == v,
{
    assert((v as u64) as i64 == v) by (bit_vector);
}

/// Read `n` 64-bit values from `buf`, starting at byte offset `start`.
pub fn read_i64s(buf: &Vec<u8>, start: usize, n: usize, little_endian: bool) -> (r: Vec<i64>)
    requires
        start <= buf@.len(),
        8 * n <= buf@.len() - start,
    ensures
        r@ == spec_i64s(buf@.skip(start as int), n as nat, little_endian),
{
    let mut out: Vec<i64> = Vec::new();
    let mut i: usize = 0;
    let blen = buf.len();
    while i < n
        invariant
            blen == buf@.len(),
            start <= blen,
            8 * n <= blen - start,
            i <= n,
            out@.len() == i,
            forall|k: int|
                0 <= k < i ==> out@[k] == spec_i64_from(
                    buf@.skip(start as int).subrange(8 * k, 8 * k + 8),
                    little_endian,
                ),
        decreases n - i,
    {
        let mut group: Vec<u8> = Vec::new();
        let base = start + 8 * i;
        let mut k: usize = 0;
        while k < 8
            invariant
                blen == buf@.len(),
                base == start + 8 * i,
                8 * n <= blen - start,
                i < n,
                k <= 8,
                group@.len() == k,
                forall|j: int|
                    0 <= j < k ==> group@[j] == (if little_endian {
                        buf@[base + j]
                    } else {
                        buf@[base + 7 - j]
                    }),
            decreases 8 - k,
        {
            if little_endian {
                group.push(buf[base + k]);
            } else {
                group.push(buf[base + 7 - k]);
            }
            k = k + 1;
        }
        let ghost g = buf@.skip(start as int).subrange(8 * i, 8 * i + 8);
        proof {
            if little_endian {
                assert(group@ =~= g);
            } else {
                assert(group@ =~= g.reverse());
            }
        }
        let v = u64_from_le_bytes(group.as_slice());
        out.push(v as i64);
        i = i + 1;
    }
    proof {
        assert(out@ =~= spec_i64s(buf@.skip(start as int), n as nat, little_endian));
    }
    out
}

/// Encode values in the little-endian wire form.
pub fn write_i64s(values: &Vec<i64>) -> (r: Vec<u8>)
    ensures
        r@ == spec_i64s_bytes(values@),
{
    let mut out: Vec<u8> = Vec::new();
    let mut i: usize = 0;
    while i < values.len()
        invariant
            i <= values@.len(),
            out@ == spec_i64s_bytes(values@.take(i as int)),
        decreases values@.len() - i,
    {
        let mut group = u64_to_le_bytes(values[i] as u64);
        proof {
            assert(values@.take(i + 1).drop_last() =~= values@.take(i as int));
            assert(values@.take(i + 1).last() == values@[i as int]);
        }
        out.append(&mut group);
        i = i + 1;
    }
    proof {
        assert(values@.take(values@.len() as int) =~= values@);
    }
    out
}

} // verus!
