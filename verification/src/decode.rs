//! The record-batch decoders: one decode/skip pair per logical-type
//! variant, all driven by a closed dispatcher and a single queue cursor.
//!
//! Every contract here is stated against the specification-level decoder
//! `spec_read` (and `spec_skip`), a mathematical function from the queue
//! contents to the decoded array view or the exact error. The executable
//! decoders are proved to return precisely what the specification decoder
//! says, and to advance the cursor by exactly the node and buffer footprint
//! of the type they decode.
use vstd::prelude::*;

use crate::arrays::{
    array_view, clone_array, len_v, spec_dict_lookup, validity_view, views_of, Array, ArrayResult,
    ArrayV, Dictionaries,
};
use crate::bitmap::{spec_bitmap_bytes, spec_bits, unpack_bits};
use crate::buffers::{frame_body_start, spec_frame_body, spec_i64s, read_i64s, Compression};
use crate::cursor::{BatchCursor, FieldNode};
use crate::dtypes::{buffer_count, buffer_count_children, node_count, node_count_children, LogicalType};
use crate::errors::{CorruptionKind, IpcError, MismatchKind, UnsupportedKind};

verus! {

/// The format version of the stream. Both supported versions share the
/// node/buffer layout decoded here; the version is threaded through so a
/// caller states which one the stream declares.
#[derive(Clone, Copy, Debug, PartialEq, Eq, Structural)]
pub enum Version {
    V4,
    V5,
}

/// How many logical rows a decoder materializes for a node of declared
/// length `decl` under `limit`.
pub open spec fn spec_out_len(decl: nat, limit: Option<usize>) -> nat {
    match limit {
        None => decl,
        Some(l) => if (l as nat) < decl {
            l as nat
        } else {
            decl
        },
    }
}

pub open spec fn spec_saturating_mul(a: usize, b: usize) -> usize {
    if a * b > usize::MAX {
        usize::MAX
    } else {
        (a * b) as usize
    }
}

/// The limit handed to a fixed-size list's child: rows times width,
/// saturating so pathological widths cannot overflow.
pub open spec fn spec_scale_limit(limit: Option<usize>, size: usize) -> Option<usize> {
    match limit {
        None => None,
        Some(l) => Some(spec_saturating_mul(l, size)),
    }
}

/// What the validity reader yields for the node at hand and the buffer at
/// queue position `bp`: no mask when the node declares no nulls (the buffer
/// slot is still consumed), otherwise the unpacked mask truncated to the
/// limited length. The bitmap must cover the full declared length.
pub open spec fn spec_validity(
    node: FieldNode,
    bufs: Seq<Seq<u8>>,
    bp: int,
    comp: Option<Compression>,
    limit: Option<usize>,
) -> Result<Option<Seq<bool>>, IpcError> {
    if !(0 <= bp < bufs.len()) {
        Err(IpcError::Corruption(CorruptionKind::MissingBuffer { at: bp as usize }))
    } else if node.null_count == 0 {
        Ok(None)
    } else {
        match spec_frame_body(bufs[bp], comp, bp as usize) {
            Err(e) => Err(e),
            Ok(body) => {
                if body.len() < spec_bitmap_bytes(node.length as nat) {
                    Err(IpcError::Corruption(CorruptionKind::ShortBitmap { buffer: bp as usize }))
                } else {
                    Ok(Some(spec_bits(body, spec_out_len(node.length as nat, limit))))
                }
            },
        }
    }
}

/// The 64-bit values (or dictionary keys) read from the buffer at `bp`:
/// the limited count of values, each in the stream's byte order.
pub open spec fn spec_i64_values(
    node: FieldNode,
    bufs: Seq<Seq<u8>>,
    bp: int,
    comp: Option<Compression>,
    limit: Option<usize>,
    little_endian: bool,
) -> Result<Seq<i64>, IpcError> {
    if !(0 <= bp < bufs.len()) {
        Err(IpcError::Corruption(CorruptionKind::MissingBuffer { at: bp as usize }))
    } else {
        match spec_frame_body(bufs[bp], comp, bp as usize) {
            Err(e) => Err(e),
            Ok(body) => {
                let n = spec_out_len(node.length as nat, limit);
                if body.len() < 8 * n {
                    Err(IpcError::Corruption(CorruptionKind::ShortValues { buffer: bp as usize }))
                } else {
                    Ok(spec_i64s(body, n, little_endian))
                }
            },
        }
    }
}

/// Bit-packed boolean values read from the buffer at `bp`; the buffer must
/// cover the declared length, the result is truncated to the limited one.
pub open spec fn spec_bool_values(
    node: FieldNode,
    bufs: Seq<Seq<u8>>,
    bp: int,
    comp: Option<Compression>,
    limit: Option<usize>,
) -> Result<Seq<bool>, IpcError> {
    if !(0 <= bp < bufs.len()) {
        Err(IpcError::Corruption(CorruptionKind::MissingBuffer { at: bp as usize }))
    } else {
        match spec_frame_body(bufs[bp], comp, bp as usize) {
            Err(e) => Err(e),
            Ok(body) => {
                if body.len() < spec_bitmap_bytes(node.length as nat) {
                    Err(IpcError::Corruption(CorruptionKind::ShortValues { buffer: bp as usize }))
                } else {
                    Ok(spec_bits(body, spec_out_len(node.length as nat, limit)))
                }
            },
        }
    }
}

/// The specification-level decoder: what decoding a column of type `t`
/// yields from node position `np` and buffer position `bp` on. Every
/// executable decoder is proved against this function.
pub open spec fn spec_read(
    t: LogicalType,
    nodes: Seq<FieldNode>,
    np: int,
    bufs: Seq<Seq<u8>>,
    bp: int,
    little_endian: bool,
    comp: Option<Compression>,
    limit: Option<usize>,
    dicts: Seq<(u64, ArrayV)>,
) -> Result<ArrayV, IpcError>
    decreases t, 1int,
{
    if !(0 <= np < nodes.len()) {
        Err(IpcError::Corruption(CorruptionKind::MissingNode { at: np as usize }))
    } else {
        let node = nodes[np];
        match spec_validity(node, bufs, bp, comp, limit) {
            Err(e) => Err(e),
            Ok(validity) => {
                let out_len = spec_out_len(node.length as nat, limit);
                match t {
                    LogicalType::Int64 => match spec_i64_values(
                        node,
                        bufs,
                        bp + 1,
                        comp,
                        limit,
                        little_endian,
                    ) {
                        Err(e) => Err(e),
                        Ok(values) => Ok(ArrayV::Int64 { validity, values }),
                    },
                    LogicalType::Boolean => match spec_bool_values(node, bufs, bp + 1, comp, limit) {
                        Err(e) => Err(e),
                        Ok(values) => Ok(ArrayV::Boolean { validity, values }),
                    },
                    LogicalType::FixedSizeList(size, child_t) => {
                        if size == 0 {
                            Err(IpcError::UnsupportedFeature(
                                UnsupportedKind::ZeroWidthFixedSizeList,
                            ))
                        } else {
                            match spec_read(
                                *child_t,
                                nodes,
                                np + 1,
                                bufs,
                                bp + 1,
                                little_endian,
                                comp,
                                spec_scale_limit(limit, size),
                                dicts,
                            ) {
                                Err(e) => Err(e),
                                Ok(child) => {
                                    let clen = len_v(child);
                                    if clen % (size as nat) != 0 {
                                        Err(IpcError::IntegrityMismatch(
                                            MismatchKind::ChildLengthNotMultiple { size },
                                        ))
                                    } else if clen / (size as nat) != out_len {
                                        Err(IpcError::IntegrityMismatch(
                                            MismatchKind::DeclaredLengthMismatch {
                                                expected: out_len as usize,
                                                found: (clen / (size as nat)) as usize,
                                            },
                                        ))
                                    } else {
                                        Ok(ArrayV::FixedSizeList {
                                            size: size as nat,
                                            len: out_len,
                                            validity,
                                            child: Box::new(child),
                                        })
                                    }
                                },
                            }
                        }
                    },
                    LogicalType::Struct(children_t) => {
                        match spec_read_children(
                            children_t@,
                            nodes,
                            np + 1,
                            bufs,
                            bp + 1,
                            little_endian,
                            comp,
                            limit,
                            out_len,
                            dicts,
                        ) {
                            Err(e) => Err(e),
                            Ok(children) => Ok(ArrayV::Struct { len: out_len, validity, children }),
                        }
                    },
                    LogicalType::Dictionary(id, _) => match spec_i64_values(
                        node,
                        bufs,
                        bp + 1,
                        comp,
                        limit,
                        little_endian,
                    ) {
                        Err(e) => Err(e),
                        Ok(keys) => match spec_dict_lookup(dicts, id) {
                            None => Err(IpcError::DictionaryMissing { id }),
                            Some(values) => Ok(ArrayV::Dictionary {
                                validity,
                                keys,
                                values: Box::new(values),
                            }),
                        },
                    },
                }
            },
        }
    }
}

/// Decode the children of a struct column in order, each with the same
/// limit, each required to land on the struct's own limited length.
pub open spec fn spec_read_children(
    ts: Seq<LogicalType>,
    nodes: Seq<FieldNode>,
    np: int,
    bufs: Seq<Seq<u8>>,
    bp: int,
    little_endian: bool,
    comp: Option<Compression>,
    limit: Option<usize>,
    expected_len: nat,
    dicts: Seq<(u64, ArrayV)>,
) -> Result<Seq<ArrayV>, IpcError>
    decreases ts, 0int,
{
    if ts.len() == 0 {
        Ok(Seq::empty())
    } else {
        match spec_read(ts[0], nodes, np, bufs, bp, little_endian, comp, limit, dicts) {
            Err(e) => Err(e),
            Ok(a) => {
                if len_v(a) != expected_len {
                    Err(IpcError::IntegrityMismatch(MismatchKind::ChildLengthMismatch {
                        expected: expected_len as usize,
                        found: len_v(a) as usize,
                    }))
                } else {
                    match spec_read_children(
                        ts.drop_first(),
                        nodes,
                        np + node_count(ts[0]),
                        bufs,
                        bp + buffer_count(ts[0]),
                        little_endian,
                        comp,
                        limit,
                        expected_len,
                        dicts,
                    ) {
                        Err(e) => Err(e),
                        Ok(rest) => Ok(Seq::empty().push(a) + rest),
                    }
                }
            },
        }
    }
}

/// The specification-level skip walker: consumes exactly the node and
/// buffer slots that `spec_read` would, materializing nothing. A
/// zero-width fixed-size list is rejected as unsupported, just as in
/// decode.
pub open spec fn spec_skip(
    t: LogicalType,
    nodes: Seq<FieldNode>,
    np: int,
    bufs: Seq<Seq<u8>>,
    bp: int,
) -> Result<(), IpcError>
    decreases t, 1int,
{
    if !(0 <= np < nodes.len()) {
        Err(IpcError::Corruption(CorruptionKind::MissingNode { at: np as usize }))
    } else if !(0 <= bp < bufs.len()) {
        Err(IpcError::Corruption(CorruptionKind::MissingBuffer { at: bp as usize }))
    } else {
        match t {
            LogicalType::Int64 | LogicalType::Boolean | LogicalType::Dictionary(_, _) => {
                if !(bp + 1 < bufs.len()) {
                    Err(IpcError::Corruption(CorruptionKind::MissingBuffer {
                        at: (bp + 1) as usize,
                    }))
                } else {
                    Ok(())
                }
            },
            LogicalType::FixedSizeList(size, child_t) => {
                if size == 0 {
                    Err(IpcError::UnsupportedFeature(UnsupportedKind::ZeroWidthFixedSizeList))
                } else {
                    spec_skip(*child_t, nodes, np + 1, bufs, bp + 1)
                }
            },
            LogicalType::Struct(children_t) => spec_skip_children(
                children_t@,
                nodes,
                np + 1,
                bufs,
                bp + 1,
            ),
        }
    }
}

pub open spec fn spec_skip_children(
    ts: Seq<LogicalType>,
    nodes: Seq<FieldNode>,
    np: int,
    bufs: Seq<Seq<u8>>,
    bp: int,
) -> Result<(), IpcError>
    decreases ts, 0int,
{
    if ts.len() == 0 {
        Ok(())
    } else {
        match spec_skip(ts[0], nodes, np, bufs, bp) {
            Err(e) => Err(e),
            Ok(()) => spec_skip_children(
                ts.drop_first(),
                nodes,
                np + node_count(ts[0]),
                bufs,
                bp + buffer_count(ts[0]),
            ),
        }
    }
}

/// Saturating product, for scaling a row limit through a nested width.
pub fn saturating_mul_usize(a: usize, b: usize) -> (r: usize)
    ensures
        r == spec_saturating_mul(a, b),
{
    match a.checked_mul(b) {
        Some(v) => v,
        None => usize::MAX,
    }
}

pub fn scale_limit(limit: Option<usize>, size: usize) -> (r: Option<usize>)
    ensures
        r == spec_scale_limit(limit, size),
{
    match limit {
        None => None,
        Some(l) => Some(saturating_mul_usize(l, size)),
    }
}

pub fn out_len_of(decl: usize, limit: Option<usize>) -> (r: usize)
    ensures
        r == spec_out_len(decl as nat, limit),
{
    match limit {
        None => decl,
        Some(l) => if l < decl {
            l
        } else {
            decl
        },
    }
}

/// Decode the optional validity bitmap for `node`, consuming exactly one
/// buffer slot whether or not the node declares nulls.
pub fn read_validity(
    cursor: &mut BatchCursor,
    node: FieldNode,
    compression: Option<Compression>,
    limit: Option<usize>,
) -> (r: Result<Option<Vec<bool>>, IpcError>)
    requires
        old(cursor).wf(),
    ensures
        final(cursor).wf(),
        final(cursor).nodes == old(cursor).nodes,
        final(cursor).buffers == old(cursor).buffers,
        final(cursor).node_pos == old(cursor).node_pos,
        match r {
            Ok(v) => {
                &&& spec_validity(
                    node,
                    old(cursor).bufs(),
                    old(cursor).buffer_pos as int,
                    compression,
                    limit,
                ) == Ok::<_, IpcError>(validity_view(v))
                &&& final(cursor).buffer_pos == old(cursor).buffer_pos + 1
            },
            Err(e) => spec_validity(
                node,
                old(cursor).bufs(),
                old(cursor).buffer_pos as int,
                compression,
                limit,
            ) == Err::<Option<Seq<bool>>, _>(e),
        },
{
    let bi = match cursor.pop_buffer() {
        Ok(i) => i,
        Err(e) => {
            return Err(e);
        },
    };
    if node.null_count == 0 {
        return Ok(None);
    }
    let buf = &cursor.buffers[bi];
    proof {
        assert(buf@ == old(cursor).bufs()[bi as int]);
    }
    let start = match frame_body_start(buf, compression, bi) {
        Ok(s) => s,
        Err(e) => {
            return Err(e);
        },
    };
    let avail = buf.len() - start;
    let needed = node.length / 8 + if node.length % 8 == 0 {
        0
    } else {
        1
    };
    if avail < needed {
        return Err(IpcError::Corruption(CorruptionKind::ShortBitmap { buffer: bi }));
    }
    let n = out_len_of(node.length, limit);
    proof {
        assert(n <= node.length);
        assert(node.length <= 8 * needed);
    }
    let bits = unpack_bits(buf, start, n);
    Ok(Some(bits))
}

/// Decode `node`'s 64-bit values (or dictionary keys), consuming exactly
/// one buffer slot.
pub fn read_i64_values(
    cursor: &mut BatchCursor,
    node: FieldNode,
    compression: Option<Compression>,
    limit: Option<usize>,
    little_endian: bool,
) -> (r: Result<Vec<i64>, IpcError>)
    requires
        old(cursor).wf(),
    ensures
        final(cursor).wf(),
        final(cursor).nodes == old(cursor).nodes,
        final(cursor).buffers == old(cursor).buffers,
        final(cursor).node_pos == old(cursor).node_pos,
        match r {
            Ok(v) => {
                &&& spec_i64_values(
                    node,
                    old(cursor).bufs(),
                    old(cursor).buffer_pos as int,
                    compression,
                    limit,
                    little_endian,
                ) == Ok::<_, IpcError>(v@)
                &&& final(cursor).buffer_pos == old(cursor).buffer_pos + 1
            },
            Err(e) => spec_i64_values(
                node,
                old(cursor).bufs(),
                old(cursor).buffer_pos as int,
                compression,
                limit,
                little_endian,
            ) == Err::<Seq<i64>, _>(e),
        },
{
    let bi = match cursor.pop_buffer() {
        Ok(i) => i,
        Err(e) => {
            return Err(e);
        },
    };
    let buf = &cursor.buffers[bi];
    proof {
        assert(buf@ == old(cursor).bufs()[bi as int]);
    }
    let start = match frame_body_start(buf, compression, bi) {
        Ok(s) => s,
        Err(e) => {
            return Err(e);
        },
    };
    let avail = buf.len() - start;
    let n = out_len_of(node.length, limit);
    if n > avail / 8 {
        proof {
            assert(8 * (n as int) > avail) by (nonlinear_arith)
                requires
                    n > avail / 8,
            ;
        }
        return Err(IpcError::Corruption(CorruptionKind::ShortValues { buffer: bi }));
    }
    proof {
        assert(8 * (n as int) <= avail) by (nonlinear_arith)
            requires
                n <= avail / 8,
        ;
    }
    let values = read_i64s(buf, start, n, little_endian);
    Ok(values)
}

/// Decode `node`'s bit-packed boolean values, consuming exactly one buffer
/// slot.
pub fn read_bool_values(
    cursor: &mut BatchCursor,
    node: FieldNode,
    compression: Option<Compression>,
    limit: Option<usize>,
) -> (r: Result<Vec<bool>, IpcError>)
    requires
        old(cursor).wf(),
    ensures
        final(cursor).wf(),
        final(cursor).nodes == old(cursor).nodes,
        final(cursor).buffers == old(cursor).buffers,
        final(cursor).node_pos == old(cursor).node_pos,
        match r {
            Ok(v) => {
                &&& spec_bool_values(
                    node,
                    old(cursor).bufs(),
                    old(cursor).buffer_pos as int,
                    compression,
                    limit,
                ) == Ok::<_, IpcError>(v@)
                &&& final(cursor).buffer_pos == old(cursor).buffer_pos + 1
            },
            Err(e) => spec_bool_values(
                node,
                old(cursor).bufs(),
                old(cursor).buffer_pos as int,
                compression,
                limit,
            ) == Err::<Seq<bool>, _>(e),
        },
{
    let bi = match cursor.pop_buffer() {
        Ok(i) => i,
        Err(e) => {
            return Err(e);
        },
    };
    let buf = &cursor.buffers[bi];
    proof {
        assert(buf@ == old(cursor).bufs()[bi as int]);
    }
    let start = match frame_body_start(buf, compression, bi) {
        Ok(s) => s,
        Err(e) => {
            return Err(e);
        },
    };
    let avail = buf.len() - start;
    let needed = node.length / 8 + if node.length % 8 == 0 {
        0
    } else {
        1
    };
    if avail < needed {
        return Err(IpcError::Corruption(CorruptionKind::ShortValues { buffer: bi }));
    }
    let n = out_len_of(node.length, limit);
    proof {
        assert(n <= node.length);
        assert(node.length <= 8 * needed);
    }
    let bits = unpack_bits(buf, start, n);
    Ok(bits)
}

/// What every decode function promises: its result is exactly what the
/// specification decoder says for the cursor state it was handed, and on
/// success the cursor advanced by exactly the type's node and buffer
/// footprint.
pub open spec fn read_post(
    r: ArrayResult,
    t: LogicalType,
    pre: BatchCursor,
    post: BatchCursor,
    little_endian: bool,
    comp: Option<Compression>,
    limit: Option<usize>,
    dicts: Seq<(u64, ArrayV)>,
) -> bool {
    &&& post.wf()
    &&& post.nodes == pre.nodes
    &&& post.buffers == pre.buffers
    &&& match r {
        Ok(a) => {
            &&& spec_read(
                t,
                pre.nodes@,
                pre.node_pos as int,
                pre.bufs(),
                pre.buffer_pos as int,
                little_endian,
                comp,
                limit,
                dicts,
            ) == Ok::<_, IpcError>(a@)
            &&& post.node_pos == pre.node_pos + node_count(t)
            &&& post.buffer_pos == pre.buffer_pos + buffer_count(t)
        },
        Err(e) => spec_read(
            t,
            pre.nodes@,
            pre.node_pos as int,
            pre.bufs(),
            pre.buffer_pos as int,
            little_endian,
            comp,
            limit,
            dicts,
        ) == Err::<ArrayV, _>(e),
    }
}

/// The skip walkers' promise, mirroring `read_post`.
pub open spec fn skip_post(
    r: Result<(), IpcError>,
    t: LogicalType,
    pre: BatchCursor,
    post: BatchCursor,
) -> bool {
    &&& post.wf()
    &&& post.nodes == pre.nodes
    &&& post.buffers == pre.buffers
    &&& match r {
        Ok(_) => {
            &&& spec_skip(t, pre.nodes@, pre.node_pos as int, pre.bufs(), pre.buffer_pos as int)
                == Ok::<(), IpcError>(())
            &&& post.node_pos == pre.node_pos + node_count(t)
            &&& post.buffer_pos == pre.buffer_pos + buffer_count(t)
        },
        Err(e) => spec_skip(t, pre.nodes@, pre.node_pos as int, pre.bufs(), pre.buffer_pos as int)
            == Err::<(), _>(e),
    }
}

pub open spec fn compose_children(
    prefix: Seq<ArrayV>,
    rest: Result<Seq<ArrayV>, IpcError>,
) -> Result<Seq<ArrayV>, IpcError> {
    match rest {
        Ok(r) => Ok(prefix + r),
        Err(e) => Err(e),
    }
}

/// The dispatcher over all logical-type variants: decode one column (and
/// every nested descendant) of type `dtype`, consuming its nodes and
/// buffers from the cursor.
pub fn read(
    cursor: &mut BatchCursor,
    dtype: &LogicalType,
    dicts: &Dictionaries,
    is_little_endian: bool,
    compression: Option<Compression>,
    limit: Option<usize>,
    version: Version,
) -> (r: ArrayResult)
    requires
        old(cursor).wf(),
    ensures
        read_post(
            r,
            *dtype,
            *old(cursor),
            *final(cursor),
            is_little_endian,
            compression,
            limit,
            dicts@,
        ),
    decreases *dtype, 1int,
{
    match dtype {
        LogicalType::Int64 => {
            let node = match cursor.pop_node() {
                Ok(n) => n,
                Err(e) => {
                    return Err(e);
                },
            };
            let validity = match read_validity(cursor, node, compression, limit) {
                Ok(v) => v,
                Err(e) => {
                    return Err(e);
                },
            };
            let values = match read_i64_values(cursor, node, compression, limit, is_little_endian) {
                Ok(v) => v,
                Err(e) => {
                    return Err(e);
                },
            };
            Ok(Array::Int64 { validity, values })
        },
        LogicalType::Boolean => {
            let node = match cursor.pop_node() {
                Ok(n) => n,
                Err(e) => {
                    return Err(e);
                },
            };
            let validity = match read_validity(cursor, node, compression, limit) {
                Ok(v) => v,
                Err(e) => {
                    return Err(e);
                },
            };
            let values = match read_bool_values(cursor, node, compression, limit) {
                Ok(v) => v,
                Err(e) => {
                    return Err(e);
                },
            };
            Ok(Array::Boolean { validity, values })
        },
        LogicalType::FixedSizeList(_, _) => read_fixed_size_list(
            cursor,
            dtype,
            dicts,
            is_little_endian,
            compression,
            limit,
            version,
        ),
        LogicalType::Struct(_) => read_struct(
            cursor,
            dtype,
            dicts,
            is_little_endian,
            compression,
            limit,
            version,
        ),
        LogicalType::Dictionary(id, _) => {
            let node = match cursor.pop_node() {
                Ok(n) => n,
                Err(e) => {
                    return Err(e);
                },
            };
            let validity = match read_validity(cursor, node, compression, limit) {
                Ok(v) => v,
                Err(e) => {
                    return Err(e);
                },
            };
            let keys = match read_i64_values(cursor, node, compression, limit, is_little_endian) {
                Ok(v) => v,
                Err(e) => {
                    return Err(e);
                },
            };
            match dicts.get(*id) {
                None => Err(IpcError::DictionaryMissing { id: *id }),
                Some(arr) => Ok(Array::Dictionary {
                    validity,
                    keys,
                    values: Box::new(clone_array(arr)),
                }),
            }
        },
    }
}

/// Decode one fixed-size-list column: pop this level's node, decode the
/// validity mask, reject a zero width, scale the row limit by the width,
/// recurse into the child, and validate the child length against both the
/// width and the declared length.
#[verifier::loop_isolation(false)]
pub fn read_fixed_size_list(
    cursor: &mut BatchCursor,
    dtype: &LogicalType,
    dicts: &Dictionaries,
    is_little_endian: bool,
    compression: Option<Compression>,
    limit: Option<usize>,
    version: Version,
) -> (r: ArrayResult)
    requires
        old(cursor).wf(),
        *dtype matches LogicalType::FixedSizeList(_, _),
    ensures
        read_post(
            r,
            *dtype,
            *old(cursor),
            *final(cursor),
            is_little_endian,
            compression,
            limit,
            dicts@,
        ),
    decreases *dtype, 0int,
{
    match dtype {
        LogicalType::FixedSizeList(size, child_t) => {
            let node = match cursor.pop_node() {
                Ok(n) => n,
                Err(e) => {
                    return Err(e);
                },
            };
            let validity = match read_validity(cursor, node, compression, limit) {
                Ok(v) => v,
                Err(e) => {
                    return Err(e);
                },
            };
            if *size == 0 {
                return Err(IpcError::UnsupportedFeature(UnsupportedKind::ZeroWidthFixedSizeList));
            }
            let child_limit = scale_limit(limit, *size);
            let child = match read(
                cursor,
                child_t,
                dicts,
                is_little_endian,
                compression,
                child_limit,
                version,
            ) {
                Ok(c) => c,
                Err(e) => {
                    return Err(e);
                },
            };
            let clen = child.len();
            if clen % *size != 0 {
                return Err(IpcError::IntegrityMismatch(MismatchKind::ChildLengthNotMultiple {
                    size: *size,
                }));
            }
            let computed = clen / *size;
            let expected = out_len_of(node.length, limit);
            if computed != expected {
                return Err(IpcError::IntegrityMismatch(MismatchKind::DeclaredLengthMismatch {
                    expected,
                    found: computed,
                }));
            }
            Ok(Array::FixedSizeList { size: *size, len: computed, validity, child: Box::new(child) })
        },
        _ => {
            // unreachable: the precondition fixes the variant
            proof {
                assert(false);
            }
            Err(IpcError::UnsupportedFeature(UnsupportedKind::ZeroWidthFixedSizeList))
        },
    }
}

/// Decode one struct column: pop this level's node, decode the validity
/// mask, then decode every child with the same limit, requiring each to
/// land on the struct's own limited length.
#[verifier::loop_isolation(false)]
pub fn read_struct(
    cursor: &mut BatchCursor,
    dtype: &LogicalType,
    dicts: &Dictionaries,
    is_little_endian: bool,
    compression: Option<Compression>,
    limit: Option<usize>,
    version: Version,
) -> (r: ArrayResult)
    requires
        old(cursor).wf(),
        *dtype matches LogicalType::Struct(_),
    ensures
        read_post(
            r,
            *dtype,
            *old(cursor),
            *final(cursor),
            is_little_endian,
            compression,
            limit,
            dicts@,
        ),
    decreases *dtype, 0int,
{
    match dtype {
        LogicalType::Struct(children_t) => {
            let node = match cursor.pop_node() {
                Ok(n) => n,
                Err(e) => {
                    return Err(e);
                },
            };
            let validity = match read_validity(cursor, node, compression, limit) {
                Ok(v) => v,
                Err(e) => {
                    return Err(e);
                },
            };
            let expected = out_len_of(node.length, limit);
            let ghost np0 = cursor.node_pos as int;
            let ghost bp0 = cursor.buffer_pos as int;
            let ghost ts = children_t@;
            let mut out: Vec<Array> = Vec::new();
            let mut j: usize = 0;
            proof {
                assert(ts.skip(0) =~= ts);
            }
            while j < children_t.len()
                invariant
                    j <= ts.len(),
                    out@.len() == j,
                    cursor.wf(),
                    cursor.nodes == old(cursor).nodes,
                    cursor.buffers == old(cursor).buffers,
                    cursor.node_pos as int == np0 + node_count_children(ts) - node_count_children(
                        ts.skip(j as int),
                    ),
                    cursor.buffer_pos as int == bp0 + buffer_count_children(ts)
                        - buffer_count_children(ts.skip(j as int)),
                    spec_read_children(
                        ts,
                        cursor.nodes@,
                        np0,
                        cursor.bufs(),
                        bp0,
                        is_little_endian,
                        compression,
                        limit,
                        expected as nat,
                        dicts@,
                    ) == compose_children(
                        views_of(out@),
                        spec_read_children(
                            ts.skip(j as int),
                            cursor.nodes@,
                            cursor.node_pos as int,
                            cursor.bufs(),
                            cursor.buffer_pos as int,
                            is_little_endian,
                            compression,
                            limit,
                            expected as nat,
                            dicts@,
                        ),
                    ),
                decreases ts.len() - j,
            {
                proof {
                    assert(ts.skip(j as int)[0] == ts[j as int]);
                    assert(ts.skip(j as int).drop_first() =~= ts.skip(j + 1));
                    assert(dtype->Struct_0 == *children_t);
                    assert(decreases_to!(*dtype => dtype->Struct_0@[j as int]));
                }
                let a = match read(
                    cursor,
                    &children_t[j],
                    dicts,
                    is_little_endian,
                    compression,
                    limit,
                    version,
                ) {
                    Ok(a) => a,
                    Err(e) => {
                        return Err(e);
                    },
                };
                let alen = a.len();
                if alen != expected {
                    return Err(IpcError::IntegrityMismatch(MismatchKind::ChildLengthMismatch {
                        expected,
                        found: alen,
                    }));
                }
                let ghost out_old = out@;
                out.push(a);
                proof {
                    assert(out@.drop_last() =~= out_old);
                    assert(views_of(out@.drop_last()) == views_of(out_old));
                    assert(views_of(out@) == views_of(out_old).push(array_view(out@.last())));
                    let restr = spec_read_children(
                        ts.skip(j + 1),
                        cursor.nodes@,
                        cursor.node_pos as int,
                        cursor.bufs(),
                        cursor.buffer_pos as int,
                        is_little_endian,
                        compression,
                        limit,
                        expected as nat,
                        dicts@,
                    );
                    if restr is Ok {
                        let rest = restr->Ok_0;
                        assert(views_of(out_old) + (Seq::empty().push(array_view(out@.last()))
                            + rest) =~= views_of(out@) + rest);
                    }
                }
                j = j + 1;
            }
            proof {
                assert(ts.skip(ts.len() as int).len() == 0);
                assert(views_of(out@) + Seq::<ArrayV>::empty() =~= views_of(out@));
            }
            Ok(Array::Struct { len: expected, validity, children: out })
        },
        _ => {
            // unreachable: the precondition fixes the variant
            proof {
                assert(false);
            }
            Err(IpcError::UnsupportedFeature(UnsupportedKind::ZeroWidthFixedSizeList))
        },
    }
}

/// The skip dispatcher: structurally mirror `read`, consuming exactly the
/// same node and buffer slots, materializing nothing. Used to keep the
/// queues aligned when a column is not projected.
pub fn skip(cursor: &mut BatchCursor, dtype: &LogicalType) -> (r: Result<(), IpcError>)
    requires
        old(cursor).wf(),
    ensures
        skip_post(r, *dtype, *old(cursor), *final(cursor)),
    decreases *dtype, 1int,
{
    match dtype {
        LogicalType::FixedSizeList(_, _) => skip_fixed_size_list(cursor, dtype),
        LogicalType::Struct(_) => skip_struct(cursor, dtype),
        _ => {
            match cursor.pop_node() {
                Ok(_) => {},
                Err(e) => {
                    return Err(e);
                },
            }
            match cursor.pop_buffer() {
                Ok(_) => {},
                Err(e) => {
                    return Err(e);
                },
            }
            match cursor.pop_buffer() {
                Ok(_) => {},
                Err(e) => {
                    return Err(e);
                },
            }
            Ok(())
        },
    }
}

/// Skip one fixed-size-list column: pop exactly the node and the validity
/// slot that decode would, reject a zero width just as decode does, then
/// skip the child, so queue alignment is preserved for whatever column is
/// decoded next.
pub fn skip_fixed_size_list(cursor: &mut BatchCursor, dtype: &LogicalType) -> (r: Result<
    (),
    IpcError,
>)
    requires
        old(cursor).wf(),
        *dtype matches LogicalType::FixedSizeList(_, _),
    ensures
        skip_post(r, *dtype, *old(cursor), *final(cursor)),
    decreases *dtype, 0int,
{
    match dtype {
        LogicalType::FixedSizeList(size, child_t) => {
            match cursor.pop_node() {
                Ok(_) => {},
                Err(e) => {
                    return Err(e);
                },
            }
            match cursor.pop_buffer() {
                Ok(_) => {},
                Err(e) => {
                    return Err(e);
                },
            }
            if *size == 0 {
                return Err(IpcError::UnsupportedFeature(UnsupportedKind::ZeroWidthFixedSizeList));
            }
            skip(cursor, child_t)
        },
        _ => {
            // unreachable: the precondition fixes the variant
            proof {
                assert(false);
            }
            Ok(())
        },
    }
}

/// Skip one struct column and all its children.
#[verifier::loop_isolation(false)]
pub fn skip_struct(cursor: &mut BatchCursor, dtype: &LogicalType) -> (r: Result<(), IpcError>)
    requires
        old(cursor).wf(),
        *dtype matches LogicalType::Struct(_),
    ensures
        skip_post(r, *dtype, *old(cursor), *final(cursor)),
    decreases *dtype, 0int,
{
    match dtype {
        LogicalType::Struct(children_t) => {
            match cursor.pop_node() {
                Ok(_) => {},
                Err(e) => {
                    return Err(e);
                },
            }
            match cursor.pop_buffer() {
                Ok(_) => {},
                Err(e) => {
                    return Err(e);
                },
            }
            let ghost np0 = cursor.node_pos as int;
            let ghost bp0 = cursor.buffer_pos as int;
            let ghost ts = children_t@;
            let mut j: usize = 0;
            proof {
                assert(ts.skip(0) =~= ts);
            }
            while j < children_t.len()
                invariant
                    j <= ts.len(),
                    cursor.wf(),
                    cursor.nodes == old(cursor).nodes,
                    cursor.buffers == old(cursor).buffers,
                    cursor.node_pos as int == np0 + node_count_children(ts) - node_count_children(
                        ts.skip(j as int),
                    ),
                    cursor.buffer_pos as int == bp0 + buffer_count_children(ts)
                        - buffer_count_children(ts.skip(j as int)),
                    spec_skip_children(ts, cursor.nodes@, np0, cursor.bufs(), bp0)
                        == spec_skip_children(
                        ts.skip(j as int),
                        cursor.nodes@,
                        cursor.node_pos as int,
                        cursor.bufs(),
                        cursor.buffer_pos as int,
                    ),
                decreases ts.len() - j,
            {
                proof {
                    assert(ts.skip(j as int)[0] == ts[j as int]);
                    assert(ts.skip(j as int).drop_first() =~= ts.skip(j + 1));
                    assert(dtype->Struct_0 == *children_t);
                    assert(decreases_to!(*dtype => dtype->Struct_0@[j as int]));
                }
                match skip(cursor, &children_t[j]) {
                    Ok(_) => {},
                    Err(e) => {
                        return Err(e);
                    },
                }
                j = j + 1;
            }
            proof {
                assert(ts.skip(ts.len() as int).len() == 0);
            }
            Ok(())
        },
        _ => {
            // unreachable: the precondition fixes the variant
            proof {
                assert(false);
            }
            Ok(())
        },
    }
}

} // verus!
