//! The laws of the decoder, stated and proved over the specification-level
//! model that every executable decoder is verified against.
use vstd::prelude::*;

use crate::arrays::{
    len_v, spec_dict_lookup, truncate_v, validity_of, validity_wf, wf_children, wf_v, ArrayV,
};
use crate::bitmap::{lemma_nulls_in_le, nulls_in, spec_bitmap_bytes, spec_bits};
use crate::buffers::{
    lemma_frame_round_trip, lemma_i64_u64_round_trip, lemma_i64s_bytes_group,
    lemma_i64s_bytes_len, spec_frame, spec_frame_body, spec_i64s, spec_i64s_bytes, Compression,
};
use crate::cursor::FieldNode;
use crate::decode::{
    spec_bool_values, spec_i64_values, spec_out_len, spec_read, spec_read_children, spec_skip,
    spec_skip_children, spec_validity,
};
use crate::dtypes::{
    buffer_count, buffer_count_children, node_count, node_count_children, LogicalType,
};
use crate::encode::{
    enc_bufs, enc_bufs_children, enc_node, enc_nodes, enc_nodes_children, enc_validity_buf,
    lemma_unpack_pack, spec_pack,
};
use crate::errors::{IpcError, UnsupportedKind};
use vstd::bytes::lemma_auto_spec_u64_to_from_le_bytes;

verus! {

/// The array view `a` has the shape that decoding a column of type `t`
/// against the registry `dicts` can produce: variants line up, nested
/// widths line up, and every dictionary id resolves to exactly the values
/// array held here.
pub open spec fn matches_type(a: ArrayV, t: LogicalType, dicts: Seq<(u64, ArrayV)>) -> bool
    decreases t, 1int,
{
    match t {
        LogicalType::Int64 => a is Int64,
        LogicalType::Boolean => a is Boolean,
        LogicalType::FixedSizeList(w, ct) => a matches ArrayV::FixedSizeList { size, child, .. }
            && size == w as nat && matches_type(*child, *ct, dicts),
        LogicalType::Struct(ts) => a matches ArrayV::Struct { children, .. } && children.len()
            == ts@.len() && matches_children(children, ts@, dicts),
        LogicalType::Dictionary(id, _) => a matches ArrayV::Dictionary { values, .. }
            && spec_dict_lookup(dicts, id) == Some(*values),
    }
}

pub open spec fn matches_children(
    vs: Seq<ArrayV>,
    ts: Seq<LogicalType>,
    dicts: Seq<(u64, ArrayV)>,
) -> bool
    decreases ts, 0int,
{
    if ts.len() == 0 {
        true
    } else {
        &&& vs.len() > 0
        &&& matches_type(vs[0], ts[0], dicts)
        &&& matches_children(vs.drop_first(), ts.drop_first(), dicts)
    }
}

/// A matching encoder emits exactly the node and buffer footprint that the
/// type's decoder consumes.
pub proof fn lemma_enc_footprint(
    a: ArrayV,
    t: LogicalType,
    comp: Option<Compression>,
    dicts: Seq<(u64, ArrayV)>,
)
    requires
        matches_type(a, t, dicts),
    ensures
        enc_nodes(a).len() == node_count(t),
        enc_bufs(a, comp).len() == buffer_count(t),
    decreases t, 1int,
{
    match t {
        LogicalType::FixedSizeList(w, ct) => {
            lemma_enc_footprint(*(a->FixedSizeList_child), *ct, comp, dicts);
        },
        LogicalType::Struct(ts) => {
            lemma_enc_footprint_children(a->Struct_children, ts@, comp, dicts);
        },
        _ => {},
    }
}

pub proof fn lemma_enc_footprint_children(
    vs: Seq<ArrayV>,
    ts: Seq<LogicalType>,
    comp: Option<Compression>,
    dicts: Seq<(u64, ArrayV)>,
)
    requires
        matches_children(vs, ts, dicts),
        vs.len() == ts.len(),
    ensures
        enc_nodes_children(vs).len() == node_count_children(ts),
        enc_bufs_children(vs, comp).len() == buffer_count_children(ts),
    decreases ts, 0int,
{
    if ts.len() > 0 {
        lemma_enc_footprint(vs[0], ts[0], comp, dicts);
        lemma_enc_footprint_children(vs.drop_first(), ts.drop_first(), comp, dicts);
    }
}

/// A subrange known to equal a concatenation splits into subranges equal
/// to the two parts.
proof fn lemma_concat_subrange<T>(s: Seq<T>, lo: int, n: int, x: Seq<T>, y: Seq<T>)
    requires
        0 <= lo,
        lo + n <= s.len(),
        n == x.len() + y.len(),
        s.subrange(lo, lo + n) == x + y,
    ensures
        s.subrange(lo, lo + x.len() as int) == x,
        s.subrange(lo + x.len(), lo + n) == y,
{
    assert forall|k: int| 0 <= k < x.len() implies s.subrange(lo, lo + x.len() as int)[k]
        == x[k] by {
        assert(x[k] == (x + y)[k]);
        assert(s.subrange(lo, lo + n)[k] == s[lo + k]);
    }
    assert(s.subrange(lo, lo + x.len() as int) =~= x);
    assert forall|k: int| 0 <= k < y.len() implies s.subrange(lo + x.len(), lo + n)[k]
        == y[k] by {
        assert(y[k] == (x + y)[x.len() + k]);
        assert(s.subrange(lo, lo + n)[x.len() + k] == s[lo + x.len() + k]);
    }
    assert(s.subrange(lo + x.len(), lo + n) =~= y);
}

/// The validity slot round trip: what the encoder writes for a canonical
/// mask, the validity reader hands back unchanged.
#[verifier::rlimit(100)]
#[verifier::spinoff_prover]
proof fn lemma_validity_round_trip(
    v: Option<Seq<bool>>,
    len: nat,
    bufs: Seq<Seq<u8>>,
    bp: int,
    comp: Option<Compression>,
)
    requires
        validity_wf(v, len),
        len <= usize::MAX,
        0 <= bp < bufs.len(),
        bufs[bp] == enc_validity_buf(v, comp),
    ensures
        spec_validity(
            FieldNode {
                length: len as usize,
                null_count: (match v {
                    None => 0nat,
                    Some(bits) => nulls_in(bits),
                }) as usize,
            },
            bufs,
            bp,
            comp,
            None,
        ) == Ok::<_, IpcError>(v),
{
    let node = FieldNode {
        length: len as usize,
        null_count: (match v {
            None => 0nat,
            Some(bits) => nulls_in(bits),
        }) as usize,
    };
    match v {
        None => {
            assert(node.null_count == 0);
        },
        Some(bits) => {
            lemma_nulls_in_le(bits);
            assert(node.null_count != 0);
            lemma_frame_round_trip(spec_pack(bits), comp, bp as usize);
            assert(spec_frame_body(bufs[bp], comp, bp as usize) == Ok::<Seq<u8>, IpcError>(
                spec_pack(bits),
            ));
            assert(spec_pack(bits).len() == spec_bitmap_bytes(node.length as nat));
            assert(spec_out_len(node.length as nat, None) == len);
            lemma_unpack_pack(bits, bits.len());
            assert(bits.take(bits.len() as int) =~= bits);
            assert(spec_bits(spec_pack(bits), len) == bits);
        },
    }
}

/// The value-buffer round trip for 64-bit values.
proof fn lemma_i64s_round_trip(
    values: Seq<i64>,
    len_field: usize,
    nc_field: usize,
    bufs: Seq<Seq<u8>>,
    bp: int,
    comp: Option<Compression>,
)
    requires
        values.len() == len_field,
        0 <= bp < bufs.len(),
        bufs[bp] == spec_frame(spec_i64s_bytes(values), comp),
    ensures
        spec_i64_values(
            FieldNode { length: len_field, null_count: nc_field },
            bufs,
            bp,
            comp,
            None,
            true,
        ) == Ok::<_, IpcError>(values),
{
    lemma_frame_round_trip(spec_i64s_bytes(values), comp, bp as usize);
    lemma_i64s_bytes_len(values);
    let body = spec_i64s_bytes(values);
    let n = values.len();
    assert forall|i: int| 0 <= i < n implies spec_i64s(body, n, true)[i] == values[i] by {
        lemma_i64s_bytes_group(values, i);
        lemma_auto_spec_u64_to_from_le_bytes();
        lemma_i64_u64_round_trip(values[i]);
    }
    assert(spec_i64s(body, n, true) =~= values);
}

/// The value-buffer round trip for bit-packed booleans.
proof fn lemma_bools_round_trip(
    values: Seq<bool>,
    len_field: usize,
    nc_field: usize,
    bufs: Seq<Seq<u8>>,
    bp: int,
    comp: Option<Compression>,
)
    requires
        values.len() == len_field,
        0 <= bp < bufs.len(),
        bufs[bp] == spec_frame(spec_pack(values), comp),
    ensures
        spec_bool_values(
            FieldNode { length: len_field, null_count: nc_field },
            bufs,
            bp,
            comp,
            None,
        ) == Ok::<_, IpcError>(values),
{
    lemma_frame_round_trip(spec_pack(values), comp, bp as usize);
    lemma_unpack_pack(values, values.len());
    assert(values.take(values.len() as int) =~= values);
}

/// The round-trip law: decoding what a matching encoder wrote — wherever
/// it sits in the larger queues — yields the encoded array back, bit for
/// bit. Re-encoding that result therefore reproduces the same queues, so
/// any number of further decode/encode rounds is stable.
#[verifier::rlimit(60)]
pub proof fn lemma_round_trip(
    t: LogicalType,
    a: ArrayV,
    nodes: Seq<FieldNode>,
    np: int,
    bufs: Seq<Seq<u8>>,
    bp: int,
    comp: Option<Compression>,
    dicts: Seq<(u64, ArrayV)>,
)
    requires
        wf_v(a),
        matches_type(a, t, dicts),
        0 <= np,
        0 <= bp,
        np + node_count(t) <= nodes.len(),
        bp + buffer_count(t) <= bufs.len(),
        nodes.subrange(np, np + node_count(t) as int) == enc_nodes(a),
        bufs.subrange(bp, bp + buffer_count(t) as int) == enc_bufs(a, comp),
    ensures
        spec_read(t, nodes, np, bufs, bp, true, comp, None, dicts) == Ok::<ArrayV, IpcError>(a),
    decreases t, 1int,
{
    lemma_enc_footprint(a, t, comp, dicts);
    let node = nodes[np];
    assert(node == nodes.subrange(np, np + node_count(t) as int)[0]);
    assert(node == enc_node(a));
    assert(bufs[bp] == bufs.subrange(bp, bp + buffer_count(t) as int)[0]);
    assert(bufs[bp] == enc_validity_buf(validity_of(a), comp));
    lemma_validity_round_trip(validity_of(a), len_v(a), bufs, bp, comp);
    match t {
        LogicalType::Int64 => {
            assert(bufs[bp + 1] == bufs.subrange(bp, bp + buffer_count(t) as int)[1]);
            lemma_i64s_round_trip(
                a->Int64_values,
                node.length,
                node.null_count,
                bufs,
                bp + 1,
                comp,
            );
        },
        LogicalType::Boolean => {
            assert(bufs[bp + 1] == bufs.subrange(bp, bp + buffer_count(t) as int)[1]);
            lemma_bools_round_trip(
                a->Boolean_values,
                node.length,
                node.null_count,
                bufs,
                bp + 1,
                comp,
            );
        },
        LogicalType::FixedSizeList(w, ct) => {
            let child = *(a->FixedSizeList_child);
            let size = a->FixedSizeList_size;
            let len = a->FixedSizeList_len;
            assert(w as nat == size && size > 0);
            lemma_enc_footprint(child, *ct, comp, dicts);
            lemma_concat_subrange(
                nodes,
                np,
                node_count(t) as int,
                seq![enc_node(a)],
                enc_nodes(child),
            );
            lemma_concat_subrange(
                bufs,
                bp,
                buffer_count(t) as int,
                seq![enc_validity_buf(validity_of(a), comp)],
                enc_bufs(child, comp),
            );
            lemma_round_trip(*ct, child, nodes, np + 1, bufs, bp + 1, comp, dicts);
            let clen = len_v(child);
            assert(clen == len * size);
            assert(clen % (w as nat) == 0 && clen / (w as nat) == len) by (nonlinear_arith)
                requires
                    clen == len * (w as nat),
                    w as nat > 0,
            ;
            assert(spec_out_len(node.length as nat, None) == len);
        },
        LogicalType::Struct(ts) => {
            let children = a->Struct_children;
            let len = a->Struct_len;
            lemma_enc_footprint_children(children, ts@, comp, dicts);
            lemma_concat_subrange(
                nodes,
                np,
                node_count(t) as int,
                seq![enc_node(a)],
                enc_nodes_children(children),
            );
            lemma_concat_subrange(
                bufs,
                bp,
                buffer_count(t) as int,
                seq![enc_validity_buf(validity_of(a), comp)],
                enc_bufs_children(children, comp),
            );
            lemma_round_trip_children(ts@, children, nodes, np + 1, bufs, bp + 1, comp, dicts, len);
            assert(spec_out_len(node.length as nat, None) == len);
        },
        LogicalType::Dictionary(id, _) => {
            assert(bufs[bp + 1] == bufs.subrange(bp, bp + buffer_count(t) as int)[1]);
            lemma_i64s_round_trip(
                a->Dictionary_keys,
                node.length,
                node.null_count,
                bufs,
                bp + 1,
                comp,
            );
        },
    }
}

#[verifier::rlimit(60)]
pub proof fn lemma_round_trip_children(
    ts: Seq<LogicalType>,
    vs: Seq<ArrayV>,
    nodes: Seq<FieldNode>,
    np: int,
    bufs: Seq<Seq<u8>>,
    bp: int,
    comp: Option<Compression>,
    dicts: Seq<(u64, ArrayV)>,
    expected: nat,
)
    requires
        wf_children(vs, expected),
        matches_children(vs, ts, dicts),
        vs.len() == ts.len(),
        expected <= usize::MAX,
        0 <= np,
        0 <= bp,
        np + node_count_children(ts) <= nodes.len(),
        bp + buffer_count_children(ts) <= bufs.len(),
        nodes.subrange(np, np + node_count_children(ts) as int) == enc_nodes_children(vs),
        bufs.subrange(bp, bp + buffer_count_children(ts) as int) == enc_bufs_children(vs, comp),
    ensures
        spec_read_children(ts, nodes, np, bufs, bp, true, comp, None, expected, dicts)
            == Ok::<Seq<ArrayV>, IpcError>(vs),
    decreases ts, 0int,
{
    if ts.len() == 0 {
        assert(vs =~= Seq::<ArrayV>::empty());
    } else {
        lemma_enc_footprint(vs[0], ts[0], comp, dicts);
        lemma_enc_footprint_children(vs.drop_first(), ts.drop_first(), comp, dicts);
        lemma_concat_subrange(
            nodes,
            np,
            node_count_children(ts) as int,
            enc_nodes(vs[0]),
            enc_nodes_children(vs.drop_first()),
        );
        lemma_concat_subrange(
            bufs,
            bp,
            buffer_count_children(ts) as int,
            enc_bufs(vs[0], comp),
            enc_bufs_children(vs.drop_first(), comp),
        );
        lemma_round_trip(ts[0], vs[0], nodes, np, bufs, bp, comp, dicts);
        assert(len_v(vs[0]) == expected);
        let np2 = np + node_count(ts[0]);
        let bp2 = bp + buffer_count(ts[0]);
        lemma_round_trip_children(
            ts.drop_first(),
            vs.drop_first(),
            nodes,
            np2,
            bufs,
            bp2,
            comp,
            dicts,
            expected,
        );
        assert(Seq::empty().push(vs[0]) + vs.drop_first() =~= vs);
    }
}

/// A fixed-size list of width `w` decodes to a child of length exactly
/// `len * w`, and the list's own length is the limited declared length.
pub proof fn lemma_fixed_size_list_width(
    t: LogicalType,
    nodes: Seq<FieldNode>,
    np: int,
    bufs: Seq<Seq<u8>>,
    bp: int,
    little_endian: bool,
    comp: Option<Compression>,
    limit: Option<usize>,
    dicts: Seq<(u64, ArrayV)>,
    a: ArrayV,
)
    requires
        t matches LogicalType::FixedSizeList(_, _),
        spec_read(t, nodes, np, bufs, bp, little_endian, comp, limit, dicts) == Ok::<
            ArrayV,
            IpcError,
        >(a),
    ensures
        a matches ArrayV::FixedSizeList { size, len, child, .. } && size == t->FixedSizeList_0
            as nat && len_v(*child) == len * size && len == spec_out_len(
            nodes[np].length as nat,
            limit,
        ),
{
    let w = t->FixedSizeList_0;
    let child = a->FixedSizeList_child;
    let clen = len_v(*child);
    let len = a->FixedSizeList_len;
    assert(clen % (w as nat) == 0 && clen / (w as nat) == len);
    assert(clen == len * (w as nat)) by (nonlinear_arith)
        requires
            clen % (w as nat) == 0,
            clen / (w as nat) == len,
            w as nat > 0,
    ;
}

/// Decoding a zero-width fixed-size list always fails with the explicit
/// unsupported-feature error, never with a silent empty result. (When a
/// queue is already exhausted, the corruption error wins, as it does for
/// every type.)
pub proof fn lemma_zero_width_rejected(
    t: LogicalType,
    nodes: Seq<FieldNode>,
    np: int,
    bufs: Seq<Seq<u8>>,
    bp: int,
    little_endian: bool,
    comp: Option<Compression>,
    limit: Option<usize>,
    dicts: Seq<(u64, ArrayV)>,
)
    requires
        t matches LogicalType::FixedSizeList(w, _) && w == 0,
        0 <= np < nodes.len(),
        spec_validity(nodes[np], bufs, bp, comp, limit) is Ok,
    ensures
        spec_read(t, nodes, np, bufs, bp, little_endian, comp, limit, dicts) == Err::<
            ArrayV,
            IpcError,
        >(IpcError::UnsupportedFeature(UnsupportedKind::ZeroWidthFixedSizeList)),
{
}

/// Wherever decode succeeds, skip succeeds too — and both consume exactly
/// `node_count(t)` nodes and `buffer_count(t)` buffers, so skipping column
/// A and then decoding its sibling B reads B's entries from exactly the
/// positions a full decode of A would have left the cursor at, for any
/// nesting depth.
pub proof fn lemma_skip_matches_read(
    t: LogicalType,
    nodes: Seq<FieldNode>,
    np: int,
    bufs: Seq<Seq<u8>>,
    bp: int,
    little_endian: bool,
    comp: Option<Compression>,
    limit: Option<usize>,
    dicts: Seq<(u64, ArrayV)>,
)
    requires
        spec_read(t, nodes, np, bufs, bp, little_endian, comp, limit, dicts) is Ok,
    ensures
        spec_skip(t, nodes, np, bufs, bp) == Ok::<(), IpcError>(()),
    decreases t, 1int,
{
    match t {
        LogicalType::FixedSizeList(w, ct) => {
            lemma_skip_matches_read(
                *ct,
                nodes,
                np + 1,
                bufs,
                bp + 1,
                little_endian,
                comp,
                crate::decode::spec_scale_limit(limit, w),
                dicts,
            );
        },
        LogicalType::Struct(ts) => {
            let node = nodes[np];
            lemma_skip_matches_read_children(
                ts@,
                nodes,
                np + 1,
                bufs,
                bp + 1,
                little_endian,
                comp,
                limit,
                spec_out_len(node.length as nat, limit),
                dicts,
            );
        },
        _ => {},
    }
}

/// The length of every successfully decoded array is the limited declared
/// length of its node.
pub proof fn lemma_read_len(
    t: LogicalType,
    nodes: Seq<FieldNode>,
    np: int,
    bufs: Seq<Seq<u8>>,
    bp: int,
    little_endian: bool,
    comp: Option<Compression>,
    limit: Option<usize>,
    dicts: Seq<(u64, ArrayV)>,
    a: ArrayV,
)
    requires
        spec_read(t, nodes, np, bufs, bp, little_endian, comp, limit, dicts) == Ok::<
            ArrayV,
            IpcError,
        >(a),
    ensures
        len_v(a) == spec_out_len(nodes[np].length as nat, limit),
{
    match t {
        LogicalType::Int64 => {},
        LogicalType::Boolean => {},
        LogicalType::FixedSizeList(_, _) => {},
        LogicalType::Struct(_) => {},
        LogicalType::Dictionary(_, _) => {},
    }
}

/// Truncation only looks at the effective row count, so two caps with the
/// same effective count truncate identically.
pub proof fn lemma_truncate_same(a: ArrayV, k1: nat, k2: nat)
    requires
        (if k1 < len_v(a) {
            k1
        } else {
            len_v(a)
        }) == (if k2 < len_v(a) {
            k2
        } else {
            len_v(a)
        }),
    ensures
        truncate_v(a, k1) == truncate_v(a, k2),
{
}

/// The validity slot under a limit is the truncation of the unlimited
/// one.
proof fn lemma_validity_limit(
    node: FieldNode,
    bufs: Seq<Seq<u8>>,
    bp: int,
    comp: Option<Compression>,
    l: usize,
)
    requires
        spec_validity(node, bufs, bp, comp, None) is Ok,
    ensures
        spec_validity(node, bufs, bp, comp, Some(l)) == Ok::<_, IpcError>(
            crate::arrays::truncate_validity(
                spec_validity(node, bufs, bp, comp, None)->Ok_0,
                spec_out_len(node.length as nat, Some(l)),
            ),
        ),
{
    let m = spec_out_len(node.length as nat, Some(l));
    if node.null_count != 0 {
        let body = spec_frame_body(bufs[bp], comp, bp as usize)->Ok_0;
        let decl = node.length as nat;
        assert(spec_bits(body, m) =~= spec_bits(body, decl).take(m as int));
    }
}

/// The 64-bit value slot under a limit is the truncation of the unlimited
/// one.
proof fn lemma_i64s_limit(
    node: FieldNode,
    bufs: Seq<Seq<u8>>,
    bp: int,
    comp: Option<Compression>,
    l: usize,
    little_endian: bool,
)
    requires
        spec_i64_values(node, bufs, bp, comp, None, little_endian) is Ok,
    ensures
        spec_i64_values(node, bufs, bp, comp, Some(l), little_endian) == Ok::<_, IpcError>(
            spec_i64_values(node, bufs, bp, comp, None, little_endian)->Ok_0.take(
                spec_out_len(node.length as nat, Some(l)) as int,
            ),
        ),
{
    let m = spec_out_len(node.length as nat, Some(l));
    let body = spec_frame_body(bufs[bp], comp, bp as usize)->Ok_0;
    let decl = node.length as nat;
    assert(8 * m <= 8 * decl);
    assert(spec_i64s(body, m, little_endian) =~= spec_i64s(body, decl, little_endian).take(
        m as int,
    ));
}

/// The boolean value slot under a limit is the truncation of the
/// unlimited one.
proof fn lemma_bools_limit(
    node: FieldNode,
    bufs: Seq<Seq<u8>>,
    bp: int,
    comp: Option<Compression>,
    l: usize,
)
    requires
        spec_bool_values(node, bufs, bp, comp, None) is Ok,
    ensures
        spec_bool_values(node, bufs, bp, comp, Some(l)) == Ok::<_, IpcError>(
            spec_bool_values(node, bufs, bp, comp, None)->Ok_0.take(
                spec_out_len(node.length as nat, Some(l)) as int,
            ),
        ),
{
    let m = spec_out_len(node.length as nat, Some(l));
    let body = spec_frame_body(bufs[bp], comp, bp as usize)->Ok_0;
    let decl = node.length as nat;
    assert(spec_bits(body, m) =~= spec_bits(body, decl).take(m as int));
}

/// Decoding with a row limit is decoding without one and truncating: same
/// values, same validity, at every nesting level.
#[verifier::rlimit(100)]
pub proof fn lemma_limit_is_truncation(
    t: LogicalType,
    nodes: Seq<FieldNode>,
    np: int,
    bufs: Seq<Seq<u8>>,
    bp: int,
    little_endian: bool,
    comp: Option<Compression>,
    l: usize,
    dicts: Seq<(u64, ArrayV)>,
    a: ArrayV,
)
    requires
        spec_read(t, nodes, np, bufs, bp, little_endian, comp, None, dicts) == Ok::<
            ArrayV,
            IpcError,
        >(a),
    ensures
        spec_read(t, nodes, np, bufs, bp, little_endian, comp, Some(l), dicts) == Ok::<
            ArrayV,
            IpcError,
        >(truncate_v(a, l as nat)),
    decreases t, 1int,
{
    let node = nodes[np];
    let decl = node.length as nat;
    lemma_read_len(t, nodes, np, bufs, bp, little_endian, comp, None, dicts, a);
    let m = spec_out_len(decl, Some(l));
    lemma_validity_limit(node, bufs, bp, comp, l);
    match t {
        LogicalType::Int64 => {
            lemma_i64s_limit(node, bufs, bp + 1, comp, l, little_endian);
        },
        LogicalType::Boolean => {
            lemma_bools_limit(node, bufs, bp + 1, comp, l);
        },
        LogicalType::FixedSizeList(w, ct) => {
            let child_unl = *(a->FixedSizeList_child);
            let clen = len_v(child_unl);
            lemma_read_len(
                *ct,
                nodes,
                np + 1,
                bufs,
                bp + 1,
                little_endian,
                comp,
                None,
                dicts,
                child_unl,
            );
            assert(clen <= usize::MAX);
            assert(clen % (w as nat) == 0 && clen / (w as nat) == decl);
            assert(clen == decl * (w as nat)) by (nonlinear_arith)
                requires
                    clen % (w as nat) == 0,
                    clen / (w as nat) == decl,
                    w as nat > 0,
            ;
            let sat = crate::decode::spec_saturating_mul(l, w);
            lemma_limit_is_truncation(
                *ct,
                nodes,
                np + 1,
                bufs,
                bp + 1,
                little_endian,
                comp,
                sat,
                dicts,
                child_unl,
            );
            let child_lim = truncate_v(child_unl, sat as nat);
            // The effective child cap agrees with the scaled effective cap.
            if l * (w as nat) > usize::MAX {
                assert(l as nat >= decl) by (nonlinear_arith)
                    requires
                        l * (w as nat) > usize::MAX,
                        w as nat > 0,
                        clen == decl * (w as nat),
                        clen <= usize::MAX,
                ;
                assert(sat as nat >= clen);
                assert(m * (w as nat) == clen) by (nonlinear_arith)
                    requires
                        m == decl,
                        clen == decl * (w as nat),
                ;
            } else {
                assert(sat == l * (w as nat));
                assert((if (sat as nat) < clen {
                    sat as nat
                } else {
                    clen
                }) == m * (w as nat)) by (nonlinear_arith)
                    requires
                        sat == l * (w as nat),
                        clen == decl * (w as nat),
                        w as nat > 0,
                        m == (if (l as nat) < decl {
                            l as nat
                        } else {
                            decl
                        }),
                ;
            }
            lemma_truncate_same(child_unl, sat as nat, m * (w as nat));
            let clen2 = len_v(child_lim);
            assert(clen2 == (if (sat as nat) < clen {
                sat as nat
            } else {
                clen
            }));
            assert(clen2 == m * (w as nat));
            assert(clen2 % (w as nat) == 0 && clen2 / (w as nat) == m) by (nonlinear_arith)
                requires
                    clen2 == m * (w as nat),
                    w as nat > 0,
            ;
        },
        LogicalType::Struct(ts) => {
            let children = a->Struct_children;
            lemma_limit_is_truncation_children(
                ts@,
                nodes,
                np + 1,
                bufs,
                bp + 1,
                little_endian,
                comp,
                l,
                decl,
                m,
                dicts,
                children,
            );
            assert forall|i: int| 0 <= i < children.len() implies crate::arrays::truncate_children(
                children,
                l as nat,
            )[i] == crate::arrays::truncate_children(children, m)[i] by {
                crate::arrays::lemma_truncate_children_index(children, l as nat, i);
                crate::arrays::lemma_truncate_children_index(children, m, i);
                lemma_truncate_same(children[i], l as nat, m);
            }
            crate::arrays::lemma_truncate_children_len(children, l as nat);
            crate::arrays::lemma_truncate_children_len(children, m);
            assert(crate::arrays::truncate_children(children, l as nat)
                =~= crate::arrays::truncate_children(children, m));
        },
        LogicalType::Dictionary(_, _) => {
            lemma_i64s_limit(node, bufs, bp + 1, comp, l, little_endian);
        },
    }
}

/// Children of a limited struct decode are the truncated children of the
/// unlimited decode.
#[verifier::rlimit(60)]
pub proof fn lemma_limit_is_truncation_children(
    ts: Seq<LogicalType>,
    nodes: Seq<FieldNode>,
    np: int,
    bufs: Seq<Seq<u8>>,
    bp: int,
    little_endian: bool,
    comp: Option<Compression>,
    l: usize,
    expected_unl: nat,
    expected_lim: nat,
    dicts: Seq<(u64, ArrayV)>,
    vs: Seq<ArrayV>,
)
    requires
        spec_read_children(
            ts,
            nodes,
            np,
            bufs,
            bp,
            little_endian,
            comp,
            None,
            expected_unl,
            dicts,
        ) == Ok::<Seq<ArrayV>, IpcError>(vs),
        expected_lim == (if (l as nat) < expected_unl {
            l as nat
        } else {
            expected_unl
        }),
    ensures
        spec_read_children(
            ts,
            nodes,
            np,
            bufs,
            bp,
            little_endian,
            comp,
            Some(l),
            expected_lim,
            dicts,
        ) == Ok::<Seq<ArrayV>, IpcError>(crate::arrays::truncate_children(vs, l as nat)),
        forall|i: int| 0 <= i < vs.len() ==> #[trigger] len_v(vs[i]) == expected_unl,
    decreases ts, 0int,
{
    if ts.len() == 0 {
        assert(crate::arrays::truncate_children(vs, l as nat) =~= Seq::<ArrayV>::empty());
    } else {
        let first_r = spec_read(ts[0], nodes, np, bufs, bp, little_endian, comp, None, dicts);
        let first = first_r->Ok_0;
        lemma_limit_is_truncation(
            ts[0],
            nodes,
            np,
            bufs,
            bp,
            little_endian,
            comp,
            l,
            dicts,
            first,
        );
        assert(len_v(first) == expected_unl);
        let first_lim = truncate_v(first, l as nat);
        assert(len_v(first_lim) == expected_lim);
        let rest = spec_read_children(
            ts.drop_first(),
            nodes,
            np + node_count(ts[0]),
            bufs,
            bp + buffer_count(ts[0]),
            little_endian,
            comp,
            None,
            expected_unl,
            dicts,
        )->Ok_0;
        lemma_limit_is_truncation_children(
            ts.drop_first(),
            nodes,
            np + node_count(ts[0]),
            bufs,
            bp + buffer_count(ts[0]),
            little_endian,
            comp,
            l,
            expected_unl,
            expected_lim,
            dicts,
            rest,
        );
        assert(vs == Seq::empty().push(first) + rest);
        assert forall|i: int| 0 <= i < vs.len() implies #[trigger] len_v(vs[i])
            == expected_unl by {
            if i > 0 {
                assert(vs[i] == rest[i - 1]);
            } else {
                assert(vs[0] == first);
            }
        }
        assert forall|i: int| 0 <= i < vs.len() implies (Seq::empty().push(first_lim)
            + crate::arrays::truncate_children(rest, l as nat))[i]
            == crate::arrays::truncate_children(vs, l as nat)[i] by {
            crate::arrays::lemma_truncate_children_len(rest, l as nat);
            crate::arrays::lemma_truncate_children_len(vs, l as nat);
            crate::arrays::lemma_truncate_children_index(vs, l as nat, i);
            if i > 0 {
                crate::arrays::lemma_truncate_children_index(rest, l as nat, i - 1);
                assert(vs[i] == rest[i - 1]);
            } else {
                assert(vs[0] == first);
            }
        }
        crate::arrays::lemma_truncate_children_len(rest, l as nat);
        crate::arrays::lemma_truncate_children_len(vs, l as nat);
        assert(Seq::empty().push(first_lim) + crate::arrays::truncate_children(rest, l as nat)
            =~= crate::arrays::truncate_children(vs, l as nat));
    }
}

pub proof fn lemma_skip_matches_read_children(
    ts: Seq<LogicalType>,
    nodes: Seq<FieldNode>,
    np: int,
    bufs: Seq<Seq<u8>>,
    bp: int,
    little_endian: bool,
    comp: Option<Compression>,
    limit: Option<usize>,
    expected: nat,
    dicts: Seq<(u64, ArrayV)>,
)
    requires
        spec_read_children(ts, nodes, np, bufs, bp, little_endian, comp, limit, expected, dicts)
            is Ok,
    ensures
        spec_skip_children(ts, nodes, np, bufs, bp) == Ok::<(), IpcError>(()),
    decreases ts, 0int,
{
    if ts.len() > 0 {
        lemma_skip_matches_read(ts[0], nodes, np, bufs, bp, little_endian, comp, limit, dicts);
        lemma_skip_matches_read_children(
            ts.drop_first(),
            nodes,
            np + node_count(ts[0]),
            bufs,
            bp + buffer_count(ts[0]),
            little_endian,
            comp,
            limit,
            expected,
            dicts,
        );
    }
}

} // verus!
