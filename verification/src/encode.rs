//! The matching encoder: lays a well-formed array out as the pre-order
//! node sequence and buffer sequence that the decoders consume.
//!
//! The encoder exists so the round-trip law can be stated and proved
//! inside the library: what this encoder writes, `spec_read` decodes back
//! bit for bit.
use vstd::prelude::*;

use crate::arrays::{
    array_view, validity_of, validity_view, views_of, Array, ArrayV,
};
use crate::bitmap::{count_nulls, nulls_in, pack_bits, spec_bit, spec_bitmap_bytes, spec_bits};
use crate::buffers::{
    make_frame, spec_frame, spec_i64s_bytes, write_i64s, Compression,
};
use crate::cursor::FieldNode;
use crate::arrays::len_v;
use crate::dtypes::{buffer_count, node_count};
use crate::errors::IpcError;

verus! {

/// A single bit as the byte it contributes to its packed byte.
pub open spec fn bit_at(bits: Seq<bool>, i: int) -> u8 {
    if 0 <= i < bits.len() && bits[i] {
        1u8
    } else {
        0u8
    }
}

/// Byte `j` of the packed form of `bits`.
pub open spec fn pack_byte(bits: Seq<bool>, j: int) -> u8 {
    bit_at(bits, 8 * j) | (bit_at(bits, 8 * j + 1) << 1u8) | (bit_at(bits, 8 * j + 2) << 2u8) | (
    bit_at(bits, 8 * j + 3) << 3u8) | (bit_at(bits, 8 * j + 4) << 4u8) | (bit_at(bits, 8 * j + 5)
        << 5u8) | (bit_at(bits, 8 * j + 6) << 6u8) | (bit_at(bits, 8 * j + 7) << 7u8)
}

/// The packed byte form of a bit sequence, as a matching writer lays it
/// out.
pub open spec fn spec_pack(bits: Seq<bool>) -> Seq<u8> {
    Seq::new(spec_bitmap_bytes(bits.len()), |j: int| pack_byte(bits, j))
}

proof fn lemma_or_shift_bits(b0: u8, b1: u8, b2: u8, b3: u8, b4: u8, b5: u8, b6: u8, b7: u8, k: u8)
    requires
        b0 <= 1,
        b1 <= 1,
        b2 <= 1,
        b3 <= 1,
        b4 <= 1,
        b5 <= 1,
        b6 <= 1,
        b7 <= 1,
        k < 8,
    ensures
        ((b0 | (b1 << 1u8) | (b2 << 2u8) | (b3 << 3u8) | (b4 << 4u8) | (b5 << 5u8) | (b6 << 6u8) | (
        b7 << 7u8)) >> k) & 1u8 == (if k == 0 {
            b0
        } else if k == 1 {
            b1
        } else if k == 2 {
            b2
        } else if k == 3 {
            b3
        } else if k == 4 {
            b4
        } else if k == 5 {
            b5
        } else if k == 6 {
            b6
        } else {
            b7
        }),
{
    assert(b0 <= 1 && b1 <= 1 && b2 <= 1 && b3 <= 1 && b4 <= 1 && b5 <= 1 && b6 <= 1 && b7 <= 1
        && k < 8 ==> ((b0 | (b1 << 1u8) | (b2 << 2u8) | (b3 << 3u8) | (b4 << 4u8) | (b5 << 5u8) | (
    b6 << 6u8) | (b7 << 7u8)) >> k) & 1u8 == (if k == 0 {
        b0
    } else if k == 1 {
        b1
    } else if k == 2 {
        b2
    } else if k == 3 {
        b3
    } else if k == 4 {
        b4
    } else if k == 5 {
        b5
    } else if k == 6 {
        b6
    } else {
        b7
    })) by (bit_vector);
}

/// Bit `i` of the packed form is bit `i` of the input (and the padding
/// bits of the last byte are clear).
pub proof fn lemma_pack_bit(bits: Seq<bool>, i: int)
    requires
        0 <= i < 8 * spec_pack(bits).len(),
    ensures
        spec_bit(spec_pack(bits), i) == (0 <= i < bits.len() && bits[i]),
{
    let j = i / 8;
    let k = i % 8;
    lemma_or_shift_bits(
        bit_at(bits, 8 * j),
        bit_at(bits, 8 * j + 1),
        bit_at(bits, 8 * j + 2),
        bit_at(bits, 8 * j + 3),
        bit_at(bits, 8 * j + 4),
        bit_at(bits, 8 * j + 5),
        bit_at(bits, 8 * j + 6),
        bit_at(bits, 8 * j + 7),
        k as u8,
    );
    assert(8 * j + k == i);
}

/// The packed form of the first `n` bits unpacks to those bits.
pub proof fn lemma_unpack_pack(bits: Seq<bool>, n: nat)
    requires
        n <= bits.len(),
    ensures
        spec_bits(spec_pack(bits), n) == bits.take(n as int),
{
    assert forall|i: int| 0 <= i < n implies spec_bits(spec_pack(bits), n)[i] == bits.take(
        n as int,
    )[i] by {
        assert(8 * ((bits.len() + 7) / 8) >= bits.len());
        lemma_pack_bit(bits, i);
    }
    assert(spec_bits(spec_pack(bits), n) =~= bits.take(n as int));
}

proof fn lemma_byte_ext(x: u8, y: u8)
    requires
        forall|k: u8| k < 8 ==> (x >> k) & 1u8 == (y >> k) & 1u8,
    ensures
        x == y,
{
    assert((x >> 0u8) & 1u8 == (y >> 0u8) & 1u8);
    assert((x >> 1u8) & 1u8 == (y >> 1u8) & 1u8);
    assert((x >> 2u8) & 1u8 == (y >> 2u8) & 1u8);
    assert((x >> 3u8) & 1u8 == (y >> 3u8) & 1u8);
    assert((x >> 4u8) & 1u8 == (y >> 4u8) & 1u8);
    assert((x >> 5u8) & 1u8 == (y >> 5u8) & 1u8);
    assert((x >> 6u8) & 1u8 == (y >> 6u8) & 1u8);
    assert((x >> 7u8) & 1u8 == (y >> 7u8) & 1u8);
    assert((x >> 0u8) & 1u8 == (y >> 0u8) & 1u8 && (x >> 1u8) & 1u8 == (y >> 1u8) & 1u8 && (x
        >> 2u8) & 1u8 == (y >> 2u8) & 1u8 && (x >> 3u8) & 1u8 == (y >> 3u8) & 1u8 && (x >> 4u8)
        & 1u8 == (y >> 4u8) & 1u8 && (x >> 5u8) & 1u8 == (y >> 5u8) & 1u8 && (x >> 6u8) & 1u8 == (y
        >> 6u8) & 1u8 && (x >> 7u8) & 1u8 == (y >> 7u8) & 1u8 ==> x == y) by (bit_vector);
}

/// A byte sequence with the right length, the right bits, and clear
/// padding is exactly the packed form.
pub proof fn lemma_pack_unique(bytes: Seq<u8>, bits: Seq<bool>)
    requires
        bytes.len() == spec_bitmap_bytes(bits.len()),
        forall|i: int| 0 <= i < bits.len() ==> spec_bit(bytes, i) == bits[i],
        forall|i: int| bits.len() <= i < 8 * bytes.len() ==> !spec_bit(bytes, i),
    ensures
        bytes == spec_pack(bits),
{
    assert forall|j: int| 0 <= j < bytes.len() implies bytes[j] == spec_pack(bits)[j] by {
        assert forall|k: u8| k < 8 implies (bytes[j] >> k) & 1u8 == (spec_pack(bits)[j] >> k)
            & 1u8 by {
            let i = 8 * j + k;
            assert(i / 8 == j && i % 8 == k as int);
            lemma_pack_bit(bits, i);
            let x = bytes[j];
            let y = spec_pack(bits)[j];
            assert(spec_bit(spec_pack(bits), i) == ((y >> k) & 1u8 == 1u8));
            assert(spec_bit(bytes, i) == ((x >> k) & 1u8 == 1u8));
            if 0 <= i < bits.len() {
                assert(spec_bit(bytes, i) == bits[i]);
            } else {
                assert(!spec_bit(bytes, i));
            }
            assert((x >> k) & 1u8 == 1u8 || (x >> k) & 1u8 == 0u8) by (bit_vector);
            assert((y >> k) & 1u8 == 1u8 || (y >> k) & 1u8 == 0u8) by (bit_vector);
        }
        lemma_byte_ext(bytes[j], spec_pack(bits)[j]);
    }
    assert(bytes =~= spec_pack(bits));
}

/// The field node a matching writer declares for an array.
pub open spec fn enc_node(a: ArrayV) -> FieldNode {
    FieldNode {
        length: len_v(a) as usize,
        null_count: (match validity_of(a) {
            None => 0nat,
            Some(bits) => nulls_in(bits),
        }) as usize,
    }
}

/// The pre-order field-node sequence of an array, children included.
pub open spec fn enc_nodes(a: ArrayV) -> Seq<FieldNode>
    decreases a, 1int,
{
    match a {
        ArrayV::FixedSizeList { child, .. } => seq![enc_node(a)] + enc_nodes(*child),
        ArrayV::Struct { children, .. } => seq![enc_node(a)] + enc_nodes_children(children),
        _ => seq![enc_node(a)],
    }
}

pub open spec fn enc_nodes_children(s: Seq<ArrayV>) -> Seq<FieldNode>
    decreases s, 0int,
{
    if s.len() == 0 {
        Seq::empty()
    } else {
        enc_nodes(s[0]) + enc_nodes_children(s.drop_first())
    }
}

/// The validity buffer slot: empty when the array holds no nulls, else the
/// framed packed mask.
pub open spec fn enc_validity_buf(v: Option<Seq<bool>>, comp: Option<Compression>) -> Seq<u8> {
    match v {
        None => Seq::empty(),
        Some(bits) => spec_frame(spec_pack(bits), comp),
    }
}

/// The pre-order buffer sequence of an array, children included.
pub open spec fn enc_bufs(a: ArrayV, comp: Option<Compression>) -> Seq<Seq<u8>>
    decreases a, 1int,
{
    match a {
        ArrayV::Int64 { validity, values } => seq![
            enc_validity_buf(validity, comp),
            spec_frame(spec_i64s_bytes(values), comp),
        ],
        ArrayV::Boolean { validity, values } => seq![
            enc_validity_buf(validity, comp),
            spec_frame(spec_pack(values), comp),
        ],
        ArrayV::FixedSizeList { validity, child, .. } => seq![enc_validity_buf(validity, comp)]
            + enc_bufs(*child, comp),
        ArrayV::Struct { validity, children, .. } => seq![enc_validity_buf(validity, comp)]
            + enc_bufs_children(children, comp),
        ArrayV::Dictionary { validity, keys, .. } => seq![
            enc_validity_buf(validity, comp),
            spec_frame(spec_i64s_bytes(keys), comp),
        ],
    }
}

pub open spec fn enc_bufs_children(s: Seq<ArrayV>, comp: Option<Compression>) -> Seq<Seq<u8>>
    decreases s, 0int,
{
    if s.len() == 0 {
        Seq::empty()
    } else {
        enc_bufs(s[0], comp) + enc_bufs_children(s.drop_first(), comp)
    }
}

/// Encode the validity mask into its buffer slot.
fn encode_validity(validity: &Option<Vec<bool>>, comp: Option<Compression>) -> (r: Vec<u8>)
    ensures
        r@ == enc_validity_buf(validity_view(*validity), comp),
{
    match validity {
        None => Vec::new(),
        Some(bits) => {
            let packed = pack_bits(bits);
            proof {
                lemma_pack_unique(packed@, bits@);
            }
            make_frame(packed, comp)
        },
    }
}

/// Append the wire form of `a` to the node and buffer queues, in writer
/// pre-order: this array's node and validity slot first, then its values
/// or its children.
#[verifier::loop_isolation(false)]
pub fn encode_array(
    a: &Array,
    comp: Option<Compression>,
    nodes: &mut Vec<FieldNode>,
    buffers: &mut Vec<Vec<u8>>,
) -> (r: Result<(), IpcError>)
    ensures
        r is Ok,
        final(nodes)@ == old(nodes)@ + enc_nodes(a@),
        final(buffers).deep_view() == old(buffers).deep_view() + enc_bufs(a@, comp),
    decreases *a,
{
    let len = a.len();
    let null_count = match a.validity() {
        None => 0,
        Some(bits) => count_nulls(bits),
    };
    nodes.push(FieldNode { length: len, null_count });
    proof {
        assert(nodes@.last() == enc_node(a@));
        assert(nodes@ =~= old(nodes)@ + seq![enc_node(a@)]);
    }
    let vbuf = encode_validity(a.validity(), comp);
    let ghost vbuf_v = vbuf@;
    buffers.push(vbuf);
    proof {
        assert(buffers.deep_view() =~~= old(buffers).deep_view() + seq![vbuf_v]);
    }
    match a {
        Array::Int64 { values, .. } => {
            let body = write_i64s(values);
            let framed = make_frame(body, comp);
            let ghost framed_v = framed@;
            buffers.push(framed);
            proof {
                assert(buffers.deep_view() =~~= old(buffers).deep_view() + enc_bufs(a@, comp));
                assert(nodes@ =~= old(nodes)@ + enc_nodes(a@));
            }
            Ok(())
        },
        Array::Boolean { values, .. } => {
            let packed = pack_bits(values);
            proof {
                lemma_pack_unique(packed@, values@);
            }
            let framed = make_frame(packed, comp);
            let ghost framed_v = framed@;
            buffers.push(framed);
            proof {
                assert(buffers.deep_view() =~~= old(buffers).deep_view() + enc_bufs(a@, comp));
                assert(nodes@ =~= old(nodes)@ + enc_nodes(a@));
            }
            Ok(())
        },
        Array::FixedSizeList { child, .. } => {
            let r = encode_array(child, comp, nodes, buffers);
            proof {
                assert(nodes@ =~= old(nodes)@ + enc_nodes(a@));
                assert(buffers.deep_view() =~~= old(buffers).deep_view() + enc_bufs(a@, comp));
            }
            r
        },
        Array::Struct { children, .. } => {
            let ghost nodes1 = nodes@;
            let ghost bufs1 = buffers.deep_view();
            let ghost vs = views_of(children@);
            let mut j: usize = 0;
            proof {
                crate::arrays::lemma_views_of_len(children@);
                assert(vs.skip(0) =~= vs);
            }
            while j < children.len()
                invariant
                    j <= children@.len(),
                    vs.len() == children@.len(),
                    nodes@ + enc_nodes_children(vs.skip(j as int)) == nodes1
                        + enc_nodes_children(vs),
                    buffers.deep_view() + enc_bufs_children(vs.skip(j as int), comp) == bufs1
                        + enc_bufs_children(vs, comp),
                decreases children@.len() - j,
            {
                proof {
                    crate::arrays::lemma_views_of_index(children@, j as int);
                    assert(vs.skip(j as int)[0] == vs[j as int]);
                    assert(vs.skip(j as int).drop_first() =~= vs.skip(j + 1));
                    assert(a->Struct_children == *children);
                    assert(decreases_to!(*a => a->Struct_children@[j as int]));
                }
                let ghost nodes_before = nodes@;
                let ghost bufs_before = buffers.deep_view();
                let r = encode_array(&children[j], comp, nodes, buffers);
                proof {
                    assert(nodes@ + enc_nodes_children(vs.skip(j + 1)) =~= nodes_before
                        + enc_nodes_children(vs.skip(j as int)));
                    assert(buffers.deep_view() + enc_bufs_children(vs.skip(j + 1), comp)
                        =~~= bufs_before + enc_bufs_children(vs.skip(j as int), comp));
                }
                j = j + 1;
            }
            proof {
                assert(vs.skip(vs.len() as int).len() == 0);
                assert(nodes@ + Seq::<FieldNode>::empty() =~= nodes@);
                assert(buffers.deep_view() + Seq::<Seq<u8>>::empty() =~~= buffers.deep_view());
                assert(nodes@ =~= old(nodes)@ + enc_nodes(a@));
                assert(buffers.deep_view() =~~= old(buffers).deep_view() + enc_bufs(a@, comp));
            }
            Ok(())
        },
        Array::Dictionary { keys, .. } => {
            let body = write_i64s(keys);
            let framed = make_frame(body, comp);
            let ghost framed_v = framed@;
            buffers.push(framed);
            proof {
                assert(buffers.deep_view() =~~= old(buffers).deep_view() + enc_bufs(a@, comp));
                assert(nodes@ =~= old(nodes)@ + enc_nodes(a@));
            }
            Ok(())
        },
    }
}

} // verus!
