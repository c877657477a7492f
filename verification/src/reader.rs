//! The file/stream orchestrator: cached file metadata, column projection,
//! the memory-mapped versus streaming strategy choice with its graceful
//! fallback, row caps, and the post-processing injections.
use vstd::prelude::*;

use crate::arrays::{clone_array, views_of, Array, ArrayV, Dictionaries};
use crate::buffers::Compression;
use crate::cursor::{BatchCursor, FieldNode};
use crate::decode::Version;
use crate::dtypes::{ltype_view, ltype_views, Field, LogicalType};
use crate::errors::{IpcError, MismatchKind};

verus! {

/// One encoded record batch: its declared height and its two pre-ordered
/// queues.
#[derive(Debug, PartialEq)]
pub struct EncodedBatch {
    pub height: usize,
    pub nodes: Vec<FieldNode>,
    pub buffers: Vec<Vec<u8>>,
}

/// Whether the underlying source is a real addressable file (which the
/// memory-mapped strategy requires) or only a stream.
#[derive(Clone, Copy, Debug, PartialEq, Eq, Structural)]
pub enum SourceKind {
    File,
    Stream,
}

/// The in-memory model of an interchange file: its schema, its optional
/// schema-level custom metadata, its record batches, the dictionaries its
/// dictionary batches registered, and its stream-level properties.
#[derive(Debug)]
pub struct IpcFile {
    pub schema: Vec<Field>,
    pub custom_schema_metadata: Option<Vec<(String, String)>>,
    pub batches: Vec<EncodedBatch>,
    pub dictionaries: Dictionaries,
    pub compression: Option<Compression>,
    pub is_little_endian: bool,
    pub version: Version,
}

/// A source to decode from: the file content plus how it is reachable.
#[derive(Debug)]
pub struct IpcSource {
    pub file: IpcFile,
    pub kind: SourceKind,
}

/// Copy of a logical type describing the same type; schema handling hands
/// copies outward.
pub fn clone_logical_type(t: &LogicalType) -> (r: LogicalType)
    ensures
        ltype_view(r) == ltype_view(*t),
    decreases *t,
{
    match t {
        LogicalType::Int64 => LogicalType::Int64,
        LogicalType::Boolean => LogicalType::Boolean,
        LogicalType::FixedSizeList(size, child) => LogicalType::FixedSizeList(
            *size,
            Box::new(clone_logical_type(child)),
        ),
        LogicalType::Struct(children) => {
            let mut cs: Vec<LogicalType> = Vec::new();
            let mut i: usize = 0;
            #[verifier::loop_isolation(false)]
            while i < children.len()
                invariant
                    i <= children@.len(),
                    cs@.len() == i,
                    ltype_views(cs@) =~= ltype_views(children@.take(i as int)),
                decreases children@.len() - i,
            {
                proof {
                    assert(t->Struct_0 == *children);
                    assert(decreases_to!(*t => t->Struct_0@[i as int]));
                    assert(children@.take(i + 1).drop_last() =~= children@.take(i as int));
                    assert(children@.take(i + 1).last() == children@[i as int]);
                }
                let c = clone_logical_type(&children[i]);
                let ghost cs_old = cs@;
                cs.push(c);
                proof {
                    assert(cs@.drop_last() =~= cs_old);
                    assert(ltype_views(cs@.drop_last()) == ltype_views(cs_old));
                    assert(ltype_views(cs@) == ltype_views(cs_old).push(ltype_view(cs@.last())));
                    assert(ltype_views(children@.take(i + 1)) == ltype_views(
                        children@.take(i as int),
                    ).push(ltype_view(children@[i as int])));
                }
                i = i + 1;
            }
            proof {
                assert(children@.take(children@.len() as int) =~= children@);
            }
            LogicalType::Struct(cs)
        },
        LogicalType::Dictionary(id, vt) => LogicalType::Dictionary(
            *id,
            Box::new(clone_logical_type(vt)),
        ),
    }
}

pub fn clone_string(s: &String) -> (r: String)
    ensures
        r@ == s@,
{
    let out: String = s.as_str().to_owned();
    out
}

pub fn clone_field(f: &Field) -> (r: Field)
    ensures
        r.name@ == f.name@,
        ltype_view(r.dtype) == ltype_view(f.dtype),
{
    Field { name: clone_string(&f.name), dtype: clone_logical_type(&f.dtype) }
}

/// The position of `name` in the schema: the earliest match.
pub open spec fn spec_find_name(schema: Seq<Field>, name: Seq<char>) -> Option<int>
    decreases schema,
{
    if schema.len() == 0 {
        None
    } else if schema[0].name@ == name {
        Some(0)
    } else {
        match spec_find_name(schema.drop_first(), name) {
            None => None,
            Some(i) => Some(i + 1),
        }
    }
}

/// A found position is in range, carries the name, and is the earliest.
pub proof fn lemma_find_name_ok(schema: Seq<Field>, name: Seq<char>)
    requires
        spec_find_name(schema, name) is Some,
    ensures
        ({
            let i = spec_find_name(schema, name)->Some_0;
            0 <= i < schema.len() && schema[i].name@ == name
        }),
    decreases schema,
{
    if schema.len() > 0 && schema[0].name@ != name {
        lemma_find_name_ok(schema.drop_first(), name);
    }
}

/// What resolving a name list against the schema yields: the position of
/// each name in order, or the first name that is absent.
pub open spec fn spec_columns_to_projection(schema: Seq<Field>, columns: Seq<Seq<char>>) -> Result<
    Seq<usize>,
    Seq<char>,
>
    decreases columns,
{
    if columns.len() == 0 {
        Ok(Seq::empty())
    } else {
        match spec_find_name(schema, columns[0]) {
            None => Err(columns[0]),
            Some(i) => match spec_columns_to_projection(schema, columns.drop_first()) {
                Err(n) => Err(n),
                Ok(rest) => Ok(Seq::empty().push(i as usize) + rest),
            },
        }
    }
}

/// Find the position of one column name in the schema.
pub fn find_name(schema: &Vec<Field>, name: &String) -> (r: Option<usize>)
    ensures
        match r {
            Some(i) => spec_find_name(schema@, name@) == Some(i as int),
            None => spec_find_name(schema@, name@) is None,
        },
{
    let mut i: usize = 0;
    proof {
        assert(schema@.skip(0) =~= schema@);
    }
    #[verifier::loop_isolation(false)]
    while i < schema.len()
        invariant
            i <= schema@.len(),
            spec_find_name(schema@, name@) == (match spec_find_name(
                schema@.skip(i as int),
                name@,
            ) {
                None => None,
                Some(j) => Some(i + j),
            }),
        decreases schema@.len() - i,
    {
        proof {
            assert(schema@.skip(i as int)[0] == schema@[i as int]);
            assert(schema@.skip(i as int).drop_first() =~= schema@.skip(i + 1));
        }
        if schema[i].name.eq(name) {
            return Some(i);
        }
        i = i + 1;
    }
    proof {
        assert(schema@.skip(schema@.len() as int).len() == 0);
    }
    None
}

/// Resolve a user-specified column-name projection into a position-based
/// projection against the schema; a name absent from the schema is a
/// column-not-found error.
pub fn columns_to_projection(schema: &Vec<Field>, columns: &Vec<String>) -> (r: Result<
    Vec<usize>,
    IpcError,
>)
    ensures
        match r {
            Ok(p) => {
                &&& spec_columns_to_projection(
                    schema@,
                    columns.deep_view(),
                ) matches Ok(sp) && p@ == sp
                &&& forall|k: int|
                    0 <= k < p@.len() ==> (#[trigger] p@[k]) < schema@.len() && schema@[p@[k] as int].name@
                        == columns@[k]@
            },
            Err(e) => {
                &&& spec_columns_to_projection(
                    schema@,
                    columns.deep_view(),
                ) matches Err(n) && e matches IpcError::ColumnNotFound { name } && name@ == n
            },
        },
{
    let ghost cols = columns.deep_view();
    let mut out: Vec<usize> = Vec::new();
    let mut k: usize = 0;
    proof {
        assert(cols.skip(0) =~= cols);
    }
    #[verifier::loop_isolation(false)]
    while k < columns.len()
        invariant
            k <= columns@.len(),
            cols.len() == columns@.len(),
            out@.len() == k,
            forall|j: int|
                0 <= j < k ==> (#[trigger] out@[j]) < schema@.len() && schema@[out@[j] as int].name@
                    == columns@[j]@,
            spec_columns_to_projection(schema@, cols) == (match spec_columns_to_projection(
                schema@,
                cols.skip(k as int),
            ) {
                Ok(rest) => Ok::<Seq<usize>, Seq<char>>(out@ + rest),
                Err(n) => Err::<Seq<usize>, Seq<char>>(n),
            }),
        decreases columns@.len() - k,
    {
        proof {
            assert(cols.skip(k as int)[0] == columns@[k as int]@);
            assert(cols.skip(k as int).drop_first() =~= cols.skip(k + 1));
        }
        match find_name(schema, &columns[k]) {
            None => {
                return Err(IpcError::ColumnNotFound { name: clone_string(&columns[k]) });
            },
            Some(i) => {
                proof {
                    lemma_find_name_ok(schema@, columns@[k as int]@);
                }
                let ghost out_old = out@;
                out.push(i);
                proof {
                    let restr = spec_columns_to_projection(schema@, cols.skip(k + 1));
                    assert(spec_columns_to_projection(schema@, cols.skip(k as int)) == (
                    match restr {
                        Ok(rest) => Ok::<Seq<usize>, Seq<char>>(Seq::empty().push(i) + rest),
                        Err(n) => Err::<Seq<usize>, Seq<char>>(n),
                    }));
                    if restr is Ok {
                        assert(out_old + (Seq::empty().push(i) + restr->Ok_0) =~= out@
                            + restr->Ok_0);
                    }
                }
                k = k + 1;
            },
        }
    }
    proof {
        assert(cols.skip(cols.len() as int).len() == 0);
        assert(out@ + Seq::<usize>::empty() =~= out@);
    }
    Ok(out)
}

/// Whether column `i` of the schema is materialized under the projection:
/// with no projection every column is, with one only its members are.
pub open spec fn spec_is_projected(proj: Option<Seq<usize>>, i: usize) -> bool {
    match proj {
        None => true,
        Some(p) => p.contains(i),
    }
}

/// What decoding one record batch yields under a projection: the columns
/// of the schema in order, each decoded if projected and skipped if not,
/// both advancing the queues by the column's exact footprint. The result
/// pairs each materialized array with its schema position.
pub open spec fn spec_batch_cols(
    fields: Seq<Field>,
    base: usize,
    nodes: Seq<FieldNode>,
    np: int,
    bufs: Seq<Seq<u8>>,
    bp: int,
    little_endian: bool,
    comp: Option<Compression>,
    limit: Option<usize>,
    dicts: Seq<(u64, ArrayV)>,
    proj: Option<Seq<usize>>,
) -> Result<Seq<(usize, ArrayV)>, IpcError>
    decreases fields,
{
    if fields.len() == 0 {
        Ok(Seq::empty())
    } else {
        let t = fields[0].dtype;
        if spec_is_projected(proj, base) {
            match crate::decode::spec_read(t, nodes, np, bufs, bp, little_endian, comp, limit, dicts) {
                Err(e) => Err(e),
                Ok(a) => match spec_batch_cols(
                    fields.drop_first(),
                    (base + 1) as usize,
                    nodes,
                    np + crate::dtypes::node_count(t),
                    bufs,
                    bp + crate::dtypes::buffer_count(t),
                    little_endian,
                    comp,
                    limit,
                    dicts,
                    proj,
                ) {
                    Err(e) => Err(e),
                    Ok(rest) => Ok(Seq::empty().push((base, a)) + rest),
                },
            }
        } else {
            match crate::decode::spec_skip(t, nodes, np, bufs, bp) {
                Err(e) => Err(e),
                Ok(_) => spec_batch_cols(
                    fields.drop_first(),
                    (base + 1) as usize,
                    nodes,
                    np + crate::dtypes::node_count(t),
                    bufs,
                    bp + crate::dtypes::buffer_count(t),
                    little_endian,
                    comp,
                    limit,
                    dicts,
                    proj,
                ),
            }
        }
    }
}

pub open spec fn pairs_view(s: Seq<(usize, Array)>) -> Seq<(usize, ArrayV)> {
    Seq::new(s.len(), |i: int| (s[i].0, crate::arrays::array_view(s[i].1)))
}

pub open spec fn proj_view(p: Option<&Vec<usize>>) -> Option<Seq<usize>> {
    match p {
        None => None,
        Some(v) => Some(v@),
    }
}

pub open spec fn compose_pairs(
    prefix: Seq<(usize, ArrayV)>,
    rest: Result<Seq<(usize, ArrayV)>, IpcError>,
) -> Result<Seq<(usize, ArrayV)>, IpcError> {
    match rest {
        Ok(r) => Ok(prefix + r),
        Err(e) => Err(e),
    }
}

/// Whether the projection set holds `i`.
pub fn contains_idx(p: &Vec<usize>, i: usize) -> (r: bool)
    ensures
        r == p@.contains(i),
{
    let mut j: usize = 0;
    #[verifier::loop_isolation(false)]
    while j < p.len()
        invariant
            j <= p@.len(),
            forall|k: int| 0 <= k < j ==> p@[k] != i,
        decreases p@.len() - j,
    {
        if p[j] == i {
            return true;
        }
        j = j + 1;
    }
    false
}

/// Decode one record batch against the schema: every projected column is
/// materialized, every other column is skipped, and the cursor is left
/// exactly where the writer's pre-order layout says the batch ends.
#[verifier::loop_isolation(false)]
#[verifier::rlimit(60)]
pub fn decode_batch_cols(
    cursor: &mut BatchCursor,
    fields: &Vec<Field>,
    projection: Option<&Vec<usize>>,
    dicts: &Dictionaries,
    little_endian: bool,
    compression: Option<Compression>,
    limit: Option<usize>,
    version: Version,
) -> (r: Result<Vec<(usize, Array)>, IpcError>)
    requires
        old(cursor).wf(),
        fields@.len() <= usize::MAX,
    ensures
        final(cursor).wf(),
        final(cursor).nodes == old(cursor).nodes,
        final(cursor).buffers == old(cursor).buffers,
        match r {
            Ok(v) => spec_batch_cols(
                fields@,
                0,
                old(cursor).nodes@,
                old(cursor).node_pos as int,
                old(cursor).bufs(),
                old(cursor).buffer_pos as int,
                little_endian,
                compression,
                limit,
                dicts@,
                proj_view(projection),
            ) == Ok::<Seq<(usize, ArrayV)>, IpcError>(pairs_view(v@)),
            Err(e) => spec_batch_cols(
                fields@,
                0,
                old(cursor).nodes@,
                old(cursor).node_pos as int,
                old(cursor).bufs(),
                old(cursor).buffer_pos as int,
                little_endian,
                compression,
                limit,
                dicts@,
                proj_view(projection),
            ) == Err::<Seq<(usize, ArrayV)>, IpcError>(e),
        },
{
    let ghost fs = fields@;
    let ghost np0 = cursor.node_pos as int;
    let ghost bp0 = cursor.buffer_pos as int;
    let ghost pv = proj_view(projection);
    let mut out: Vec<(usize, Array)> = Vec::new();
    let mut i: usize = 0;
    proof {
        assert(fs.skip(0) =~= fs);
        assert(pairs_view(out@) =~= Seq::<(usize, ArrayV)>::empty());
    }
    while i < fields.len()
        invariant
            i <= fs.len(),
            cursor.wf(),
            cursor.nodes == old(cursor).nodes,
            cursor.buffers == old(cursor).buffers,
            spec_batch_cols(
                fs,
                0,
                cursor.nodes@,
                np0,
                cursor.bufs(),
                bp0,
                little_endian,
                compression,
                limit,
                dicts@,
                pv,
            ) == compose_pairs(
                pairs_view(out@),
                spec_batch_cols(
                    fs.skip(i as int),
                    i,
                    cursor.nodes@,
                    cursor.node_pos as int,
                    cursor.bufs(),
                    cursor.buffer_pos as int,
                    little_endian,
                    compression,
                    limit,
                    dicts@,
                    pv,
                ),
            ),
        decreases fs.len() - i,
    {
        proof {
            assert(fs.skip(i as int)[0] == fs[i as int]);
            assert(fs.skip(i as int).drop_first() =~= fs.skip(i + 1));
        }
        let projected = match projection {
            None => true,
            Some(p) => contains_idx(p, i),
        };
        proof {
            assert(projected == spec_is_projected(pv, i));
        }
        if projected {
            let a = match crate::decode::read(
                cursor,
                &fields[i].dtype,
                dicts,
                little_endian,
                compression,
                limit,
                version,
            ) {
                Ok(a) => a,
                Err(e) => {
                    return Err(e);
                },
            };
            let ghost out_old = out@;
            out.push((i, a));
            proof {
                assert(pairs_view(out@) =~= pairs_view(out_old).push(
                    (i, crate::arrays::array_view(out@.last().1)),
                ));
                let restr = spec_batch_cols(
                    fs.skip(i + 1),
                    (i + 1) as usize,
                    cursor.nodes@,
                    cursor.node_pos as int,
                    cursor.bufs(),
                    cursor.buffer_pos as int,
                    little_endian,
                    compression,
                    limit,
                    dicts@,
                    pv,
                );
                if restr is Ok {
                    assert(pairs_view(out_old) + (Seq::empty().push(
                        (i, crate::arrays::array_view(out@.last().1)),
                    ) + restr->Ok_0) =~= pairs_view(out@) + restr->Ok_0);
                }
            }
            i = i + 1;
        } else {
            match crate::decode::skip(cursor, &fields[i].dtype) {
                Ok(_) => {},
                Err(e) => {
                    return Err(e);
                },
            }
            i = i + 1;
        }
    }
    proof {
        assert(fs.skip(fs.len() as int).len() == 0);
        assert(pairs_view(out@) + Seq::<(usize, ArrayV)>::empty() =~= pairs_view(out@));
    }
    Ok(out)
}

/// Apply a position-based projection to the schema.
pub fn apply_projection(schema: &Vec<Field>, projection: &Vec<usize>) -> (r: Vec<Field>)
    requires
        forall|k: int| 0 <= k < projection@.len() ==> (#[trigger] projection@[k]) < schema@.len(),
    ensures
        r@.len() == projection@.len(),
        forall|k: int|
            0 <= k < r@.len() ==> (#[trigger] r@[k]).name@ == schema@[projection@[k] as int].name@
                && ltype_view(r@[k].dtype) == ltype_view(schema@[projection@[k] as int].dtype),
{
    let mut out: Vec<Field> = Vec::new();
    let mut k: usize = 0;
    #[verifier::loop_isolation(false)]
    while k < projection.len()
        invariant
            k <= projection@.len(),
            out@.len() == k,
            forall|j: int|
                0 <= j < k ==> (#[trigger] out@[j]).name@ == schema@[projection@[j] as int].name@
                    && ltype_view(out@[j].dtype) == ltype_view(
                    schema@[projection@[j] as int].dtype,
                ),
        decreases projection@.len() - k,
    {
        let f = clone_field(&schema[projection[k]]);
        out.push(f);
        k = k + 1;
    }
    out
}

/// The column store of a decoded frame: per-batch chunks of one decoded
/// column, or a constant string column (the injected file path).
#[derive(Debug, PartialEq)]
pub enum ColumnData {
    Chunks(Vec<Array>),
    StrScalar(String),
}

#[derive(Debug, PartialEq)]
pub struct FrameColumn {
    pub name: String,
    pub data: ColumnData,
}

/// The decoded row batch handed to the caller.
#[derive(Debug, PartialEq)]
pub struct DataFrame {
    pub height: usize,
    pub columns: Vec<FrameColumn>,
}

pub enum ColumnDataV {
    Chunks(Seq<ArrayV>),
    StrScalar(Seq<char>),
}

pub struct FrameColumnV {
    pub name: Seq<char>,
    pub data: ColumnDataV,
}

pub struct DataFrameV {
    pub height: nat,
    pub columns: Seq<FrameColumnV>,
}

pub open spec fn column_data_view(d: ColumnData) -> ColumnDataV {
    match d {
        ColumnData::Chunks(cs) => ColumnDataV::Chunks(views_of(cs@)),
        ColumnData::StrScalar(s) => ColumnDataV::StrScalar(s@),
    }
}

pub open spec fn column_view(c: FrameColumn) -> FrameColumnV {
    FrameColumnV { name: c.name@, data: column_data_view(c.data) }
}

pub open spec fn columns_view(s: Seq<FrameColumn>) -> Seq<FrameColumnV> {
    Seq::new(s.len(), |i: int| column_view(s[i]))
}

impl View for DataFrame {
    type V = DataFrameV;

    open spec fn view(&self) -> DataFrameV {
        DataFrameV { height: self.height as nat, columns: columns_view(self.columns@) }
    }
}

/// The row cap left after a batch of declared height `h` was decoded under
/// cap `rem`.
pub open spec fn spec_remaining_after(rem: Option<usize>, h: usize) -> Option<usize> {
    match rem {
        None => None,
        Some(x) => Some(
            if h < x {
                (x - h) as usize
            } else {
                0
            },
        ),
    }
}

/// The per-batch decode results of a whole file under a row cap: batches
/// are decoded in order, each against the remaining cap, until the cap is
/// exhausted or the batches run out.
pub open spec fn spec_batches_cols(
    batches: Seq<EncodedBatch>,
    fields: Seq<Field>,
    proj: Option<Seq<usize>>,
    rem: Option<usize>,
    little_endian: bool,
    comp: Option<Compression>,
    dicts: Seq<(u64, ArrayV)>,
) -> Result<Seq<Seq<(usize, ArrayV)>>, IpcError>
    decreases batches,
{
    if batches.len() == 0 || (rem matches Some(x) && x == 0) {
        Ok(Seq::empty())
    } else {
        match spec_batch_cols(
            fields,
            0,
            batches[0].nodes@,
            0,
            batches[0].buffers.deep_view(),
            0,
            little_endian,
            comp,
            rem,
            dicts,
            proj,
        ) {
            Err(e) => Err(e),
            Ok(pairs) => match spec_batches_cols(
                batches.drop_first(),
                fields,
                proj,
                spec_remaining_after(rem, batches[0].height),
                little_endian,
                comp,
                dicts,
            ) {
                Err(e) => Err(e),
                Ok(rest) => Ok(Seq::empty().push(pairs) + rest),
            },
        }
    }
}

/// The total decoded height under a row cap (unclamped).
pub open spec fn spec_batches_height(batches: Seq<EncodedBatch>, rem: Option<usize>) -> nat
    decreases batches,
{
    if batches.len() == 0 || (rem matches Some(x) && x == 0) {
        0
    } else {
        (match rem {
            None => batches[0].height as nat,
            Some(x) => if batches[0].height < x {
                batches[0].height as nat
            } else {
                x as nat
            },
        }) + spec_batches_height(batches.drop_first(), spec_remaining_after(rem, batches[0].height))
    }
}

pub open spec fn spec_clamp(n: nat) -> nat {
    if n > usize::MAX {
        usize::MAX as nat
    } else {
        n
    }
}

pub open spec fn batches_pairs_view(s: Seq<Vec<(usize, Array)>>) -> Seq<Seq<(usize, ArrayV)>> {
    Seq::new(s.len(), |b: int| pairs_view(s[b]@))
}

pub fn clone_u8s(v: &Vec<u8>) -> (r: Vec<u8>)
    ensures
        r@ == v@,
{
    let mut out: Vec<u8> = Vec::new();
    let mut i: usize = 0;
    while i < v.len()
        invariant
            i <= v@.len(),
            out@ =~= v@.take(i as int),
        decreases v@.len() - i,
    {
        out.push(v[i]);
        i = i + 1;
    }
    proof {
        assert(v@.take(v@.len() as int) =~= v@);
    }
    out
}

pub fn clone_nodes(v: &Vec<FieldNode>) -> (r: Vec<FieldNode>)
    ensures
        r@ == v@,
{
    let mut out: Vec<FieldNode> = Vec::new();
    let mut i: usize = 0;
    while i < v.len()
        invariant
            i <= v@.len(),
            out@ =~= v@.take(i as int),
        decreases v@.len() - i,
    {
        out.push(v[i]);
        i = i + 1;
    }
    proof {
        assert(v@.take(v@.len() as int) =~= v@);
    }
    out
}

pub fn clone_buffers(v: &Vec<Vec<u8>>) -> (r: Vec<Vec<u8>>)
    ensures
        r.deep_view() == v.deep_view(),
{
    let mut out: Vec<Vec<u8>> = Vec::new();
    let mut i: usize = 0;
    while i < v.len()
        invariant
            i <= v@.len(),
            out@.len() == i,
            forall|k: int| 0 <= k < i ==> (#[trigger] out@[k])@ == v@[k]@,
        decreases v@.len() - i,
    {
        let b = clone_u8s(&v[i]);
        out.push(b);
        i = i + 1;
    }
    proof {
        assert(out.deep_view() =~~= v.deep_view());
    }
    out
}

pub fn saturating_add_usize(a: usize, b: usize) -> (r: usize)
    ensures
        r as nat == spec_clamp(a as nat + b as nat),
{
    match a.checked_add(b) {
        Some(v) => v,
        None => usize::MAX,
    }
}

/// Decode every record batch of the file (until the row cap is exhausted),
/// returning the per-batch column pairs and the clamped total height.
#[verifier::loop_isolation(false)]
#[verifier::rlimit(60)]
pub fn decode_all_batches(
    file: &IpcFile,
    projection: Option<&Vec<usize>>,
    n_rows: Option<usize>,
) -> (r: Result<(Vec<Vec<(usize, Array)>>, usize), IpcError>)
    ensures
        match r {
            Ok((bs, h)) => {
                &&& spec_batches_cols(
                    file.batches@,
                    file.schema@,
                    proj_view(projection),
                    n_rows,
                    file.is_little_endian,
                    file.compression,
                    file.dictionaries@,
                ) == Ok::<Seq<Seq<(usize, ArrayV)>>, IpcError>(batches_pairs_view(bs@))
                &&& h as nat == spec_clamp(spec_batches_height(file.batches@, n_rows))
            },
            Err(e) => spec_batches_cols(
                file.batches@,
                file.schema@,
                proj_view(projection),
                n_rows,
                file.is_little_endian,
                file.compression,
                file.dictionaries@,
            ) == Err::<Seq<Seq<(usize, ArrayV)>>, IpcError>(e),
        },
{
    let nfields = file.schema.len();
    let nbatches = file.batches.len();
    let ghost bs0 = file.batches@;
    let mut out: Vec<Vec<(usize, Array)>> = Vec::new();
    let mut height: usize = 0;
    let ghost mut height_g: nat = 0nat;
    let mut rem: Option<usize> = n_rows;
    let mut b: usize = 0;
    let mut done = false;
    proof {
        assert(bs0.skip(0) =~= bs0);
        assert(batches_pairs_view(out@) =~= Seq::<Seq<(usize, ArrayV)>>::empty());
    }
    while b < nbatches && !done
        invariant
            b <= bs0.len(),
            out@.len() == b,
            height_g + spec_batches_height(bs0.skip(b as int), rem) == spec_batches_height(
                bs0,
                n_rows,
            ),
            height as nat == spec_clamp(height_g),
            done ==> (rem matches Some(x) && x == 0),
            spec_batches_cols(
                bs0,
                file.schema@,
                proj_view(projection),
                n_rows,
                file.is_little_endian,
                file.compression,
                file.dictionaries@,
            ) == (match spec_batches_cols(
                bs0.skip(b as int),
                file.schema@,
                proj_view(projection),
                rem,
                file.is_little_endian,
                file.compression,
                file.dictionaries@,
            ) {
                Ok(rest) => Ok::<Seq<Seq<(usize, ArrayV)>>, IpcError>(batches_pairs_view(out@)
                    + rest),
                Err(e) => Err::<Seq<Seq<(usize, ArrayV)>>, IpcError>(e),
            }),
        decreases bs0.len() - b, (if done {
            0int
        } else {
            1int
        }),
    {
        let stop = match rem {
            Some(x) => x == 0,
            None => false,
        };
        if stop {
            done = true;
        } else {
            proof {
                assert(bs0.skip(b as int)[0] == bs0[b as int]);
                assert(bs0.skip(b as int).drop_first() =~= bs0.skip(b + 1));
            }
            let batch = &file.batches[b];
            let nodes = clone_nodes(&batch.nodes);
            let buffers = clone_buffers(&batch.buffers);
            let mut cursor = BatchCursor::new(nodes, buffers);
            let pairs = match decode_batch_cols(
                &mut cursor,
                &file.schema,
                projection,
                &file.dictionaries,
                file.is_little_endian,
                file.compression,
                rem,
                file.version,
            ) {
                Ok(p) => p,
                Err(e) => {
                    return Err(e);
                },
            };
            let bh = batch.height;
            let used: usize = match rem {
                None => bh,
                Some(x) => if bh < x {
                    bh
                } else {
                    x
                },
            };
            let ghost out_old = out@;
            out.push(pairs);
            proof {
                assert(batches_pairs_view(out@) =~= batches_pairs_view(out_old).push(
                    pairs_view(out@.last()@),
                ));
                let restr = spec_batches_cols(
                    bs0.skip(b + 1),
                    file.schema@,
                    proj_view(projection),
                    spec_remaining_after(rem, bh),
                    file.is_little_endian,
                    file.compression,
                    file.dictionaries@,
                );
                if restr is Ok {
                    assert(batches_pairs_view(out_old) + (Seq::empty().push(
                        pairs_view(out@.last()@),
                    ) + restr->Ok_0) =~= batches_pairs_view(out@) + restr->Ok_0);
                }
            }
            height = saturating_add_usize(height, used);
            proof {
                height_g = height_g + used as nat;
            }
            rem = match rem {
                None => None,
                Some(x) => Some(
                    if bh < x {
                        x - bh
                    } else {
                        0
                    },
                ),
            };
            b = b + 1;
        }
    }
    proof {
        if b == bs0.len() {
            assert(bs0.skip(b as int).len() == 0);
        }
        assert(spec_batches_height(bs0.skip(b as int), rem) == 0);
        assert(batches_pairs_view(out@) + Seq::<Seq<(usize, ArrayV)>>::empty()
            =~= batches_pairs_view(out@));
    }
    Ok((out, height))
}

/// The array a batch decoded for schema position `idx`: the earliest pair
/// with that position, or an empty placeholder if the position was never
/// materialized.
pub open spec fn spec_pair_for(pairs: Seq<(usize, ArrayV)>, idx: usize) -> ArrayV
    decreases pairs,
{
    if pairs.len() == 0 {
        ArrayV::Int64 { validity: None, values: Seq::empty() }
    } else if pairs[0].0 == idx {
        pairs[0].1
    } else {
        spec_pair_for(pairs.drop_first(), idx)
    }
}

/// Find the decoded array for schema position `idx` in one batch's pairs.
pub fn find_pair<'a>(pairs: &'a Vec<(usize, Array)>, idx: usize) -> (r: Option<&'a Array>)
    ensures
        match r {
            Some(a) => spec_pair_for(pairs_view(pairs@), idx) == a@,
            None => spec_pair_for(pairs_view(pairs@), idx) == (ArrayV::Int64 {
                validity: None,
                values: Seq::empty(),
            }),
        },
{
    let ghost pv = pairs_view(pairs@);
    let mut i: usize = 0;
    proof {
        assert(pv.skip(0) =~= pv);
    }
    #[verifier::loop_isolation(false)]
    while i < pairs.len()
        invariant
            i <= pairs@.len(),
            pv.len() == pairs@.len(),
            spec_pair_for(pv, idx) == spec_pair_for(pv.skip(i as int), idx),
        decreases pairs@.len() - i,
    {
        proof {
            assert(pv.skip(i as int)[0] == pv[i as int]);
            assert(pv.skip(i as int).drop_first() =~= pv.skip(i + 1));
        }
        if pairs[i].0 == idx {
            return Some(&pairs[i].1);
        }
        i = i + 1;
    }
    proof {
        assert(pv.skip(pv.len() as int).len() == 0);
    }
    None
}

/// The columns of the decoded frame, in projection order (schema order
/// when there is no projection): each column's chunks are its per-batch
/// decoded arrays.
pub open spec fn spec_assemble(
    fields: Seq<Field>,
    proj: Option<Seq<usize>>,
    bps: Seq<Seq<(usize, ArrayV)>>,
) -> Seq<FrameColumnV> {
    let idxs = (match proj {
        None => Seq::new(fields.len(), |k: int| k as usize),
        Some(p) => p,
    });
    Seq::new(
        idxs.len(),
        |k: int|
            FrameColumnV {
                name: fields[idxs[k] as int].name@,
                data: ColumnDataV::Chunks(
                    Seq::new(bps.len(), |b: int| spec_pair_for(bps[b], idxs[k])),
                ),
            },
    )
}

/// Materialize the frame columns from the per-batch decode results.
#[verifier::loop_isolation(false)]
#[verifier::rlimit(60)]
pub fn assemble_columns(
    fields: &Vec<Field>,
    projection: Option<&Vec<usize>>,
    batches: &Vec<Vec<(usize, Array)>>,
) -> (r: Vec<FrameColumn>)
    requires
        match projection {
            Some(p) => forall|k: int| 0 <= k < p@.len() ==> (#[trigger] p@[k]) < fields@.len(),
            None => true,
        },
    ensures
        columns_view(r@) == spec_assemble(
            fields@,
            proj_view(projection),
            batches_pairs_view(batches@),
        ),
{
    let ghost target = spec_assemble(fields@, proj_view(projection), batches_pairs_view(batches@));
    let n: usize = match projection {
        Some(p) => p.len(),
        None => fields.len(),
    };
    let mut out: Vec<FrameColumn> = Vec::new();
    let mut k: usize = 0;
    while k < n
        invariant
            k <= n,
            out@.len() == k,
            target.len() == n,
            forall|j: int| 0 <= j < k ==> column_view(#[trigger] out@[j]) == target[j],
        decreases n - k,
    {
        let idx: usize = match projection {
            Some(p) => p[k],
            None => k,
        };
        let mut chunks: Vec<Array> = Vec::new();
        let mut b: usize = 0;
        while b < batches.len()
            invariant
                b <= batches@.len(),
                idx < fields@.len(),
                chunks@.len() == b,
                views_of(chunks@) =~= Seq::new(
                    b as nat,
                    |j: int| spec_pair_for(batches_pairs_view(batches@)[j], idx),
                ),
            decreases batches@.len() - b,
        {
            let a = match find_pair(&batches[b], idx) {
                Some(a) => clone_array(a),
                None => Array::Int64 { validity: None, values: Vec::new() },
            };
            let ghost chunks_old = chunks@;
            chunks.push(a);
            proof {
                assert(chunks@.drop_last() =~= chunks_old);
                assert(views_of(chunks@.drop_last()) == views_of(chunks_old));
                assert(views_of(chunks@) == views_of(chunks_old).push(
                    crate::arrays::array_view(chunks@.last()),
                ));
                assert(batches_pairs_view(batches@)[b as int] == pairs_view(
                    batches@[b as int]@,
                ));
                assert(views_of(chunks@) =~= Seq::new(
                    (b + 1) as nat,
                    |j: int| spec_pair_for(batches_pairs_view(batches@)[j], idx),
                ));
            }
            b = b + 1;
        }
        let name = clone_string(&fields[idx].name);
        out.push(FrameColumn { name, data: ColumnData::Chunks(chunks) });
        proof {
            assert(column_view(out@.last()) == target[k as int]);
        }
        k = k + 1;
    }
    proof {
        assert(columns_view(out@) =~= target);
    }
    out
}

/// A row-index column request: its name and the caller-specified starting
/// offset.
#[derive(Debug, PartialEq)]
pub struct RowIndex {
    pub name: String,
    pub offset: u32,
}

/// Scan-level options of the interchange reader.
#[derive(Clone, Debug, PartialEq, Hash)]
pub struct IpcScanOptions;

impl Default for IpcScanOptions {
    fn default() -> (r: Self)
        ensures
            r == IpcScanOptions,
    {
        Self {  }
    }
}

/// One entry of the orchestrator's diagnostic channel; the caller decides
/// how to surface them.
#[derive(Clone, Copy, Debug, PartialEq, Eq, Structural)]
pub enum Diagnostic {
    /// The memory-mapped strategy was chosen (reported only when verbose).
    MemoryMapAttempted,
    /// Memory-mapping was requested but the file is block compressed; the
    /// orchestrator degraded to the streaming path. Emitted exactly once.
    MemoryMapCompressedFallback,
}

/// A decoded frame plus whatever diagnostics the orchestration emitted.
#[derive(Debug, PartialEq)]
pub struct FinishOutput {
    pub df: DataFrame,
    pub diagnostics: Vec<Diagnostic>,
}

/// The total declared row count of the file, as the height-only fast path
/// computes it.
pub open spec fn spec_total_rows(batches: Seq<EncodedBatch>) -> nat
    decreases batches,
{
    if batches.len() == 0 {
        0
    } else {
        batches[0].height as nat + spec_total_rows(batches.drop_first())
    }
}

/// Count the file's declared rows without decoding any column.
pub fn total_row_count(batches: &Vec<EncodedBatch>) -> (r: usize)
    ensures
        r as nat == spec_clamp(spec_total_rows(batches@)),
{
    let ghost bs = batches@;
    let mut acc: usize = 0;
    let ghost mut acc_g: nat = 0nat;
    let mut b: usize = 0;
    proof {
        assert(bs.skip(0) =~= bs);
    }
    #[verifier::loop_isolation(false)]
    while b < batches.len()
        invariant
            b <= bs.len(),
            acc as nat == spec_clamp(acc_g),
            acc_g + spec_total_rows(bs.skip(b as int)) == spec_total_rows(bs),
        decreases bs.len() - b,
    {
        proof {
            assert(bs.skip(b as int)[0] == bs[b as int]);
            assert(bs.skip(b as int).drop_first() =~= bs.skip(b + 1));
        }
        acc = saturating_add_usize(acc, batches[b].height);
        proof {
            acc_g = acc_g + bs[b as int].height as nat;
        }
        b = b + 1;
    }
    proof {
        assert(bs.skip(bs.len() as int).len() == 0);
    }
    acc
}

/// Whether a row-index column starting at `offset` can number `height`
/// rows.
pub open spec fn spec_ri_ok(ri: Option<RowIndex>, height: nat) -> bool {
    match ri {
        None => true,
        Some(r) => height + r.offset <= u32::MAX + 1,
    }
}

/// The injected row-index column, numbering the rows from the offset on.
pub open spec fn spec_ri_cols(ri: Option<RowIndex>, height: nat) -> Seq<FrameColumnV> {
    match ri {
        None => Seq::empty(),
        Some(r) => seq![
            FrameColumnV {
                name: r.name@,
                data: ColumnDataV::Chunks(
                    seq![
                        ArrayV::Int64 {
                            validity: None,
                            values: Seq::new(height, |i: int| (r.offset + i) as i64),
                        },
                    ],
                ),
            },
        ],
    }
}

pub open spec fn spec_hive_ok(hive: Option<Vec<(String, Array)>>, height: nat) -> bool {
    match hive {
        None => true,
        Some(hs) => forall|i: int|
            0 <= i < hs@.len() ==> crate::arrays::len_v(
                crate::arrays::array_view((#[trigger] hs@[i]).1),
            ) == height,
    }
}

pub open spec fn spec_hive_cols(hive: Option<Vec<(String, Array)>>) -> Seq<FrameColumnV> {
    match hive {
        None => Seq::empty(),
        Some(hs) => Seq::new(
            hs@.len(),
            |i: int|
                FrameColumnV {
                    name: hs@[i].0@,
                    data: ColumnDataV::Chunks(
                        seq![crate::arrays::array_view(hs@[i].1)],
                    ),
                },
        ),
    }
}

pub open spec fn spec_path_cols(p: Option<(String, String)>) -> Seq<FrameColumnV> {
    match p {
        None => Seq::empty(),
        Some(pp) => seq![
            FrameColumnV { name: pp.0@, data: ColumnDataV::StrScalar(pp.1@) },
        ],
    }
}

/// Prepend the row-index column, or fail if the offset cannot number this
/// many rows.
pub fn inject_row_index(df: DataFrame, ri: &RowIndex) -> (r: Result<DataFrame, IpcError>)
    ensures
        match r {
            Ok(d) => {
                &&& spec_ri_ok(Some(RowIndex { name: ri.name, offset: ri.offset }), df@.height)
                &&& d@.height == df@.height
                &&& d@.columns == spec_ri_cols(
                    Some(RowIndex { name: ri.name, offset: ri.offset }),
                    df@.height,
                ) + df@.columns
            },
            Err(e) => {
                &&& !spec_ri_ok(Some(RowIndex { name: ri.name, offset: ri.offset }), df@.height)
                &&& e == IpcError::RowIndexOverflow { height: df.height, offset: ri.offset }
            },
        },
{
    let height = df.height;
    let fits = height == 0 || (height - 1) <= (u32::MAX - ri.offset) as usize;
    if !fits {
        return Err(IpcError::RowIndexOverflow { height, offset: ri.offset });
    }
    let mut values: Vec<i64> = Vec::new();
    let mut i: usize = 0;
    #[verifier::loop_isolation(false)]
    while i < height
        invariant
            i <= height,
            height + ri.offset <= u32::MAX + 1,
            values@.len() == i,
            forall|k: int| 0 <= k < i ==> values@[k] == (ri.offset + k) as i64,
        decreases height - i,
    {
        values.push(ri.offset as i64 + i as i64);
        i = i + 1;
    }
    let ghost vv = values@;
    let mut columns: Vec<FrameColumn> = Vec::new();
    let mut chunks: Vec<Array> = Vec::new();
    chunks.push(Array::Int64 { validity: None, values });
    proof {
        assert(vv =~= Seq::new(height as nat, |i: int| (ri.offset + i) as i64));
        assert(chunks@.drop_last() =~= Seq::<Array>::empty());
        assert(views_of(chunks@.drop_last()) == views_of(Seq::<Array>::empty()));
        assert(chunks@.last()->Int64_values@ == vv);
        assert(crate::arrays::array_view(chunks@.last()) == (ArrayV::Int64 {
            validity: None,
            values: vv,
        }));
        assert(views_of(chunks@) == Seq::empty().push(
            ArrayV::Int64 { validity: None, values: vv },
        ));
        assert(views_of(chunks@) =~= seq![
            ArrayV::Int64 {
                validity: None,
                values: Seq::new(height as nat, |i: int| (ri.offset + i) as i64),
            },
        ]);
    }
    let ghost chunks_v = chunks@;
    columns.push(FrameColumn { name: clone_string(&ri.name), data: ColumnData::Chunks(chunks) });
    let mut old_cols = df.columns;
    let ghost old_cols_v = old_cols@;
    columns.append(&mut old_cols);
    proof {
        assert(columns@[0].data->Chunks_0@ == chunks_v);
        assert(columns_view(columns@) =~= spec_ri_cols(
            Some(RowIndex { name: ri.name, offset: ri.offset }),
            height as nat,
        ) + columns_view(old_cols_v));
    }
    Ok(DataFrame { height, columns })
}

/// Append the hive-partition columns the caller materialized, or fail on a
/// height mismatch.
pub fn append_hive(df: DataFrame, hive: &Option<Vec<(String, Array)>>) -> (r: Result<
    DataFrame,
    IpcError,
>)
    ensures
        match r {
            Ok(d) => {
                &&& d@.height == df@.height
                &&& d@.columns == df@.columns + (match hive {
                    None => Seq::<FrameColumnV>::empty(),
                    Some(hs) => spec_hive_cols(Some(*hs)),
                })
                &&& (match hive {
                    None => true,
                    Some(hs) => spec_hive_ok(Some(*hs), df@.height),
                })
            },
            Err(e) => {
                &&& (match hive {
                    None => false,
                    Some(hs) => !spec_hive_ok(Some(*hs), df@.height),
                })
                &&& e matches IpcError::IntegrityMismatch(MismatchKind::HeightMismatch { .. })
            },
        },
{
    match hive {
        None => {
            proof {
                assert(df@.columns + Seq::<FrameColumnV>::empty() =~= df@.columns);
            }
            Ok(df)
        },
        Some(hs) => {
            let height = df.height;
            let mut columns = df.columns;
            let ghost base = columns@;
            let mut i: usize = 0;
            #[verifier::loop_isolation(false)]
            while i < hs.len()
                invariant
                    i <= hs@.len(),
                    columns@.len() == base.len() + i,
                    forall|k: int|
                        0 <= k < i ==> crate::arrays::len_v(
                            crate::arrays::array_view((#[trigger] hs@[k]).1),
                        ) == height as nat,
                    columns_view(columns@) =~= columns_view(base) + spec_hive_cols(
                        Some(*hs),
                    ).take(i as int),
                decreases hs@.len() - i,
            {
                let alen = hs[i].1.len();
                if alen != height {
                    return Err(IpcError::IntegrityMismatch(MismatchKind::HeightMismatch {
                        expected: height,
                        found: alen,
                    }));
                }
                let mut chunks: Vec<Array> = Vec::new();
                chunks.push(clone_array(&hs[i].1));
                proof {
                    assert(chunks@.drop_last() =~= Seq::<Array>::empty());
                    assert(views_of(chunks@.drop_last()) == views_of(Seq::<Array>::empty()));
                    assert(views_of(chunks@) =~= seq![crate::arrays::array_view(hs@[i as int].1)]);
                }
                let ghost chunks_v = chunks@;
                let ghost cols_old = columns@;
                columns.push(FrameColumn {
                    name: clone_string(&hs[i].0),
                    data: ColumnData::Chunks(chunks),
                });
                proof {
                    assert(columns@.last().data->Chunks_0@ == chunks_v);
                    assert(column_view(columns@.last()) == spec_hive_cols(Some(*hs))[i as int]);
                    let target = columns_view(base) + spec_hive_cols(Some(*hs)).take(i + 1);
                    assert forall|k: int| 0 <= k < columns@.len() implies columns_view(
                        columns@,
                    )[k] == target[k] by {
                        if k < cols_old.len() {
                            assert(columns@[k] == cols_old[k]);
                            assert(columns_view(cols_old)[k] == column_view(cols_old[k]));
                            assert((columns_view(base) + spec_hive_cols(Some(*hs)).take(
                                i as int,
                            ))[k] == target[k]);
                        } else {
                            assert(columns@[k] == columns@.last());
                            assert(target[k] == spec_hive_cols(Some(*hs)).take(i + 1)[i as int]);
                        }
                    }
                    assert(columns_view(columns@) =~= target);
                }
                i = i + 1;
            }
            proof {
                assert(spec_hive_cols(Some(*hs)).take(hs@.len() as int) =~= spec_hive_cols(
                    Some(*hs),
                ));
            }
            Ok(DataFrame { height, columns })
        },
    }
}

/// Append the constant file-path column.
pub fn append_path(df: DataFrame, path: &Option<(String, String)>) -> (r: DataFrame)
    ensures
        r@.height == df@.height,
        r@.columns == df@.columns + (match path {
            None => Seq::<FrameColumnV>::empty(),
            Some(pp) => spec_path_cols(Some(*pp)),
        }),
{
    match path {
        None => {
            proof {
                assert(df@.columns + Seq::<FrameColumnV>::empty() =~= df@.columns);
            }
            df
        },
        Some(pp) => {
            let mut columns = df.columns;
            let ghost base = columns@;
            columns.push(FrameColumn {
                name: clone_string(&pp.0),
                data: ColumnData::StrScalar(clone_string(&pp.1)),
            });
            proof {
                assert(columns_view(columns@) =~= columns_view(base) + spec_path_cols(
                    Some(*pp),
                ));
            }
            DataFrame { height: df.height, columns }
        },
    }
}

/// Recover from the one degradable failure: a memory-map attempt on a
/// block-compressed file. Every other error propagates as fatal.
pub fn check_mmap_err(err: IpcError) -> (r: Result<(), IpcError>)
    ensures
        match r {
            Ok(_) => err == IpcError::MemoryMapCompressed,
            Err(e) => e == err && err != IpcError::MemoryMapCompressed,
        },
{
    match err {
        IpcError::MemoryMapCompressed => Ok(()),
        _ => Err(err),
    }
}

/// The zero-copy strategy: decode directly against the addressable source.
/// Usable only when no block compression is present; on a compressed file
/// it fails with the degradable reason and decodes nothing.
pub fn finish_memory_mapped(
    file: &IpcFile,
    projection: Option<&Vec<usize>>,
    n_rows: Option<usize>,
) -> (r: Result<(Vec<Vec<(usize, Array)>>, usize), IpcError>)
    ensures
        file.compression is Some ==> r == Err::<(Vec<Vec<(usize, Array)>>, usize), IpcError>(
            IpcError::MemoryMapCompressed,
        ),
        file.compression is None ==> match r {
            Ok((bs, h)) => {
                &&& spec_batches_cols(
                    file.batches@,
                    file.schema@,
                    proj_view(projection),
                    n_rows,
                    file.is_little_endian,
                    file.compression,
                    file.dictionaries@,
                ) == Ok::<Seq<Seq<(usize, ArrayV)>>, IpcError>(batches_pairs_view(bs@))
                &&& h as nat == spec_clamp(spec_batches_height(file.batches@, n_rows))
            },
            Err(e) => spec_batches_cols(
                file.batches@,
                file.schema@,
                proj_view(projection),
                n_rows,
                file.is_little_endian,
                file.compression,
                file.dictionaries@,
            ) == Err::<Seq<Seq<(usize, ArrayV)>>, IpcError>(e),
        },
{
    if file.compression.is_some() {
        return Err(IpcError::MemoryMapCompressed);
    }
    decode_all_batches(file, projection, n_rows)
}

/// The projection the decode runs under: the resolved name list when one
/// was given, else the position list as given.
pub open spec fn spec_resolved(
    schema: Seq<Field>,
    columns: Option<Vec<String>>,
    projection: Option<Vec<usize>>,
) -> Result<Option<Seq<usize>>, Seq<char>> {
    match columns {
        Some(cs) => match spec_columns_to_projection(schema, cs.deep_view()) {
            Ok(p) => Ok(Some(p)),
            Err(n) => Err(n),
        },
        None => Ok(
            match projection {
                Some(p) => Some(p@),
                None => None,
            },
        ),
    }
}

pub open spec fn spec_bounds_ok(p: Option<Seq<usize>>, n: nat) -> bool {
    match p {
        None => true,
        Some(s) => forall|k: int| 0 <= k < s.len() ==> (#[trigger] s[k]) < n,
    }
}

/// An empty-but-present projection is distinguished from no projection: it
/// short-circuits to a height-only, column-less result.
pub open spec fn spec_is_empty_projection(p: Option<Seq<usize>>) -> bool {
    p matches Some(s) && s.len() == 0
}

pub open spec fn spec_sc_height(batches: Seq<EncodedBatch>, n_rows: Option<usize>) -> nat {
    match n_rows {
        Some(v) => v as nat,
        None => spec_clamp(spec_total_rows(batches)),
    }
}

/// Read the binary interchange format into a decoded frame.
///
/// Configured through chained option-setters, then driven by a terminal
/// `finish`. The decoded frame a `finish` returns is a function of the
/// source and the decode options alone — the memory-map request only
/// selects the strategy and is visible solely in the diagnostics — which
/// is what lets a failed memory-map attempt degrade to the streaming path
/// without changing the result.
#[must_use]
#[derive(Debug)]
pub struct IpcReader {
    pub source: IpcSource,
    pub rechunk: bool,
    pub n_rows: Option<usize>,
    pub projection: Option<Vec<usize>>,
    pub columns: Option<Vec<String>>,
    pub hive_partition_columns: Option<Vec<(String, Array)>>,
    pub include_file_path: Option<(String, String)>,
    pub row_index: Option<RowIndex>,
    pub memory_map: Option<String>,
    pub metadata_read: bool,
}

impl IpcReader {
    pub fn new(source: IpcSource) -> (r: IpcReader)
        ensures
            r.source == source,
            r.rechunk == true,
            r.n_rows is None,
            r.projection is None,
            r.columns is None,
            r.hive_partition_columns is None,
            r.include_file_path is None,
            r.row_index is None,
            r.memory_map is None,
            r.metadata_read == false,
    {
        IpcReader {
            source,
            rechunk: true,
            n_rows: None,
            projection: None,
            columns: None,
            hive_partition_columns: None,
            include_file_path: None,
            row_index: None,
            memory_map: None,
            metadata_read: false,
        }
    }

    /// Aggregate chunks to a single chunk afterwards. The flag does not
    /// change the decoded values; chunk boundaries are observable only
    /// through the per-chunk view.
    pub fn set_rechunk(self, rechunk: bool) -> (r: Self)
        ensures
            r == (IpcReader { rechunk, ..self }),
    {
        IpcReader { rechunk, ..self }
    }

    /// Stop reading when this many rows are read.
    pub fn with_n_rows(self, num_rows: Option<usize>) -> (r: Self)
        ensures
            r == (IpcReader { n_rows: num_rows, ..self }),
    {
        IpcReader { n_rows: num_rows, ..self }
    }

    /// Columns to select, by name.
    pub fn with_columns(self, columns: Option<Vec<String>>) -> (r: Self)
        ensures
            r == (IpcReader { columns, ..self }),
    {
        IpcReader { columns, ..self }
    }

    pub fn with_hive_partition_columns(self, columns: Option<Vec<(String, Array)>>) -> (r: Self)
        ensures
            r == (IpcReader { hive_partition_columns: columns, ..self }),
    {
        IpcReader { hive_partition_columns: columns, ..self }
    }

    pub fn with_include_file_path(self, include_file_path: Option<(String, String)>) -> (r: Self)
        ensures
            r == (IpcReader { include_file_path, ..self }),
    {
        IpcReader { include_file_path, ..self }
    }

    /// Add a row index column.
    pub fn with_row_index(self, row_index: Option<RowIndex>) -> (r: Self)
        ensures
            r == (IpcReader { row_index, ..self }),
    {
        IpcReader { row_index, ..self }
    }

    /// Set the reader's column projection. This counts from zero, so a
    /// projection holding positions zero and four selects the first and
    /// fifth column.
    pub fn with_projection(self, projection: Option<Vec<usize>>) -> (r: Self)
        ensures
            r == (IpcReader { projection, ..self }),
    {
        IpcReader { projection, ..self }
    }

    /// Request the memory-mapped strategy, registering the file name. Only
    /// works on uncompressed addressable files; on others the reader
    /// degrades to streaming.
    pub fn memory_mapped(self, path: Option<String>) -> (r: Self)
        ensures
            r == (IpcReader { memory_map: path, ..self }),
    {
        IpcReader { memory_map: path, ..self }
    }

    /// Read and cache the file-level metadata; subsequent calls reuse the
    /// cached value.
    pub fn get_metadata(&mut self)
        ensures
            *final(self) == (IpcReader { metadata_read: true, ..*old(self) }),
    {
        if !self.metadata_read {
            self.metadata_read = true;
        }
    }

    /// The schema of the file.
    pub fn schema(&mut self) -> (r: Result<Vec<Field>, IpcError>)
        ensures
            *final(self) == (IpcReader { metadata_read: true, ..*old(self) }),
            r matches Ok(schema) && schema@.len() == old(self).source.file.schema@.len()
                && (forall|i: int|
                0 <= i < schema@.len() ==> (#[trigger] schema@[i]).name@
                    == old(self).source.file.schema@[i].name@ && ltype_view(schema@[i].dtype)
                    == ltype_view(old(self).source.file.schema@[i].dtype)),
    {
        self.get_metadata();
        let src = &self.source.file.schema;
        let mut out: Vec<Field> = Vec::new();
        let mut i: usize = 0;
        #[verifier::loop_isolation(false)]
        while i < src.len()
            invariant
                i <= src@.len(),
                out@.len() == i,
                forall|j: int|
                    0 <= j < i ==> (#[trigger] out@[j]).name@ == src@[j].name@ && ltype_view(
                        out@[j].dtype,
                    ) == ltype_view(src@[j].dtype),
            decreases src@.len() - i,
        {
            let f = clone_field(&src[i]);
            out.push(f);
            i = i + 1;
        }
        Ok(out)
    }

    /// The schema-level custom metadata of the file.
    pub fn custom_metadata(&mut self) -> (r: Result<Option<Vec<(String, String)>>, IpcError>)
        ensures
            *final(self) == (IpcReader { metadata_read: true, ..*old(self) }),
            r matches Ok(m) && (match (m, old(self).source.file.custom_schema_metadata) {
                (None, None) => true,
                (Some(a), Some(b)) => a.deep_view() == b.deep_view(),
                _ => false,
            }),
    {
        self.get_metadata();
        match &self.source.file.custom_schema_metadata {
            None => Ok(None),
            Some(pairs) => {
                let mut out: Vec<(String, String)> = Vec::new();
                let mut i: usize = 0;
                #[verifier::loop_isolation(false)]
                while i < pairs.len()
                    invariant
                        i <= pairs@.len(),
                        out@.len() == i,
                        forall|j: int|
                            0 <= j < i ==> (#[trigger] out@[j]).0@ == pairs@[j].0@ && out@[j].1@
                                == pairs@[j].1@,
                    decreases pairs@.len() - i,
                {
                    let k = clone_string(&pairs[i].0);
                    let v = clone_string(&pairs[i].1);
                    out.push((k, v));
                    i = i + 1;
                }
                proof {
                    assert(out.deep_view() =~~= pairs.deep_view());
                }
                Ok(Some(out))
            },
        }
    }
}

impl IpcReader {
    /// Decode the file into a frame.
    ///
    /// An empty-but-present projection short-circuits to a height-only,
    /// column-less frame (so downstream row-index injection still sees the
    /// correct row count). Otherwise the reader chooses a strategy: the
    /// memory-mapped path when one was requested and the source is a real
    /// addressable file, degrading gracefully to the streaming path — with
    /// exactly one diagnostic — when that path fails specifically because
    /// the file is block compressed. The decoded frame is the same either
    /// way: the clauses below describing it do not mention the memory-map
    /// request, only the diagnostics clause does.
    ///
    /// The frame holds, in order: the row-index column if requested, the
    /// projected columns, the hive-partition columns, and the file-path
    /// column if requested.
    #[verifier::rlimit(100)]
    pub fn finish(self) -> (r: Result<FinishOutput, IpcError>)
        ensures
            ({
                let schema = self.source.file.schema@;
                let batches = self.source.file.batches@;
                let rp = spec_resolved(schema, self.columns, self.projection);
                match r {
                    Ok(out) => {
                        &&& rp matches Ok(p)
                        &&& spec_bounds_ok(p, schema.len())
                        &&& (if spec_is_empty_projection(p) {
                            let h = spec_sc_height(batches, self.n_rows);
                            &&& spec_ri_ok(self.row_index, h)
                            &&& spec_hive_ok(self.hive_partition_columns, h)
                            &&& out.df@.height == h
                            &&& out.df@.columns == spec_ri_cols(self.row_index, h)
                                + spec_hive_cols(self.hive_partition_columns) + spec_path_cols(
                                self.include_file_path,
                            )
                            &&& out.diagnostics@ == Seq::<Diagnostic>::empty()
                        } else {
                            let bres = spec_batches_cols(
                                batches,
                                schema,
                                p,
                                self.n_rows,
                                self.source.file.is_little_endian,
                                self.source.file.compression,
                                self.source.file.dictionaries@,
                            );
                            let h = spec_clamp(spec_batches_height(batches, self.n_rows));
                            &&& bres matches Ok(bps)
                            &&& spec_ri_ok(self.row_index, h)
                            &&& spec_hive_ok(self.hive_partition_columns, h)
                            &&& out.df@.height == h
                            &&& out.df@.columns == spec_ri_cols(self.row_index, h)
                                + spec_assemble(schema, p, bps) + spec_hive_cols(
                                self.hive_partition_columns,
                            ) + spec_path_cols(self.include_file_path)
                            &&& out.diagnostics@ == (if self.memory_map is Some
                                && self.source.kind is File
                                && self.source.file.compression is Some {
                                seq![Diagnostic::MemoryMapCompressedFallback]
                            } else {
                                Seq::<Diagnostic>::empty()
                            })
                        })
                    },
                    Err(e) => {
                        ||| (rp matches Err(n) && e matches IpcError::ColumnNotFound { name }
                            && name@ == n)
                        ||| (rp matches Ok(p) && !spec_bounds_ok(p, schema.len())
                            && e matches IpcError::ProjectionOutOfBounds { .. })
                        ||| (rp matches Ok(p) && spec_bounds_ok(p, schema.len()) && (
                        if spec_is_empty_projection(p) {
                            let h = spec_sc_height(batches, self.n_rows);
                            ||| (!spec_ri_ok(self.row_index, h)
                                && e matches IpcError::RowIndexOverflow { .. })
                            ||| (!spec_hive_ok(self.hive_partition_columns, h)
                                && e matches IpcError::IntegrityMismatch(
                                MismatchKind::HeightMismatch { .. },
                            ))
                        } else {
                            let bres = spec_batches_cols(
                                batches,
                                schema,
                                p,
                                self.n_rows,
                                self.source.file.is_little_endian,
                                self.source.file.compression,
                                self.source.file.dictionaries@,
                            );
                            let h = spec_clamp(spec_batches_height(batches, self.n_rows));
                            ||| (bres matches Err(de) && e == de)
                            ||| (bres is Ok && !spec_ri_ok(self.row_index, h)
                                && e matches IpcError::RowIndexOverflow { .. })
                            ||| (bres is Ok && !spec_hive_ok(self.hive_partition_columns, h)
                                && e matches IpcError::IntegrityMismatch(
                                MismatchKind::HeightMismatch { .. },
                            ))
                        }))
                    },
                }
            }),
    {
        let IpcReader {
            source,
            rechunk: _,
            n_rows,
            projection,
            columns,
            hive_partition_columns,
            include_file_path,
            row_index,
            memory_map,
            metadata_read: _,
        } = self;
        let IpcSource { file, kind } = source;
        let resolved: Option<Vec<usize>> = match columns {
            Some(cs) => match columns_to_projection(&file.schema, &cs) {
                Ok(p) => Some(p),
                Err(e) => {
                    return Err(e);
                },
            },
            None => projection,
        };
        let nfields = file.schema.len();
        match &resolved {
            Some(p) => {
                let mut k: usize = 0;
                #[verifier::loop_isolation(false)]
                while k < p.len()
                    invariant
                        k <= p@.len(),
                        forall|j: int| 0 <= j < k ==> (#[trigger] p@[j]) < nfields,
                    decreases p@.len() - k,
                {
                    if p[k] >= nfields {
                        return Err(IpcError::ProjectionOutOfBounds { index: p[k], width: nfields });
                    }
                    k = k + 1;
                }
            },
            None => {},
        }
        let is_sc = match &resolved {
            Some(p) => p.len() == 0,
            None => false,
        };
        if is_sc {
            let height = match n_rows {
                Some(v) => v,
                None => total_row_count(&file.batches),
            };
            let df0 = DataFrame { height, columns: Vec::new() };
            proof {
                assert(columns_view(df0.columns@) =~= Seq::<FrameColumnV>::empty());
            }
            let df1 = match &row_index {
                Some(ri) => match inject_row_index(df0, ri) {
                    Ok(d) => d,
                    Err(e) => {
                        return Err(e);
                    },
                },
                None => df0,
            };
            let df2 = match append_hive(df1, &hive_partition_columns) {
                Ok(d) => d,
                Err(e) => {
                    return Err(e);
                },
            };
            let df3 = append_path(df2, &include_file_path);
            proof {
                assert(df3@.columns =~= spec_ri_cols(row_index, height as nat) + spec_hive_cols(
                    hive_partition_columns,
                ) + spec_path_cols(include_file_path));
            }
            return Ok(FinishOutput { df: df3, diagnostics: Vec::new() });
        }
        let mut diagnostics: Vec<Diagnostic> = Vec::new();
        let use_mmap = memory_map.is_some() && (match kind {
            SourceKind::File => true,
            SourceKind::Stream => false,
        });
        let resolved_ref = resolved.as_ref();
        let decoded: (Vec<Vec<(usize, Array)>>, usize) = if use_mmap {
            match finish_memory_mapped(&file, resolved_ref, n_rows) {
                Ok(x) => x,
                Err(e) => {
                    match check_mmap_err(e) {
                        Ok(_) => {},
                        Err(e2) => {
                            return Err(e2);
                        },
                    }
                    diagnostics.push(Diagnostic::MemoryMapCompressedFallback);
                    match decode_all_batches(&file, resolved_ref, n_rows) {
                        Ok(x) => x,
                        Err(e) => {
                            return Err(e);
                        },
                    }
                },
            }
        } else {
            match decode_all_batches(&file, resolved_ref, n_rows) {
                Ok(x) => x,
                Err(e) => {
                    return Err(e);
                },
            }
        };
        let (batch_arrays, height) = decoded;
        let base_cols = assemble_columns(&file.schema, resolved_ref, &batch_arrays);
        let df0 = DataFrame { height, columns: base_cols };
        let df1 = match &row_index {
            Some(ri) => match inject_row_index(df0, ri) {
                Ok(d) => d,
                Err(e) => {
                    return Err(e);
                },
            },
            None => df0,
        };
        let df2 = match append_hive(df1, &hive_partition_columns) {
            Ok(d) => d,
            Err(e) => {
                return Err(e);
            },
        };
        let df3 = append_path(df2, &include_file_path);
        proof {
            assert(df3@.columns =~= spec_ri_cols(row_index, height as nat) + spec_assemble(
                file.schema@,
                proj_view(resolved_ref),
                batches_pairs_view(batch_arrays@),
            ) + spec_hive_cols(hive_partition_columns) + spec_path_cols(include_file_path));
            if use_mmap && file.compression is Some {
                assert(diagnostics@ =~= seq![Diagnostic::MemoryMapCompressedFallback]);
            } else {
                assert(diagnostics@ =~= Seq::<Diagnostic>::empty());
            }
        }
        Ok(FinishOutput { df: df3, diagnostics })
    }

    /// Decode the file for a scan: like `finish`, but without the
    /// empty-projection short circuit and without the hive and file-path
    /// injections, which a scan applies downstream. When verbose, a chosen
    /// memory-map strategy is reported as a diagnostic.
    #[verifier::rlimit(100)]
    pub fn finish_with_scan_ops(self, verbose: bool) -> (r: Result<FinishOutput, IpcError>)
        ensures
            ({
                let schema = self.source.file.schema@;
                let batches = self.source.file.batches@;
                let rp = spec_resolved(schema, self.columns, self.projection);
                let use_mmap = self.memory_map is Some && self.source.kind is File;
                match r {
                    Ok(out) => {
                        &&& rp matches Ok(p)
                        &&& spec_bounds_ok(p, schema.len())
                        &&& ({
                            let bres = spec_batches_cols(
                                batches,
                                schema,
                                p,
                                self.n_rows,
                                self.source.file.is_little_endian,
                                self.source.file.compression,
                                self.source.file.dictionaries@,
                            );
                            let h = spec_clamp(spec_batches_height(batches, self.n_rows));
                            &&& bres matches Ok(bps)
                            &&& spec_ri_ok(self.row_index, h)
                            &&& out.df@.height == h
                            &&& out.df@.columns == spec_ri_cols(self.row_index, h)
                                + spec_assemble(schema, p, bps)
                            &&& out.diagnostics@ == (if use_mmap && verbose {
                                seq![Diagnostic::MemoryMapAttempted]
                            } else {
                                Seq::<Diagnostic>::empty()
                            }) + (if use_mmap && self.source.file.compression is Some {
                                seq![Diagnostic::MemoryMapCompressedFallback]
                            } else {
                                Seq::<Diagnostic>::empty()
                            })
                        })
                    },
                    Err(e) => {
                        ||| (rp matches Err(n) && e matches IpcError::ColumnNotFound { name }
                            && name@ == n)
                        ||| (rp matches Ok(p) && !spec_bounds_ok(p, schema.len())
                            && e matches IpcError::ProjectionOutOfBounds { .. })
                        ||| (rp matches Ok(p) && spec_bounds_ok(p, schema.len()) && ({
                            let bres = spec_batches_cols(
                                batches,
                                schema,
                                p,
                                self.n_rows,
                                self.source.file.is_little_endian,
                                self.source.file.compression,
                                self.source.file.dictionaries@,
                            );
                            let h = spec_clamp(spec_batches_height(batches, self.n_rows));
                            ||| (bres matches Err(de) && e == de)
                            ||| (bres is Ok && !spec_ri_ok(self.row_index, h)
                                && e matches IpcError::RowIndexOverflow { .. })
                        }))
                    },
                }
            }),
    {
        let IpcReader {
            source,
            rechunk: _,
            n_rows,
            projection,
            columns,
            hive_partition_columns: _,
            include_file_path: _,
            row_index,
            memory_map,
            metadata_read: _,
        } = self;
        let IpcSource { file, kind } = source;
        let resolved: Option<Vec<usize>> = match columns {
            Some(cs) => match columns_to_projection(&file.schema, &cs) {
                Ok(p) => Some(p),
                Err(e) => {
                    return Err(e);
                },
            },
            None => projection,
        };
        let nfields = file.schema.len();
        match &resolved {
            Some(p) => {
                let mut k: usize = 0;
                #[verifier::loop_isolation(false)]
                while k < p.len()
                    invariant
                        k <= p@.len(),
                        forall|j: int| 0 <= j < k ==> (#[trigger] p@[j]) < nfields,
                    decreases p@.len() - k,
                {
                    if p[k] >= nfields {
                        return Err(IpcError::ProjectionOutOfBounds { index: p[k], width: nfields });
                    }
                    k = k + 1;
                }
            },
            None => {},
        }
        let mut diagnostics: Vec<Diagnostic> = Vec::new();
        let use_mmap = memory_map.is_some() && (match kind {
            SourceKind::File => true,
            SourceKind::Stream => false,
        });
        if use_mmap && verbose {
            diagnostics.push(Diagnostic::MemoryMapAttempted);
        }
        let ghost diag0 = diagnostics@;
        let resolved_ref = resolved.as_ref();
        let decoded: (Vec<Vec<(usize, Array)>>, usize) = if use_mmap {
            match finish_memory_mapped(&file, resolved_ref, n_rows) {
                Ok(x) => x,
                Err(e) => {
                    match check_mmap_err(e) {
                        Ok(_) => {},
                        Err(e2) => {
                            return Err(e2);
                        },
                    }
                    diagnostics.push(Diagnostic::MemoryMapCompressedFallback);
                    match decode_all_batches(&file, resolved_ref, n_rows) {
                        Ok(x) => x,
                        Err(e) => {
                            return Err(e);
                        },
                    }
                },
            }
        } else {
            match decode_all_batches(&file, resolved_ref, n_rows) {
                Ok(x) => x,
                Err(e) => {
                    return Err(e);
                },
            }
        };
        let (batch_arrays, height) = decoded;
        let base_cols = assemble_columns(&file.schema, resolved_ref, &batch_arrays);
        let df0 = DataFrame { height, columns: base_cols };
        let df1 = match &row_index {
            Some(ri) => match inject_row_index(df0, ri) {
                Ok(d) => d,
                Err(e) => {
                    return Err(e);
                },
            },
            None => df0,
        };
        proof {
            assert(df1@.columns =~= spec_ri_cols(row_index, height as nat) + spec_assemble(
                file.schema@,
                proj_view(resolved_ref),
                batches_pairs_view(batch_arrays@),
            ));
            if use_mmap && file.compression is Some {
                assert(diagnostics@ =~= diag0 + seq![Diagnostic::MemoryMapCompressedFallback]);
            } else {
                assert(diagnostics@ =~= diag0 + Seq::<Diagnostic>::empty());
            }
        }
        Ok(FinishOutput { df: df1, diagnostics })
    }
}

} // verus!
