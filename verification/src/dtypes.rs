//! The logical-type tree that a field-node sequence mirrors, and the node
//! and buffer footprint of each type.
use vstd::prelude::*;

verus! {

/// The target schema type of one column or nested sub-column.
///
/// The variants form a closed dispatcher: every decoder and skip walker
/// matches exhaustively on this tree. A nested variant owns its child's
/// type, so the pre-order field-node layout of a column is fully determined
/// by its `LogicalType`.
#[derive(Debug, PartialEq, Eq)]
pub enum LogicalType {
    /// 64-bit signed integers, 8 bytes per value in the stream.
    Int64,
    /// Booleans, bit-packed in the stream.
    Boolean,
    /// Every row holds exactly `width` child elements (the first field),
    /// contiguous in the child array.
    FixedSizeList(usize, Box<LogicalType>),
    /// One child column per field, all sharing the parent's row count.
    Struct(Vec<LogicalType>),
    /// Keys stored inline; values resolved against the dictionary registry
    /// under the given id. The second field is the value type.
    Dictionary(u64, Box<LogicalType>),
}

/// How many field nodes a column of type `t` consumes, counting every
/// nested descendant. The writer emits exactly this many nodes per column,
/// so decode and skip must consume exactly this many.
pub open spec fn node_count(t: LogicalType) -> nat
    decreases t,
{
    match t {
        LogicalType::Int64 => 1,
        LogicalType::Boolean => 1,
        LogicalType::FixedSizeList(_, child) => 1 + node_count(*child),
        LogicalType::Struct(children) => 1 + node_count_children(children@),
        LogicalType::Dictionary(_, _) => 1,
    }
}

pub open spec fn node_count_children(ts: Seq<LogicalType>) -> nat
    decreases ts,
{
    if ts.len() == 0 {
        0
    } else {
        node_count(ts[0]) + node_count_children(ts.drop_first())
    }
}

/// How many buffers a column of type `t` consumes: one validity slot at
/// every level, plus the type-specific value buffers, plus whatever the
/// children consume recursively.
pub open spec fn buffer_count(t: LogicalType) -> nat
    decreases t,
{
    match t {
        LogicalType::Int64 => 2,
        LogicalType::Boolean => 2,
        LogicalType::FixedSizeList(_, child) => 1 + buffer_count(*child),
        LogicalType::Struct(children) => 1 + buffer_count_children(children@),
        LogicalType::Dictionary(_, _) => 2,
    }
}

pub open spec fn buffer_count_children(ts: Seq<LogicalType>) -> nat
    decreases ts,
{
    if ts.len() == 0 {
        0
    } else {
        buffer_count(ts[0]) + buffer_count_children(ts.drop_first())
    }
}

/// One named column of a schema.
#[derive(Debug, PartialEq, Eq)]
pub struct Field {
    pub name: String,
    pub dtype: LogicalType,
}

/// The mathematical view of a logical type, used to state that two type
/// values describe the same type (for example, a schema handed outward and
/// the one held inside).
pub enum LTypeV {
    Int64,
    Boolean,
    FixedSizeList(nat, Box<LTypeV>),
    Struct(Seq<LTypeV>),
    Dictionary(u64, Box<LTypeV>),
}

pub open spec fn ltype_view(t: LogicalType) -> LTypeV
    decreases t, 1int,
{
    match t {
        LogicalType::Int64 => LTypeV::Int64,
        LogicalType::Boolean => LTypeV::Boolean,
        LogicalType::FixedSizeList(size, child) => LTypeV::FixedSizeList(
            size as nat,
            Box::new(ltype_view(*child)),
        ),
        LogicalType::Struct(children) => LTypeV::Struct(ltype_views(children@)),
        LogicalType::Dictionary(id, vt) => LTypeV::Dictionary(id, Box::new(ltype_view(*vt))),
    }
}

pub open spec fn ltype_views(ts: Seq<LogicalType>) -> Seq<LTypeV>
    decreases ts, 0int,
{
    if ts.len() == 0 {
        Seq::empty()
    } else {
        ltype_views(ts.drop_last()).push(ltype_view(ts.last()))
    }
}

} // verus!
