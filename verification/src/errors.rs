//! Error taxonomy for the IPC ingestion layer.
//!
//! Every fatal error carries enough context (the node or buffer index at
//! which decoding failed) to diagnose a corrupted or incompatible stream.
use vstd::prelude::*;

verus! {

/// A queue was exhausted or a buffer was malformed where the schema says a
/// well-formed entry must exist. Always fatal: node and buffer counts are
/// known in advance from the schema, so exhaustion is corruption, not
/// end-of-data.
#[derive(Clone, Copy, Debug, PartialEq, Eq, Structural)]
pub enum CorruptionKind {
    /// The field-node queue was empty at position `at`.
    MissingNode { at: usize },
    /// The buffer queue was empty at position `at`.
    MissingBuffer { at: usize },
    /// Buffer `buffer` is framed for block compression but is too short to
    /// hold the frame prefix.
    TruncatedFrame { buffer: usize },
    /// Buffer `buffer` holds a validity bitmap shorter than the declared
    /// length of its field node.
    ShortBitmap { buffer: usize },
    /// Buffer `buffer` holds fewer values than the decoder must materialize.
    ShortValues { buffer: usize },
}

/// A construct the format can express but this decoder explicitly rejects,
/// distinguishable from corruption so callers can give an actionable message.
#[derive(Clone, Copy, Debug, PartialEq, Eq, Structural)]
pub enum UnsupportedKind {
    /// A fixed-size list of width zero.
    ZeroWidthFixedSizeList,
    /// Buffer `buffer` holds a block-compressed body (not the uncompressed
    /// passthrough frame); decompression is delegated to a collaborator this
    /// core does not bundle.
    UnknownCodecFrame { buffer: usize },
}

/// Decoded data disagrees with its own declarations.
#[derive(Clone, Copy, Debug, PartialEq, Eq, Structural)]
pub enum MismatchKind {
    /// A fixed-size list child's length is not a multiple of the list width.
    ChildLengthNotMultiple { size: usize },
    /// The computed logical length disagrees with the declared one.
    DeclaredLengthMismatch { expected: usize, found: usize },
    /// A struct child's length disagrees with the struct's logical length.
    ChildLengthMismatch { expected: usize, found: usize },
    /// An injected column's height disagrees with the frame's height.
    HeightMismatch { expected: usize, found: usize },
}

/// The error type of the ingestion layer.
#[derive(Clone, Debug, PartialEq, Eq)]
pub enum IpcError {
    /// The stream does not match its own schema; fatal, never retried.
    Corruption(CorruptionKind),
    /// Explicitly rejected construct; fatal.
    UnsupportedFeature(UnsupportedKind),
    /// Decoded data disagrees with its declarations; fatal.
    IntegrityMismatch(MismatchKind),
    /// A record batch references a dictionary id that was never registered.
    DictionaryMissing { id: u64 },
    /// Memory-mapping failed specifically because the file is block
    /// compressed. The orchestrator recovers from this one locally by
    /// falling back to the streaming path; it is never surfaced to callers.
    MemoryMapCompressed,
    /// A projected column name is absent from the schema.
    ColumnNotFound { name: String },
    /// A position-based projection entry points past the schema.
    ProjectionOutOfBounds { index: usize, width: usize },
    /// The requested row-index column cannot represent this many rows from
    /// this offset.
    RowIndexOverflow { height: usize, offset: u32 },
}

impl IpcError {
    /// A short stable tag for each error class, for diagnostics at the
    /// caller; the library itself never formats errors.
    pub fn kind_name(&self) -> (r: &'static str)
        ensures
            r@ == self.spec_kind_name(),
    {
        match self {
            IpcError::Corruption(_) => "corruption",
            IpcError::UnsupportedFeature(_) => "unsupported feature",
            IpcError::IntegrityMismatch(_) => "integrity mismatch",
            IpcError::DictionaryMissing { .. } => "dictionary missing",
            IpcError::MemoryMapCompressed => "memory map of compressed file",
            IpcError::ColumnNotFound { .. } => "column not found",
            IpcError::ProjectionOutOfBounds { .. } => "projection out of bounds",
            IpcError::RowIndexOverflow { .. } => "row index overflow",
        }
    }

    pub open spec fn spec_kind_name(&self) -> Seq<char> {
        match self {
            IpcError::Corruption(_) => "corruption"@,
            IpcError::UnsupportedFeature(_) => "unsupported feature"@,
            IpcError::IntegrityMismatch(_) => "integrity mismatch"@,
            IpcError::DictionaryMissing { .. } => "dictionary missing"@,
            IpcError::MemoryMapCompressed => "memory map of compressed file"@,
            IpcError::ColumnNotFound { .. } => "column not found"@,
            IpcError::ProjectionOutOfBounds { .. } => "projection out of bounds"@,
            IpcError::RowIndexOverflow { .. } => "row index overflow"@,
        }
    }
}

} // verus!
