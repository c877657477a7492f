//! The two pre-ordered queues of a record batch, held in a single cursor.
//!
//! The metadata (field node) queue and the data (buffer) queue advance in
//! lock-step through the whole recursive decode of a batch. Holding both in
//! one structure that is passed by exclusive reference makes divergent
//! consumption impossible to express: there is only ever one pair of
//! positions.
use vstd::prelude::*;

use crate::errors::{CorruptionKind, IpcError};

verus! {

/// Metadata of one column or nested sub-column: its declared logical row
/// count and declared null count, in writer pre-order.
#[derive(Clone, Copy, Debug, PartialEq, Eq, Structural)]
pub struct FieldNode {
    pub length: usize,
    pub null_count: usize,
}

/// The shared consumption state of one record-batch decode: both queues and
/// the current position in each. Entries are never popped physically; the
/// positions only ever advance, so a failed decode leaves an audit trail of
/// exactly where it stopped.
#[derive(Debug)]
pub struct BatchCursor {
    pub nodes: Vec<FieldNode>,
    pub buffers: Vec<Vec<u8>>,
    pub node_pos: usize,
    pub buffer_pos: usize,
}

impl BatchCursor {
    /// The positions never run ahead of the queues.
    pub open spec fn wf(&self) -> bool {
        self.node_pos <= self.nodes@.len() && self.buffer_pos <= self.buffers@.len()
    }

    /// The view of the buffer queue as a sequence of byte sequences.
    pub open spec fn bufs(&self) -> Seq<Seq<u8>> {
        self.buffers.deep_view()
    }

    pub fn new(nodes: Vec<FieldNode>, buffers: Vec<Vec<u8>>) -> (r: BatchCursor)
        ensures
            r.nodes == nodes,
            r.buffers == buffers,
            r.node_pos == 0,
            r.buffer_pos == 0,
    {
        BatchCursor { nodes, buffers, node_pos: 0, buffer_pos: 0 }
    }

    /// Pop the next field node. An empty queue is a corruption error (the
    /// schema fixes the node count in advance), never end-of-data.
    pub fn pop_node(&mut self) -> (r: Result<FieldNode, IpcError>)
        requires
            old(self).wf(),
        ensures
            final(self).nodes == old(self).nodes,
            final(self).buffers == old(self).buffers,
            final(self).buffer_pos == old(self).buffer_pos,
            final(self).wf(),
            match r {
                Ok(n) => {
                    &&& old(self).node_pos < old(self).nodes@.len()
                    &&& n == old(self).nodes@[old(self).node_pos as int]
                    &&& final(self).node_pos == old(self).node_pos + 1
                },
                Err(e) => {
                    &&& old(self).node_pos == old(self).nodes@.len()
                    &&& e == IpcError::Corruption(CorruptionKind::MissingNode {
                        at: old(self).node_pos,
                    })
                    &&& final(self).node_pos == old(self).node_pos
                },
            },
    {
        if self.node_pos < self.nodes.len() {
            let n = self.nodes[self.node_pos];
            self.node_pos = self.node_pos + 1;
            Ok(n)
        } else {
            Err(IpcError::Corruption(CorruptionKind::MissingNode { at: self.node_pos }))
        }
    }

    /// Pop the next buffer slot, returning its index. The bytes stay owned
    /// by the cursor; callers read them through this index.
    pub fn pop_buffer(&mut self) -> (r: Result<usize, IpcError>)
        requires
            old(self).wf(),
        ensures
            final(self).nodes == old(self).nodes,
            final(self).buffers == old(self).buffers,
            final(self).node_pos == old(self).node_pos,
            final(self).wf(),
            match r {
                Ok(i) => {
                    &&& old(self).buffer_pos < old(self).buffers@.len()
                    &&& i == old(self).buffer_pos
                    &&& final(self).buffer_pos == old(self).buffer_pos + 1
                },
                Err(e) => {
                    &&& old(self).buffer_pos == old(self).buffers@.len()
                    &&& e == IpcError::Corruption(CorruptionKind::MissingBuffer {
                        at: old(self).buffer_pos,
                    })
                    &&& final(self).buffer_pos == old(self).buffer_pos
                },
            },
    {
        if self.buffer_pos < self.buffers.len() {
            let i = self.buffer_pos;
            self.buffer_pos = self.buffer_pos + 1;
            Ok(i)
        } else {
            Err(IpcError::Corruption(CorruptionKind::MissingBuffer { at: self.buffer_pos }))
        }
    }
}

} // verus!
