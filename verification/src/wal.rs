//! The records of the log, as far as the metadata depends on them.

use vstd::prelude::*;

use crate::tables::edge::EdgeKind;
use crate::tables::memory::MemoryKind;
use crate::types::{AgentId, ContextId, MemoryId, RequestId, TxnId, F32};

verus! {

/// How an edge came to be.
#[derive(Clone, Copy, Debug, PartialEq, Eq, Structural)]
pub enum EdgeOrigin {
    Explicit,
    AutoDerived,
}

/// An edge that comes with a new memory.
#[derive(Clone, Copy, Debug)]
pub struct EdgePayload {
    pub source: MemoryId,
    pub target: MemoryId,
    pub kind: EdgeKind,
    pub weight: F32,
    pub origin: EdgeOrigin,
}

/// A new memory.
#[derive(Clone, Debug)]
pub struct EncodePayload {
    pub memory_id: MemoryId,
    pub request_id: RequestId,
    pub agent_id: AgentId,
    pub context_id: ContextId,
    pub kind: MemoryKind,
    pub salience_initial: F32,
    pub embedding_model_fp: [u8; 16],
    pub text: String,
    pub edges: Vec<EdgePayload>,
}

/// A memory to be forgotten.
#[derive(Clone, Copy, Debug)]
pub struct ForgetPayload {
    pub memory_id: MemoryId,
    pub request_id: RequestId,
}

/// An edge between two memories.
#[derive(Clone, Copy, Debug)]
pub struct LinkPayload {
    pub source: MemoryId,
    pub target: MemoryId,
    pub edge_kind: EdgeKind,
    pub weight: F32,
    pub origin: EdgeOrigin,
}

/// An edge to be removed.
#[derive(Clone, Copy, Debug)]
pub struct UnlinkPayload {
    pub source: MemoryId,
    pub target: MemoryId,
    pub edge_kind: EdgeKind,
}

/// A memory's new salience.
#[derive(Clone, Copy, Debug)]
pub struct SalienceUpdate {
    pub memory_id: MemoryId,
    pub new_salience: F32,
}

/// New saliences.
#[derive(Clone, Debug)]
pub struct UpdateSaliencePayload {
    pub updates: Vec<SalienceUpdate>,
}

/// A slot that is free again.
#[derive(Clone, Copy, Debug)]
pub struct ReclaimPayload {
    pub slot_id: u64,
    pub old_version: u32,
    pub new_version: u32,
}

/// A memory that sums up others.
#[derive(Clone, Debug)]
pub struct ConsolidatePayload {
    pub new_memory_id: MemoryId,
    pub source_memory_ids: Vec<MemoryId>,
    pub text: String,
    pub embedding_model_fp: [u8; 16],
}

/// A memory's new kind.
#[derive(Clone, Copy, Debug)]
pub struct UpdateKindPayload {
    pub memory_id: MemoryId,
    pub new_kind: MemoryKind,
}

/// A memory's new context.
#[derive(Clone, Copy, Debug)]
pub struct UpdateContextPayload {
    pub memory_id: MemoryId,
    pub new_context_id: ContextId,
}

/// A memory's new vector, by another model.
#[derive(Clone, Copy, Debug)]
pub struct MigrateEmbeddingPayload {
    pub memory_id: MemoryId,
    pub old_fingerprint: [u8; 16],
    pub new_fingerprint: [u8; 16],
}

/// A checkpoint begins.
#[derive(Clone, Copy, Debug)]
pub struct CheckpointBeginPayload {
    pub checkpoint_id: u64,
    pub started_at_unix_nanos: u64,
}

/// A checkpoint is complete.
#[derive(Clone, Copy, Debug)]
pub struct CheckpointEndPayload {
    pub checkpoint_id: u64,
    pub durable_lsn: u64,
    pub arena_capacity: u64,
}

/// A record of the log.
#[derive(Clone, Debug)]
pub enum WalPayload {
    Encode(EncodePayload),
    Forget(ForgetPayload),
    Link(LinkPayload),
    Unlink(UnlinkPayload),
    UpdateSalience(UpdateSaliencePayload),
    Reclaim(ReclaimPayload),
    Consolidate(ConsolidatePayload),
    UpdateKind(UpdateKindPayload),
    UpdateContext(UpdateContextPayload),
    MigrateEmbedding(MigrateEmbeddingPayload),
    CheckpointBegin(CheckpointBeginPayload),
    CheckpointEnd(CheckpointEndPayload),
    TxnBegin(TxnId),
    TxnCommit(TxnId),
    TxnAbort(TxnId),
}

} // verus!
