//! Operations on statements, inside the caller's transaction.

use vstd::prelude::*;

use crate::row::LoadError;
use crate::types::{AuditId, EntityId, StatementId, StatementKind, F32};

pub mod contradiction;
pub mod crud;
pub mod embed_queue;
pub mod evidence;
pub mod laws;
pub mod list;
pub mod supersede;
pub mod tombstone;

pub use contradiction::{contradiction_audit_list_pending, contradiction_audit_record};
pub use crud::{allocate_evidence_overflow, evidence_overflow_load, statement_create, statement_get};
pub use embed_queue::{
    statement_embed_queue_len, statement_embed_queue_peek, statement_embed_queue_remove,
    statement_embed_queue_remove_many, statement_embed_queue_seed_all_live,
};
pub use evidence::{
    pack_evidence_entries, pack_evidence_ids, read_evidence_entries_w, read_evidence_ids, read_evidence_ids_w,
    reclaim_evidence_overflow,
};
pub use list::{statement_history, statement_list, statements_citing_memory, statements_contradicting};
pub use supersede::{statement_create_with_decision, statement_supersede};
pub use tombstone::{statement_retract, statement_tombstone};

verus! {

/// Why an operation on statements was refused.
#[derive(Debug)]
pub enum StatementOpError {
    /// The store failed.
    Storage(redb::Error),
    NotFound(StatementId),
    AlreadyExists(StatementId),
    UnknownPredicate(u32),
    UnknownSubject(EntityId),
    InvalidArgument(&'static str),
    /// The statement, and the one that supersedes it.
    AlreadySuperseded(StatementId, StatementId),
    AlreadyTombstoned(StatementId),
    EventCannotSupersede,
    KindMismatch { old: StatementKind, new: StatementKind },
    SubjectMismatch,
    PredicateMismatch,
    /// A stored row could not be read.
    DecodeFailed,
}

/// What a write takes from outside: the clock, a fresh identifier for an audit
/// row, and the confidence that the statement's evidence aggregates to, which is
/// used only if the evidence carries confidences of its own.
#[derive(Clone, Copy, Debug)]
pub struct WriteContext {
    pub now_unix_nanos: u64,
    pub fresh_audit_id: AuditId,
    /// As of now, for a statement that supersedes none.
    pub aggregated_now: F32,
    /// As of the statement's extraction, for one that supersedes another.
    pub aggregated_at_extraction: F32,
}

/// A failure to load a row, as a failure of the operation.
pub fn load_failed(e: LoadError) -> (r: StatementOpError)
    ensures
        match e {
            LoadError::Storage(x) => r == StatementOpError::Storage(x),
            LoadError::Corrupt => r == StatementOpError::DecodeFailed,
        },
{
    match e {
        LoadError::Storage(x) => StatementOpError::Storage(x),
        LoadError::Corrupt => StatementOpError::DecodeFailed,
    }
}

} // verus!
