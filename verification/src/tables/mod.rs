//! The rows of each table, and the keys they are stored under.

pub mod agent;
pub mod api_keys;
pub mod audit;
pub mod checkpoint;
pub mod contradiction;
pub mod edge;
pub mod entity;
pub mod entity_type;
pub mod extractor;
pub mod extractor_audit;
pub mod fingerprint;
pub mod hype;
pub mod idempotency;
pub mod key_laws;
pub mod memory;
pub mod merge;
pub mod merge_review_queue;
pub mod model_fingerprint;
pub mod namespace;
pub mod next_lsn;
pub mod predicate;
pub mod relation;
pub mod relation_type;
pub mod schema_version;
pub mod slot_version;
pub mod statement;
pub mod text;
