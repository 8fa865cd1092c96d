//! Metadata storage for a memory substrate: statements, edges, write-ahead
//! records, schemas and their indexes, kept in redb tables.

pub mod bytes;
pub mod catalog;
pub mod cells;
pub mod collect;
pub mod definitions;
pub mod inline_evidence;
pub mod order;
pub mod redb_txn;
pub mod row;
pub mod schema_apply;
pub mod schema_store;
pub mod sink;
pub mod statement;
pub mod statement_question;
pub mod storage_version;
pub mod store;
pub mod system_schema;
pub mod tables;
pub mod types;
pub mod vocabulary;
pub mod wal;
