//! Applying the records of the log.

use brain_metadata::catalog::Table;
use brain_metadata::row::{load_at, LoadError};
use brain_metadata::sink::{MetadataDb, MetadataSinkError};
use brain_metadata::storage_version::CURRENT_SCHEMA_VERSION;
use brain_metadata::store::{count, put, read, read_prefix};
use brain_metadata::tables::checkpoint::{make_checkpoint_key, CheckpointMeta};
use brain_metadata::tables::edge::EdgeKind;
use brain_metadata::tables::idempotency::{response_kind, IdempotencyEntry};
use brain_metadata::tables::memory::{flags, memory_kind_to_u8, MemoryKind, MemoryMetadata};
use brain_metadata::tables::next_lsn::next_lsn;
use brain_metadata::tables::slot_version::slot_version;
use brain_metadata::tables::text::text_bytes;
use brain_metadata::types::{AgentId, ContextId, MemoryId, RequestId, TxnId, F32};
use brain_metadata::wal::{
    CheckpointBeginPayload, CheckpointEndPayload, ConsolidatePayload, EdgeOrigin, EdgePayload, EncodePayload,
    ForgetPayload, LinkPayload, MigrateEmbeddingPayload, ReclaimPayload, SalienceUpdate, UnlinkPayload,
    UpdateContextPayload, UpdateKindPayload, UpdateSaliencePayload, WalPayload,
};
use redb::Database;

const TS: u64 = 1_700_000_000_000_000_000;

fn open(dir: &tempfile::TempDir) -> MetadataDb {
    MetadataDb::attach(Database::create(dir.path().join("sink.redb")).unwrap()).unwrap()
}

fn f(x: f32) -> F32 {
    F32 { bits: x.to_bits() }
}

fn aid(byte: u8) -> AgentId {
    let mut b = [0u8; 16];
    b[15] = byte;
    AgentId(b)
}

fn rid(byte: u8) -> RequestId {
    let mut b = [0u8; 16];
    b[15] = byte;
    RequestId(b)
}

fn mid(slot: u64, version: u32) -> MemoryId {
    MemoryId::pack(1, slot, version)
}

fn sample_encode(slot: u64, byte: u8) -> EncodePayload {
    EncodePayload {
        memory_id: mid(slot, 1),
        request_id: rid(byte),
        agent_id: aid(byte),
        context_id: ContextId(42),
        kind: MemoryKind::Episodic,
        salience_initial: f(0.5),
        embedding_model_fp: [byte; 16],
        text: format!("text for memory {byte}"),
        edges: Vec::new(),
    }
}

fn memory_at(db: &MetadataDb, id: MemoryId) -> Option<MemoryMetadata> {
    let rtxn = db.read_txn().unwrap();
    load_at(&rtxn, Table::Memories, &id.to_be_bytes()).unwrap()
}

fn checkpoint_at(db: &MetadataDb, id: u64) -> CheckpointMeta {
    let rtxn = db.read_txn().unwrap();
    load_at(&rtxn, Table::Checkpoints, &make_checkpoint_key(id)).unwrap().unwrap()
}

fn rows_in(db: &MetadataDb, t: Table) -> u64 {
    let rtxn = db.read_txn().unwrap();
    count(&rtxn, t).unwrap()
}

/// Every row of the tables that records change.
fn contents(db: &MetadataDb) -> Vec<(Vec<u8>, Vec<u8>)> {
    let rtxn = db.read_txn().unwrap();
    let mut all = Vec::new();
    for t in [
        Table::Memories,
        Table::Texts,
        Table::Idempotency,
        Table::ModelFingerprints,
        Table::Edges,
        Table::EdgesReverse,
        Table::SlotVersions,
        Table::NextLsn,
        Table::Checkpoints,
    ] {
        all.push((t.name().as_bytes().to_vec(), Vec::new()));
        all.extend(read_prefix(&rtxn, t, b"").unwrap());
    }
    all
}

// Durability.

#[test]
fn durable_lsn_fresh_is_zero() {
    let dir = tempfile::tempdir().unwrap();
    assert_eq!(open(&dir).durable_lsn(), 0);
}

#[test]
fn durable_lsn_persists_across_reopens() {
    let dir = tempfile::tempdir().unwrap();
    {
        let mut db = open(&dir);
        db.apply(
            10,
            TS,
            &WalPayload::CheckpointBegin(CheckpointBeginPayload { checkpoint_id: 1, started_at_unix_nanos: TS }),
        )
        .unwrap();
        db.apply(
            11,
            TS + 1000,
            &WalPayload::CheckpointEnd(CheckpointEndPayload {
                checkpoint_id: 1,
                durable_lsn: 100,
                arena_capacity: 1024,
            }),
        )
        .unwrap();
        assert_eq!(db.durable_lsn(), 100);
    }
    assert_eq!(open(&dir).durable_lsn(), 100);
}

#[test]
fn durable_lsn_never_goes_back() {
    let dir = tempfile::tempdir().unwrap();
    let mut db = open(&dir);
    for (id, lsn) in [(1, 100), (2, 40)] {
        let end = CheckpointEndPayload { checkpoint_id: id, durable_lsn: lsn, arena_capacity: 1 };
        db.apply(10 + id, TS, &WalPayload::CheckpointEnd(end)).unwrap();
    }
    assert_eq!(db.durable_lsn(), 100);
}

// New memories.

#[test]
fn encode_writes_all_expected_tables() {
    let dir = tempfile::tempdir().unwrap();
    let mut db = open(&dir);
    let p = sample_encode(7, 7);
    let id = p.memory_id;
    let fp = p.embedding_model_fp;
    let request = p.request_id;
    let expected_text = p.text.clone();

    db.apply(1, TS, &WalPayload::Encode(p)).unwrap();

    let m = memory_at(&db, id).unwrap();
    assert_eq!(m.kind, memory_kind_to_u8(MemoryKind::Episodic));
    assert_eq!(m.slot_id, id.slot());
    assert_eq!(m.slot_version, id.version());
    assert_eq!(m.text_size as usize, expected_text.len());

    let rtxn = db.read_txn().unwrap();
    assert_eq!(text_bytes(&rtxn, id).unwrap().unwrap(), expected_text.as_bytes());

    let entry: IdempotencyEntry = load_at(&rtxn, Table::Idempotency, &request.to_bytes()).unwrap().unwrap();
    assert_eq!(entry.response_kind, response_kind::ENCODE);
    assert_eq!(entry.memory_id_bytes, Some(id.to_be_bytes()));

    assert!(read(&rtxn, Table::ModelFingerprints, &fp).unwrap().is_some());
    assert_eq!(slot_version(&rtxn, id.slot()).unwrap(), Some(id.version()));
    assert_eq!(next_lsn(&rtxn).unwrap(), 2);
}

#[test]
fn encode_is_idempotent() {
    let dir = tempfile::tempdir().unwrap();
    let mut db = open(&dir);
    let p = sample_encode(5, 5);
    db.apply(1, TS, &WalPayload::Encode(p.clone())).unwrap();
    db.apply(1, TS, &WalPayload::Encode(p.clone())).unwrap();
    // Just one memory row.
    assert_eq!(rows_in(&db, Table::Memories), 1);
}

#[test]
fn encode_with_multiple_edges_writes_all() {
    let dir = tempfile::tempdir().unwrap();
    let mut db = open(&dir);
    let mut p = sample_encode(1, 1);
    p.edges = vec![
        EdgePayload {
            source: p.memory_id,
            target: mid(2, 1),
            kind: EdgeKind::Caused,
            weight: f(0.8),
            origin: EdgeOrigin::Explicit,
        },
        EdgePayload {
            source: p.memory_id,
            target: mid(3, 1),
            kind: EdgeKind::SimilarTo,
            weight: f(0.6),
            origin: EdgeOrigin::AutoDerived,
        },
    ];
    db.apply(1, TS, &WalPayload::Encode(p)).unwrap();
    // One that caused, two that are similar: direct and mirrored.
    assert_eq!(rows_in(&db, Table::Edges), 3);
}

// Changes of memories.

#[test]
fn forget_marks_memory_tombstoned() {
    let dir = tempfile::tempdir().unwrap();
    let mut db = open(&dir);
    let enc = sample_encode(1, 1);
    let id = enc.memory_id;
    db.apply(1, TS, &WalPayload::Encode(enc)).unwrap();
    db.apply(2, TS + 1, &WalPayload::Forget(ForgetPayload { memory_id: id, request_id: rid(2) })).unwrap();

    let m = memory_at(&db, id).unwrap();
    assert_ne!(m.flags & flags::HARD_FORGOTTEN, 0);
    assert_eq!(m.forgot_at_unix_nanos, Some(TS + 1));

    let rtxn = db.read_txn().unwrap();
    let entry: IdempotencyEntry = load_at(&rtxn, Table::Idempotency, &rid(2).to_bytes()).unwrap().unwrap();
    assert_eq!(entry.response_kind, response_kind::FORGET);
}

#[test]
fn link_writes_both_edge_tables() {
    let dir = tempfile::tempdir().unwrap();
    let mut db = open(&dir);
    db.apply(1, TS, &link_record()).unwrap();
    assert_eq!(rows_in(&db, Table::Edges), 1);
    assert_eq!(rows_in(&db, Table::EdgesReverse), 1);
}

fn link_record() -> WalPayload {
    WalPayload::Link(LinkPayload {
        source: mid(1, 1),
        target: mid(2, 1),
        edge_kind: EdgeKind::Caused,
        weight: f(0.9),
        origin: EdgeOrigin::Explicit,
    })
}

fn unlink_record() -> WalPayload {
    WalPayload::Unlink(UnlinkPayload { source: mid(1, 1), target: mid(2, 1), edge_kind: EdgeKind::Caused })
}

#[test]
fn unlink_removes_both_edges() {
    let dir = tempfile::tempdir().unwrap();
    let mut db = open(&dir);
    db.apply(1, TS, &link_record()).unwrap();
    db.apply(2, TS + 1, &unlink_record()).unwrap();
    assert_eq!(rows_in(&db, Table::Edges), 0);
    assert_eq!(rows_in(&db, Table::EdgesReverse), 0);
}

#[test]
fn update_salience_changes_memory_salience() {
    let dir = tempfile::tempdir().unwrap();
    let mut db = open(&dir);
    let enc = sample_encode(1, 1);
    let id = enc.memory_id;
    db.apply(1, TS, &WalPayload::Encode(enc)).unwrap();
    db.apply(
        2,
        TS + 1,
        &WalPayload::UpdateSalience(UpdateSaliencePayload {
            updates: vec![SalienceUpdate { memory_id: id, new_salience: f(0.95) }],
        }),
    )
    .unwrap();
    let m = memory_at(&db, id).unwrap();
    assert!((f32::from_bits(m.salience.bits) - 0.95).abs() < 1e-6);
}

#[test]
fn the_last_salience_of_a_record_stands() {
    let dir = tempfile::tempdir().unwrap();
    let mut db = open(&dir);
    let enc = sample_encode(1, 1);
    let id = enc.memory_id;
    db.apply(1, TS, &WalPayload::Encode(enc)).unwrap();
    let updates = vec![
        SalienceUpdate { memory_id: id, new_salience: f(0.1) },
        SalienceUpdate { memory_id: mid(9, 9), new_salience: f(0.7) },
        SalienceUpdate { memory_id: id, new_salience: f(0.2) },
    ];
    db.apply(2, TS + 1, &WalPayload::UpdateSalience(UpdateSaliencePayload { updates })).unwrap();
    assert_eq!(memory_at(&db, id).unwrap().salience, f(0.2));
    assert!(memory_at(&db, mid(9, 9)).is_none());
}

#[test]
fn reclaim_advances_slot_version_and_deletes_memory() {
    let dir = tempfile::tempdir().unwrap();
    let mut db = open(&dir);
    let enc = sample_encode(5, 5);
    let id = enc.memory_id;
    let slot_id = id.slot();
    let old_version = id.version();
    db.apply(1, TS, &WalPayload::Encode(enc)).unwrap();
    db.apply(1, TS, &WalPayload::Encode(sample_encode(6, 6))).unwrap();
    db.apply(
        2,
        TS + 1,
        &WalPayload::Reclaim(ReclaimPayload { slot_id, old_version, new_version: old_version + 1 }),
    )
    .unwrap();

    assert!(memory_at(&db, id).is_none());
    let rtxn = db.read_txn().unwrap();
    assert!(text_bytes(&rtxn, id).unwrap().is_none());
    assert_eq!(slot_version(&rtxn, slot_id).unwrap(), Some(old_version + 1));
    // Another slot is left alone.
    assert!(memory_at(&db, mid(6, 1)).is_some());
    assert!(text_bytes(&rtxn, mid(6, 1)).unwrap().is_some());
}

#[test]
fn consolidate_inserts_new_memory() {
    let dir = tempfile::tempdir().unwrap();
    let mut db = open(&dir);
    let new_id = mid(100, 1);
    db.apply(1, TS, &consolidate_record()).unwrap();
    let m = memory_at(&db, new_id).unwrap();
    assert_eq!(m.kind, memory_kind_to_u8(MemoryKind::Consolidated));
    assert_eq!(m.consolidated_at_unix_nanos, Some(TS));
    assert_eq!(m.salience, f(0.5));
}

fn consolidate_record() -> WalPayload {
    WalPayload::Consolidate(ConsolidatePayload {
        new_memory_id: mid(100, 1),
        source_memory_ids: vec![mid(1, 1), mid(2, 1)],
        text: "consolidated summary".to_string(),
        embedding_model_fp: [0xCC; 16],
    })
}

#[test]
fn update_kind_changes_memory_kind() {
    let dir = tempfile::tempdir().unwrap();
    let mut db = open(&dir);
    let enc = sample_encode(1, 1);
    let id = enc.memory_id;
    db.apply(1, TS, &WalPayload::Encode(enc)).unwrap();
    db.apply(
        2,
        TS + 1,
        &WalPayload::UpdateKind(UpdateKindPayload { memory_id: id, new_kind: MemoryKind::Semantic }),
    )
    .unwrap();
    assert_eq!(memory_at(&db, id).unwrap().kind, memory_kind_to_u8(MemoryKind::Semantic));
}

#[test]
fn update_context_changes_memory_context() {
    let dir = tempfile::tempdir().unwrap();
    let mut db = open(&dir);
    let enc = sample_encode(1, 1);
    let id = enc.memory_id;
    db.apply(1, TS, &WalPayload::Encode(enc)).unwrap();
    db.apply(
        2,
        TS + 1,
        &WalPayload::UpdateContext(UpdateContextPayload { memory_id: id, new_context_id: ContextId(999) }),
    )
    .unwrap();
    assert_eq!(memory_at(&db, id).unwrap().context_id, 999);
}

#[test]
fn migrate_embedding_changes_memory_fingerprint() {
    let dir = tempfile::tempdir().unwrap();
    let mut db = open(&dir);
    let enc = sample_encode(1, 1);
    let id = enc.memory_id;
    let new_fp = [0x99; 16];
    db.apply(1, TS, &WalPayload::Encode(enc)).unwrap();
    db.apply(
        2,
        TS + 1,
        &WalPayload::MigrateEmbedding(MigrateEmbeddingPayload {
            memory_id: id,
            old_fingerprint: [1; 16],
            new_fingerprint: new_fp,
        }),
    )
    .unwrap();
    assert_eq!(memory_at(&db, id).unwrap().embedding_model_fp, new_fp);
}

// Checkpoints.

#[test]
fn checkpoint_end_writes_meta_row() {
    let dir = tempfile::tempdir().unwrap();
    let mut db = open(&dir);
    db.apply(
        1,
        TS,
        &WalPayload::CheckpointBegin(CheckpointBeginPayload { checkpoint_id: 7, started_at_unix_nanos: TS }),
    )
    .unwrap();
    db.apply(
        2,
        TS + 5000,
        &WalPayload::CheckpointEnd(CheckpointEndPayload { checkpoint_id: 7, durable_lsn: 1, arena_capacity: 1024 }),
    )
    .unwrap();

    assert_eq!(db.durable_lsn(), 1);
    let m = checkpoint_at(&db, 7);
    assert_eq!(m.checkpoint_id, 7);
    assert_eq!(m.durable_lsn, 1);
    assert_eq!(m.started_at_unix_nanos, TS);
    assert_eq!(m.completed_at_unix_nanos, TS + 5000);
    assert_eq!(m.metadata_version_at_checkpoint, u64::from(CURRENT_SCHEMA_VERSION));
}

#[test]
fn checkpoint_end_without_begin_uses_zero_started_at() {
    let dir = tempfile::tempdir().unwrap();
    let mut db = open(&dir);
    db.apply(
        1,
        TS + 5000,
        &WalPayload::CheckpointEnd(CheckpointEndPayload { checkpoint_id: 9, durable_lsn: 50, arena_capacity: 1024 }),
    )
    .unwrap();
    let m = checkpoint_at(&db, 9);
    assert_eq!(m.started_at_unix_nanos, 0);
    assert_eq!(m.completed_at_unix_nanos, TS + 5000);
    assert_eq!(m.durable_lsn, 50);
}

// Positions.

#[test]
fn txn_records_are_noops_except_next_lsn() {
    let dir = tempfile::tempdir().unwrap();
    let mut db = open(&dir);
    let mut tid_bytes = [0u8; 16];
    tid_bytes[15] = 0x55;
    db.apply(1, TS, &WalPayload::TxnBegin(TxnId(tid_bytes))).unwrap();
    assert_eq!(rows_in(&db, Table::Memories), 0);
    let rtxn = db.read_txn().unwrap();
    assert_eq!(next_lsn(&rtxn).unwrap(), 2);
}

#[test]
fn next_lsn_tracks_max_seen() {
    let dir = tempfile::tempdir().unwrap();
    let mut db = open(&dir);
    let p = sample_encode(1, 1);
    // Positions out of order: 3, 5, 4, 7, 6.
    for lsn in [3u64, 5, 4, 7, 6] {
        db.apply(lsn, TS + lsn, &WalPayload::Encode(p.clone())).unwrap();
    }
    let rtxn = db.read_txn().unwrap();
    assert_eq!(next_lsn(&rtxn).unwrap(), 8);
}

#[test]
fn the_last_position_is_kept() {
    let dir = tempfile::tempdir().unwrap();
    let mut db = open(&dir);
    db.bump_next_lsn(u64::MAX).unwrap();
    db.bump_next_lsn(7).unwrap();
    let rtxn = db.read_txn().unwrap();
    assert_eq!(next_lsn(&rtxn).unwrap(), u64::MAX);
}

// Replay.

#[test]
fn every_record_can_be_applied_again() {
    let dir = tempfile::tempdir().unwrap();
    let mut db = open(&dir);
    let mut enc = sample_encode(1, 1);
    let id = enc.memory_id;
    enc.edges = vec![
        EdgePayload {
            source: id,
            target: mid(2, 1),
            kind: EdgeKind::SimilarTo,
            weight: f(0.8),
            origin: EdgeOrigin::Explicit,
        },
        EdgePayload {
            source: id,
            target: mid(2, 1),
            kind: EdgeKind::SimilarTo,
            weight: f(0.3),
            origin: EdgeOrigin::AutoDerived,
        },
    ];
    let records = vec![
        WalPayload::Encode(enc),
        WalPayload::Encode(sample_encode(5, 5)),
        link_record(),
        unlink_record(),
        consolidate_record(),
        WalPayload::UpdateSalience(UpdateSaliencePayload {
            updates: vec![
                SalienceUpdate { memory_id: id, new_salience: f(0.1) },
                SalienceUpdate { memory_id: id, new_salience: f(0.9) },
            ],
        }),
        WalPayload::UpdateKind(UpdateKindPayload { memory_id: id, new_kind: MemoryKind::Semantic }),
        WalPayload::UpdateContext(UpdateContextPayload { memory_id: id, new_context_id: ContextId(1) }),
        WalPayload::MigrateEmbedding(MigrateEmbeddingPayload {
            memory_id: id,
            old_fingerprint: [1; 16],
            new_fingerprint: [2; 16],
        }),
        WalPayload::Forget(ForgetPayload { memory_id: id, request_id: rid(3) }),
        WalPayload::Reclaim(ReclaimPayload { slot_id: 5, old_version: 1, new_version: 2 }),
        WalPayload::CheckpointEnd(CheckpointEndPayload { checkpoint_id: 4, durable_lsn: 3, arena_capacity: 9 }),
        WalPayload::TxnCommit(TxnId([1; 16])),
        WalPayload::TxnAbort(TxnId([1; 16])),
    ];
    for (i, record) in records.iter().enumerate() {
        let lsn = i as u64 + 1;
        db.apply(lsn, TS + lsn, record).unwrap();
        let once = contents(&db);
        db.apply(lsn, TS + lsn, record).unwrap();
        assert_eq!(contents(&db), once, "record {i}");
    }
}

#[test]
fn a_record_that_cannot_be_applied_changes_nothing() {
    let dir = tempfile::tempdir().unwrap();
    let mut db = open(&dir);
    let id = mid(1, 1);
    let mut wtxn = db.write_txn().unwrap();
    put(&mut wtxn, Table::Memories, &id.to_be_bytes(), b"?").unwrap();
    db.commit(wtxn).unwrap();
    let before = contents(&db);
    let r = db.apply(1, TS, &WalPayload::Forget(ForgetPayload { memory_id: id, request_id: rid(2) }));
    assert!(matches!(r, Err(MetadataSinkError::Transient(LoadError::Corrupt))));
    assert_eq!(contents(&db), before);
}

#[test]
fn a_change_of_an_absent_memory_is_only_seen() {
    let dir = tempfile::tempdir().unwrap();
    let mut db = open(&dir);
    db.apply(4, TS, &WalPayload::Forget(ForgetPayload { memory_id: mid(1, 1), request_id: rid(2) })).unwrap();
    assert_eq!(rows_in(&db, Table::Memories), 0);
    assert_eq!(rows_in(&db, Table::Idempotency), 1);
    let rtxn = db.read_txn().unwrap();
    assert_eq!(next_lsn(&rtxn).unwrap(), 5);
}
