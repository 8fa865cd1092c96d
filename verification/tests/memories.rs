//! Memories, the entries of requests, fingerprints and the audit of extraction.

use brain_metadata::catalog::{materialize_all_tables, Table};
use brain_metadata::row::{from_bytes, load_at, save, to_bytes, LoadError};
use brain_metadata::sink::MetadataDb;
use brain_metadata::store::{begin_change, begin_snapshot, commit_change, count, del, put, read, read_prefix};
use brain_metadata::tables::extractor_audit::{
    audit_count, extraction_attempts, extraction_retry_due, failure_class, has_extracted, is_retryable_transient,
    pipeline_audit_entry, pipeline_status, record_extracted, retry_backoff_nanos, tier_status, ExtractorItemCounts,
    ExtractorPipelineAuditEntry, RETRY_BACKOFF_BASE_NANOS, RETRY_BACKOFF_CAP_NANOS,
};
use brain_metadata::tables::fingerprint::{content_hash, fingerprint_key, FingerprintEntry};
use brain_metadata::tables::idempotency::{
    prune_expired, prune_expired_bounded, response_kind, IdempotencyEntry, DEFAULT_TTL_NANOS,
};
use brain_metadata::tables::memory::{
    agent_timeline_key, agent_timeline_prefix_agent, agent_timeline_prefix_agent_time, flags, memory_kind_from_u8,
    memory_kind_to_u8, BadMemoryKind, MemoryKind, MemoryMetadata,
};
use brain_metadata::types::{AgentId, ContextId, MemoryId, F32};
use redb::Database;

const T0: u64 = 1_700_000_000_000_000_000;
const HOUR_NS: u64 = 60 * 60 * 1_000_000_000;

fn fresh_db(dir: &tempfile::TempDir) -> Database {
    let mut db = Database::create(dir.path().join("test.redb")).expect("create redb");
    let mut wtxn = begin_change(&db).unwrap();
    materialize_all_tables(&mut wtxn).unwrap();
    commit_change(&mut db, wtxn).unwrap();
    db
}

fn f(x: f32) -> F32 {
    F32 { bits: x.to_bits() }
}

fn rid(byte: u8) -> [u8; 16] {
    let mut b = [0u8; 16];
    b[15] = byte;
    b
}

fn mid(byte: u8) -> [u8; 16] {
    let mut b = [0u8; 16];
    b[0] = 0xAB;
    b[15] = byte;
    b
}

// Entries of requests.

fn entry(byte: u8, created_at: u64) -> IdempotencyEntry {
    IdempotencyEntry::new(
        response_kind::ENCODE,
        Some(mid(byte)),
        vec![0xAA, 0xBB, 0xCC, byte],
        [byte; 32],
        created_at,
        0,
    )
}

fn put_entries(db: &mut Database, entries: &[([u8; 16], IdempotencyEntry)]) {
    let mut wtxn = begin_change(db).unwrap();
    for (key, e) in entries {
        save(&mut wtxn, Table::Idempotency, key, e).unwrap();
    }
    commit_change(db, wtxn).unwrap();
}

fn entry_at(db: &Database, key: [u8; 16]) -> Option<IdempotencyEntry> {
    let rtxn = begin_snapshot(db).unwrap();
    load_at(&rtxn, Table::Idempotency, &key).unwrap()
}

fn prune(db: &mut Database, now: u64, ttl: u64) -> u64 {
    let mut wtxn = begin_change(db).unwrap();
    let removed = prune_expired(&mut wtxn, now, ttl).unwrap();
    commit_change(db, wtxn).unwrap();
    removed
}

#[test]
fn idempotency_insert_and_get_round_trips() {
    let dir = tempfile::tempdir().unwrap();
    let mut db = fresh_db(&dir);
    put_entries(&mut db, &[(rid(1), entry(1, T0))]);
    let got = entry_at(&db, rid(1)).unwrap();
    assert_eq!(got, entry(1, T0));
    assert_eq!(got.response_kind, response_kind::ENCODE);
    assert_eq!(got.memory_id_bytes, Some(mid(1)));
    assert_eq!(got.memory_id(), Some(MemoryId(mid(1))));
}

#[test]
fn idempotency_missing_key_returns_none() {
    let dir = tempfile::tempdir().unwrap();
    let db = fresh_db(&dir);
    assert!(entry_at(&db, rid(99)).is_none());
}

#[test]
fn idempotency_update_overwrites() {
    let dir = tempfile::tempdir().unwrap();
    let mut db = fresh_db(&dir);
    put_entries(&mut db, &[(rid(7), entry(7, T0))]);
    let mut updated = entry(7, T0);
    updated.response_payload = vec![0xFF; 64];
    put_entries(&mut db, &[(rid(7), updated)]);
    assert_eq!(entry_at(&db, rid(7)).unwrap().response_payload, vec![0xFF; 64]);
}

#[test]
fn memory_id_optional_round_trip() {
    let dir = tempfile::tempdir().unwrap();
    let mut db = fresh_db(&dir);
    let mut with_some = entry(1, T0);
    with_some.memory_id_bytes = Some(mid(0xAB));
    let mut with_none = entry(2, T0);
    with_none.memory_id_bytes = None;
    put_entries(&mut db, &[(rid(1), with_some), (rid(2), with_none)]);
    assert_eq!(entry_at(&db, rid(1)).unwrap().memory_id_bytes, Some(mid(0xAB)));
    assert_eq!(entry_at(&db, rid(2)).unwrap().memory_id_bytes, None);
}

#[test]
fn response_payload_round_trip() {
    let dir = tempfile::tempdir().unwrap();
    let mut db = fresh_db(&dir);
    let mut e = entry(5, T0);
    e.response_payload = (0u8..=255).cycle().take(256).collect();
    put_entries(&mut db, &[(rid(5), e.clone())]);
    let got = entry_at(&db, rid(5)).unwrap();
    assert_eq!(got.response_payload.len(), 256);
    assert_eq!(got.response_payload, e.response_payload);
}

#[test]
fn request_hash_byte_compare() {
    let mut a = entry(1, T0);
    let mut b = entry(1, T0);
    // Identical hashes -> entries match.
    a.request_hash = [0x42; 32];
    b.request_hash = [0x42; 32];
    assert_eq!(a, b);
    // Differing hash -> entries differ.
    b.request_hash = [0x43; 32];
    assert_ne!(a, b);
}

#[test]
fn prune_expired_removes_old() {
    let dir = tempfile::tempdir().unwrap();
    let mut db = fresh_db(&dir);
    put_entries(&mut db, &[(rid(1), entry(1, T0))]);
    assert_eq!(prune(&mut db, T0 + 25 * HOUR_NS, DEFAULT_TTL_NANOS), 1);
    assert!(entry_at(&db, rid(1)).is_none());
}

#[test]
fn prune_expired_keeps_fresh() {
    let dir = tempfile::tempdir().unwrap();
    let mut db = fresh_db(&dir);
    put_entries(&mut db, &[(rid(1), entry(1, T0))]);
    assert_eq!(prune(&mut db, T0 + HOUR_NS, DEFAULT_TTL_NANOS), 0);
    assert!(entry_at(&db, rid(1)).is_some());
}

#[test]
fn prune_expired_mixed() {
    let dir = tempfile::tempdir().unwrap();
    let mut db = fresh_db(&dir);
    let now = T0 + 48 * HOUR_NS;
    put_entries(
        &mut db,
        &[
            // Three old.
            (rid(1), entry(1, T0)),
            (rid(2), entry(2, T0 + HOUR_NS)),
            (rid(3), entry(3, T0 + 2 * HOUR_NS)),
            // Two fresh.
            (rid(4), entry(4, T0 + 25 * HOUR_NS)),
            (rid(5), entry(5, T0 + 26 * HOUR_NS)),
        ],
    );
    assert_eq!(prune(&mut db, now, DEFAULT_TTL_NANOS), 3);
    let rtxn = begin_snapshot(&db).unwrap();
    let mut remaining: Vec<u8> =
        read_prefix(&rtxn, Table::Idempotency, b"").unwrap().into_iter().map(|kv| kv.0[15]).collect();
    remaining.sort();
    assert_eq!(remaining, vec![4, 5]);
}

#[test]
fn prune_saturating() {
    let dir = tempfile::tempdir().unwrap();
    let mut db = fresh_db(&dir);
    put_entries(&mut db, &[(rid(1), entry(1, u64::MAX))]);
    assert_eq!(prune(&mut db, 0, DEFAULT_TTL_NANOS), 0);
    assert!(entry_at(&db, rid(1)).is_some());
}

#[test]
fn prune_expired_bounded_empty_table_returns_zero_scanned_to_end() {
    let dir = tempfile::tempdir().unwrap();
    let mut db = fresh_db(&dir);
    let mut wtxn = begin_change(&db).unwrap();
    let (deleted, scanned_to_end) =
        prune_expired_bounded(&mut wtxn, T0 + 100 * HOUR_NS, 24 * HOUR_NS, 100).unwrap();
    commit_change(&mut db, wtxn).unwrap();
    assert_eq!(deleted, 0);
    assert!(scanned_to_end);
}

fn fifty_expired(db: &mut Database) {
    let mut entries = Vec::new();
    for i in 0..50u8 {
        entries.push((rid(i), entry(i, T0 + 50 * HOUR_NS)));
    }
    put_entries(db, &entries);
}

#[test]
fn prune_expired_bounded_caps_at_max_and_reports_not_scanned_to_end() {
    let dir = tempfile::tempdir().unwrap();
    let mut db = fresh_db(&dir);
    fifty_expired(&mut db);
    let mut wtxn = begin_change(&db).unwrap();
    let (deleted, scanned_to_end) = prune_expired_bounded(&mut wtxn, T0 + 100 * HOUR_NS, 24 * HOUR_NS, 10).unwrap();
    commit_change(&mut db, wtxn).unwrap();
    assert_eq!(deleted, 10);
    assert!(!scanned_to_end);
    let rtxn = begin_snapshot(&db).unwrap();
    assert_eq!(count(&rtxn, Table::Idempotency).unwrap(), 40);
}

#[test]
fn prune_expired_bounded_returns_scanned_to_end_when_all_consumed() {
    let dir = tempfile::tempdir().unwrap();
    let mut db = fresh_db(&dir);
    fifty_expired(&mut db);
    let mut wtxn = begin_change(&db).unwrap();
    let (deleted, scanned_to_end) =
        prune_expired_bounded(&mut wtxn, T0 + 100 * HOUR_NS, 24 * HOUR_NS, 1000).unwrap();
    commit_change(&mut db, wtxn).unwrap();
    assert_eq!(deleted, 50);
    assert!(scanned_to_end);
}

#[test]
fn bounded_pruning_leaves_what_is_alive() {
    let dir = tempfile::tempdir().unwrap();
    let mut db = fresh_db(&dir);
    fifty_expired(&mut db);
    put_entries(&mut db, &[(rid(60), entry(60, T0 + 99 * HOUR_NS))]);
    for (max, removed) in [(0usize, 0u64), (20, 20), (30, 30), (20, 0)] {
        let mut wtxn = begin_change(&db).unwrap();
        let (deleted, _) = prune_expired_bounded(&mut wtxn, T0 + 100 * HOUR_NS, 24 * HOUR_NS, max).unwrap();
        commit_change(&mut db, wtxn).unwrap();
        assert_eq!(deleted, removed);
    }
    assert!(entry_at(&db, rid(60)).is_some());
    let rtxn = begin_snapshot(&db).unwrap();
    assert_eq!(count(&rtxn, Table::Idempotency).unwrap(), 1);
}

#[test]
fn an_entry_lives_up_to_its_end() {
    let e = entry(1, T0);
    assert!(!e.is_expired(T0 + 9, 10));
    assert!(!e.is_expired(T0 + 10, 10));
    assert!(e.is_expired(T0 + 11, 10));
}

#[test]
fn a_damaged_entry_stops_the_pruning() {
    let dir = tempfile::tempdir().unwrap();
    let db = fresh_db(&dir);
    let mut wtxn = begin_change(&db).unwrap();
    put(&mut wtxn, Table::Idempotency, &rid(1), b"?").unwrap();
    assert!(matches!(prune_expired(&mut wtxn, T0, 1), Err(LoadError::Corrupt)));
}

// Memories.

fn aid(byte: u8) -> AgentId {
    let mut b = [0u8; 16];
    b[15] = byte;
    AgentId(b)
}

fn memory_row(slot: u64) -> MemoryMetadata {
    MemoryMetadata::new_active(
        MemoryId::pack(1, slot, 1),
        aid(slot as u8),
        ContextId(0xCAFE),
        slot,
        1,
        MemoryKind::Episodic,
        [0xAB; 16],
        f(0.5),
        42,
        T0,
    )
}

#[test]
fn memory_insert_and_get_round_trips() {
    let dir = tempfile::tempdir().unwrap();
    let mut db = fresh_db(&dir);
    let m = memory_row(7);
    let key = m.memory_id_bytes;
    let mut wtxn = begin_change(&db).unwrap();
    save(&mut wtxn, Table::Memories, &key, &m).unwrap();
    commit_change(&mut db, wtxn).unwrap();
    let rtxn = begin_snapshot(&db).unwrap();
    let row: Option<MemoryMetadata> = load_at(&rtxn, Table::Memories, &key).unwrap();
    assert_eq!(row.expect("row present"), m);
}

#[test]
fn flag_bit_manipulation() {
    let mut m = memory_row(1);
    assert!(m.is_active());
    m.set_flag(flags::ACTIVE, false);
    assert!(!m.is_active());
    assert!(m.is_tombstoned());

    m.set_flag(flags::PINNED, true);
    assert!(m.is_pinned());
    assert!(!m.is_active()); // unaffected

    m.set_flag(flags::HARD_FORGOTTEN | flags::STALE, true);
    assert!(m.is_hard_forgotten());
    assert!(m.is_stale());
}

#[test]
fn memory_brain_core_type_round_trip() {
    let memory_id = MemoryId::pack(7, 0x1234_5678, 42);
    let agent_id = aid(0x33);
    let context = ContextId(99);
    let m = MemoryMetadata::new_active(
        memory_id,
        agent_id,
        context,
        0x1234_5678,
        42,
        MemoryKind::Semantic,
        [0; 16],
        f(0.5),
        0,
        0,
    );
    assert_eq!(m.memory_id(), memory_id);
    assert_eq!(m.agent_id(), agent_id);
    assert_eq!(m.context(), context);
    assert_eq!(m.kind().unwrap(), MemoryKind::Semantic);
    assert_eq!(memory_id.slot(), 0x1234_5678);
    assert_eq!(memory_id.version(), 42);
    assert_eq!(memory_id.to_be_bytes(), memory_id.to_bytes());
}

#[test]
fn kinds_of_memories_have_stable_bytes() {
    for k in [MemoryKind::Episodic, MemoryKind::Semantic, MemoryKind::Consolidated] {
        assert_eq!(memory_kind_from_u8(memory_kind_to_u8(k)), Ok(k));
    }
    assert_eq!(memory_kind_from_u8(200), Err(BadMemoryKind::Invalid(200)));
    let mut m = memory_row(1);
    m.kind = 200;
    assert_eq!(m.kind(), Err(BadMemoryKind::Invalid(200)));
}

#[test]
fn a_memory_takes_its_hash_position_and_time() {
    let m = memory_row(1).with_content_hash([9; 32]).with_encoded_at_lsn(17).with_occurred_at(Some(5));
    assert_eq!(m.content_hash, Some([9; 32]));
    assert_eq!(m.encoded_at_lsn, 17);
    assert_eq!(m.occurred_at_unix_nanos, Some(5));
    let back: MemoryMetadata = from_bytes(&to_bytes(&m)).unwrap();
    assert_eq!(back, m);
}

#[test]
fn a_timeline_is_chronological() {
    let early = agent_timeline_key([1; 16], 255, 9, [0xff; 16]);
    let late = agent_timeline_key([1; 16], 256, 0, [0; 16]);
    assert!(early < late);
    let other = agent_timeline_key([2; 16], 0, 0, [0; 16]);
    assert!(late < other);
    assert_eq!(&early[..16], &agent_timeline_prefix_agent([1; 16])[..]);
    assert_eq!(&early[..24], &agent_timeline_prefix_agent_time([1; 16], 255)[..]);
}

// Fingerprints.

fn agent(seed: u8) -> AgentId {
    AgentId([seed; 16])
}

#[test]
fn key_packing_is_deterministic_and_disjoint() {
    let a = fingerprint_key(agent(1), ContextId(7), &content_hash("hello"));
    let b = fingerprint_key(agent(1), ContextId(7), &content_hash("hello"));
    assert_eq!(a, b);

    let c = fingerprint_key(agent(2), ContextId(7), &content_hash("hello"));
    assert_ne!(a, c, "different agent");
    let d = fingerprint_key(agent(1), ContextId(8), &content_hash("hello"));
    assert_ne!(a, d, "different context");
    let e = fingerprint_key(agent(1), ContextId(7), &content_hash("world"));
    assert_ne!(a, e, "different content");
}

#[test]
fn content_hash_stable_across_calls() {
    assert_eq!(content_hash("hello world"), content_hash("hello world"));
    assert_ne!(content_hash("hello world"), content_hash("hello  world"));
}

#[test]
fn content_hash_is_blake3() {
    assert_eq!(content_hash("hello"), *blake3::hash(b"hello").as_bytes());
    // The hash of the empty input, from the reference vectors.
    assert_eq!(content_hash("")[..4], [0xaf, 0x13, 0x49, 0xb9]);
}

#[test]
fn from_bytes_handles_misaligned_input() {
    let e = FingerprintEntry::new(MemoryId::pack(0, 17, 1), T0);
    let bytes = to_bytes(&e);
    let mut misaligned = vec![0u8; bytes.len() + 1];
    misaligned[1..].copy_from_slice(&bytes);
    let decoded: FingerprintEntry = from_bytes(&misaligned[1..]).unwrap();
    assert_eq!(decoded, e);
}

#[test]
fn round_trip_insert_get_remove() {
    let dir = tempfile::tempdir().unwrap();
    let mut db = fresh_db(&dir);
    let key = fingerprint_key(agent(1), ContextId(7), &content_hash("hello"));
    let mid = MemoryId::pack(0, 42, 1);
    let e = FingerprintEntry::new(mid, T0);

    // Insert.
    let mut wtxn = begin_change(&db).unwrap();
    save(&mut wtxn, Table::Fingerprints, &key, &e).unwrap();
    commit_change(&mut db, wtxn).unwrap();

    // Get.
    let rtxn = begin_snapshot(&db).unwrap();
    let got: FingerprintEntry = load_at(&rtxn, Table::Fingerprints, &key).unwrap().expect("present");
    assert_eq!(got.memory_id(), mid);
    assert_eq!(got.inserted_at_unix_nanos, e.inserted_at_unix_nanos);

    // Remove.
    let mut wtxn = begin_change(&db).unwrap();
    assert!(del(&mut wtxn, Table::Fingerprints, &key).unwrap());
    commit_change(&mut db, wtxn).unwrap();

    // Gone.
    let rtxn = begin_snapshot(&db).unwrap();
    assert!(read(&rtxn, Table::Fingerprints, &key).unwrap().is_none());
}

// The audit of extraction.

fn open(dir: &tempfile::TempDir) -> MetadataDb {
    MetadataDb::attach(Database::create(dir.path().join("metadata.redb")).unwrap()).expect("open")
}

fn record(d: &mut MetadataDb, e: &ExtractorPipelineAuditEntry) {
    let mut wtxn = d.write_txn().unwrap();
    record_extracted(&mut wtxn, e).unwrap();
    d.commit(wtxn).unwrap();
}

fn audit_entry(memory_id: MemoryId) -> ExtractorPipelineAuditEntry {
    ExtractorPipelineAuditEntry::new(
        memory_id,
        1_700_000_000_000_000_000,
        pipeline_status::SUCCESS,
        String::new(),
        tier_status::RAN,
        tier_status::ABSENT,
        tier_status::ABSENT,
        ExtractorItemCounts { entities: 2, statements: 1, relations: 0, mention_edges: 2 },
        0,
    )
}

#[test]
fn has_extracted_returns_false_on_empty_db() {
    let dir = tempfile::tempdir().unwrap();
    let d = open(&dir);
    let rtxn = d.read_txn().unwrap();
    assert!(!has_extracted(&rtxn, MemoryId::pack(0, 1, 1)).unwrap());
}

#[test]
fn record_then_has_extracted_returns_true() {
    let dir = tempfile::tempdir().unwrap();
    let mut d = open(&dir);
    let id = MemoryId::pack(0, 42, 1);
    record(&mut d, &audit_entry(id));
    let rtxn = d.read_txn().unwrap();
    assert!(has_extracted(&rtxn, id).unwrap());
    // A different id is still untouched.
    assert!(!has_extracted(&rtxn, MemoryId::pack(0, 43, 1)).unwrap());
}

fn llm_fail(id: MemoryId, base: u64, attempts: u8, class: u8) -> ExtractorPipelineAuditEntry {
    ExtractorPipelineAuditEntry::new(
        id,
        base,
        pipeline_status::PARTIAL_FAILURE,
        "provider request timed out".into(),
        tier_status::RAN,    // pattern ran
        tier_status::RAN,    // classifier ran
        tier_status::FAILED, // llm failed
        ExtractorItemCounts::zero(),
        0,
    )
    .with_attempts(attempts)
    .with_failure_class(class)
}

#[test]
fn transient_llm_failure_retries_with_backoff_permanent_is_terminal() {
    let dir = tempfile::tempdir().unwrap();
    let mut d = open(&dir);
    let id = MemoryId::pack(0, 100, 1);
    let base = 1_700_000_000_000_000_000u64;

    // Transient: never terminal, even after many attempts.
    record(&mut d, &llm_fail(id, base, 7, failure_class::TRANSIENT));
    {
        let rtxn = d.read_txn().unwrap();
        assert!(!has_extracted(&rtxn, id).unwrap());
        // Not due immediately after the attempt, but due once the window is over.
        assert!(!extraction_retry_due(&rtxn, id, base + 1).unwrap());
        let due_at = base + retry_backoff_nanos(7);
        assert!(extraction_retry_due(&rtxn, id, due_at).unwrap());
        assert_eq!(extraction_attempts(&rtxn, id).unwrap(), 7);
    }

    // An unclassified failure is treated as transient.
    record(&mut d, &llm_fail(id, base, 1, failure_class::UNCLASSIFIED));
    {
        let rtxn = d.read_txn().unwrap();
        assert!(!has_extracted(&rtxn, id).unwrap());
    }

    // Permanent: terminal at once.
    record(&mut d, &llm_fail(id, base, 1, failure_class::PERMANENT));
    {
        let rtxn = d.read_txn().unwrap();
        assert!(has_extracted(&rtxn, id).unwrap());
        assert!(extraction_retry_due(&rtxn, id, base + 1).unwrap());
    }

    // What succeeded or was skipped is done with, and waits for nothing, though the LLM failed.
    for status in [pipeline_status::SUCCESS, pipeline_status::SKIPPED] {
        let mut entry = llm_fail(id, base, 7, failure_class::TRANSIENT);
        entry.status = status;
        record(&mut d, &entry);
        let rtxn = d.read_txn().unwrap();
        assert!(has_extracted(&rtxn, id).unwrap());
        assert!(extraction_retry_due(&rtxn, id, base + 1).unwrap());
    }

    // A failure elsewhere is terminal.
    let classifier_fail = ExtractorPipelineAuditEntry::new(
        id,
        base,
        pipeline_status::PARTIAL_FAILURE,
        "classifier failed".into(),
        tier_status::RAN,
        tier_status::FAILED, // classifier failed
        tier_status::RAN,    // llm ok
        ExtractorItemCounts::zero(),
        0,
    )
    .with_attempts(1);
    assert!(!is_retryable_transient(&classifier_fail));
    record(&mut d, &classifier_fail);
    {
        let rtxn = d.read_txn().unwrap();
        assert!(has_extracted(&rtxn, id).unwrap());
    }
}

#[test]
fn backoff_grows_then_caps() {
    assert_eq!(retry_backoff_nanos(1), RETRY_BACKOFF_BASE_NANOS);
    assert_eq!(retry_backoff_nanos(2), RETRY_BACKOFF_BASE_NANOS * 2);
    assert_eq!(retry_backoff_nanos(3), RETRY_BACKOFF_BASE_NANOS * 4);
    // Far out, it stays at the cap rather than overflowing.
    assert_eq!(retry_backoff_nanos(200), RETRY_BACKOFF_CAP_NANOS);
}

#[test]
fn record_overwrites_prior_entry() {
    let dir = tempfile::tempdir().unwrap();
    let mut d = open(&dir);
    let id = MemoryId::pack(0, 7, 1);
    let mut first = audit_entry(id);
    first.item_counts.entities = 1;
    record(&mut d, &first);
    let mut second = audit_entry(id);
    second.item_counts.entities = 9;
    record(&mut d, &second);
    let rtxn = d.read_txn().unwrap();
    let got = pipeline_audit_entry(&rtxn, id).unwrap().unwrap();
    assert_eq!(got.item_counts.entities, 9);
}

#[test]
fn audit_count_grows_with_records() {
    let dir = tempfile::tempdir().unwrap();
    let mut d = open(&dir);
    {
        let rtxn = d.read_txn().unwrap();
        assert_eq!(audit_count(&rtxn).unwrap(), 0);
    }
    record(&mut d, &audit_entry(MemoryId::pack(0, 1, 1)));
    record(&mut d, &audit_entry(MemoryId::pack(0, 2, 1)));
    let rtxn = d.read_txn().unwrap();
    assert_eq!(audit_count(&rtxn).unwrap(), 2);
}

#[test]
fn entry_round_trips_through_rkyv() {
    let dir = tempfile::tempdir().unwrap();
    let mut d = open(&dir);
    let id = MemoryId::pack(2, 99, 5);
    let e = ExtractorPipelineAuditEntry::new(
        id,
        42,
        pipeline_status::PARTIAL_FAILURE,
        "LLM 5xx".into(),
        tier_status::RAN,
        tier_status::RAN,
        tier_status::FAILED,
        ExtractorItemCounts { entities: 4, statements: 2, relations: 1, mention_edges: 4 },
        12_345,
    );
    record(&mut d, &e);
    let rtxn = d.read_txn().unwrap();
    let got = pipeline_audit_entry(&rtxn, id).unwrap().unwrap();
    assert_eq!(got, e);
    assert_eq!(got.memory_id(), id);
    assert!(!got.item_counts.is_empty());
    assert!(ExtractorItemCounts::zero().is_empty());
}
