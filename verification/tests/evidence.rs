//! Evidence, contradictions, tombstones and the queue of statements to embed.

use brain_metadata::catalog::{materialize_all_tables, Table};
use brain_metadata::inline_evidence::InlineEvidence;
use brain_metadata::row::{load_at, save};
use brain_metadata::sink::MetadataDb;
use brain_metadata::statement::{
    contradiction_audit_list_pending, pack_evidence_entries, pack_evidence_ids, read_evidence_entries_w,
    read_evidence_ids, read_evidence_ids_w, reclaim_evidence_overflow, statement_create, statement_embed_queue_len,
    statement_embed_queue_peek, statement_embed_queue_remove, statement_embed_queue_remove_many, statement_get,
    statement_retract, statement_tombstone, StatementOpError, WriteContext,
};
use brain_metadata::store::{begin_change, begin_snapshot, commit_change, put, read};
use brain_metadata::tables::contradiction::{contradiction_outcome, make_contradiction_key, ContradictionAudit};
use brain_metadata::tables::entity::{Entity, EntityMetadata};
use brain_metadata::tables::statement::{
    confidence_bucket, make_by_predicate_key, EvidenceEntry, EvidenceRef, Statement, StatementObject, StatementValue,
    SubjectRef, TombstoneReason,
};
use brain_metadata::types::{
    AuditId, EntityId, EntityTypeId, EvidenceOverflowId, ExtractorId, MemoryId, PredicateId, RowScope, StatementId,
    StatementKind, F32,
};
use brain_metadata::vocabulary::predicate_intern;
use redb::Database;

const T0: u64 = 1_700_000_000_000_000_000;

fn f(x: f32) -> F32 {
    F32 { bits: x.to_bits() }
}

// Evidence.

fn fresh_db() -> (tempfile::TempDir, Database) {
    let dir = tempfile::tempdir().unwrap();
    let db = Database::create(dir.path().join("ev.redb")).unwrap();
    (dir, db)
}

fn ids(n: usize) -> Vec<MemoryId> {
    (0..n).map(|i| MemoryId::pack(i as u16, 0, 0)).collect()
}

fn pack(db: &mut Database, ids: &Vec<MemoryId>, milli: u16) -> EvidenceRef {
    let fresh = EvidenceOverflowId([0x0E; 16]);
    let mut wtxn = begin_change(db).unwrap();
    let r = pack_evidence_ids(&mut wtxn, ids, milli, 1_700_000_000, ExtractorId(0), fresh).unwrap();
    commit_change(db, wtxn).unwrap();
    r
}

fn reclaim(db: &mut Database, r: &EvidenceRef) -> bool {
    let mut wtxn = begin_change(db).unwrap();
    let removed = reclaim_evidence_overflow(&mut wtxn, r).unwrap();
    commit_change(db, wtxn).unwrap();
    removed
}

#[test]
fn inline_list_keeps_its_entries_in_order() {
    for n in [0u8, 1, 8, 9, 20] {
        let entries: Vec<EvidenceEntry> = (0..n)
            .map(|i| EvidenceEntry {
                memory_id: MemoryId([i; 16]),
                confidence_milli: u16::from(i),
                timestamp_unix_nanos: 7,
                extractor_id: ExtractorId(3),
            })
            .collect();
        let list = InlineEvidence::from_entries(&entries);
        assert_eq!(list.as_slice(), entries.as_slice());
        assert_eq!(list.clone(), list);
        match EvidenceRef::inline(&entries) {
            EvidenceRef::Inline(same) => assert_eq!(same, list),
            EvidenceRef::Overflow(_) => panic!("inline evidence must stay inline"),
        }
    }
}

#[test]
fn pack_eight_or_fewer_stays_inline() {
    let (_dir, mut db) = fresh_db();
    match pack(&mut db, &ids(8), 900) {
        EvidenceRef::Inline(entries) => {
            assert_eq!(entries.as_slice().len(), 8);
            assert!(entries.as_slice().iter().all(|e| e.confidence_milli == 900 && e.timestamp_unix_nanos == 1_700_000_000));
        }
        EvidenceRef::Overflow(_) => panic!("eight entries must stay inline"),
    }
}

#[test]
fn pack_nine_spills_to_overflow() {
    let (_dir, mut db) = fresh_db();
    let overflow_id = match pack(&mut db, &ids(9), 900) {
        EvidenceRef::Overflow(id) => id,
        EvidenceRef::Inline(_) => panic!("nine entries must spill"),
    };
    let rtxn = begin_snapshot(&db).unwrap();
    let back = read_evidence_ids(&rtxn, &EvidenceRef::Overflow(overflow_id)).unwrap();
    assert_eq!(back.len(), 9);
}

#[test]
fn pack_empty_stays_inline_empty() {
    let (_dir, mut db) = fresh_db();
    match pack(&mut db, &Vec::new(), 900) {
        EvidenceRef::Inline(entries) => assert!(entries.as_slice().is_empty()),
        EvidenceRef::Overflow(_) => panic!("empty must stay inline"),
    }
}

#[test]
fn read_inline_round_trip() {
    let (_dir, mut db) = fresh_db();
    let want = ids(5);
    let r = pack(&mut db, &want, 900);
    let rtxn = begin_snapshot(&db).unwrap();
    assert_eq!(read_evidence_ids(&rtxn, &r).unwrap(), want);
}

#[test]
fn read_overflow_round_trip_one_hundred() {
    let (_dir, mut db) = fresh_db();
    let want = ids(100);
    let r = pack(&mut db, &want, 750);
    let rtxn = begin_snapshot(&db).unwrap();
    assert_eq!(read_evidence_ids(&rtxn, &r).unwrap(), want);
}

#[test]
fn reclaim_drops_overflow_row() {
    let (_dir, mut db) = fresh_db();
    let r = pack(&mut db, &ids(20), 900);
    assert!(reclaim(&mut db, &r));
    // The row is gone; what refers to it dangles.
    let rtxn = begin_snapshot(&db).unwrap();
    let err = read_evidence_ids(&rtxn, &r).unwrap_err();
    assert!(matches!(err, StatementOpError::DecodeFailed));
}

#[test]
fn reclaim_inline_is_noop() {
    let (_dir, mut db) = fresh_db();
    let r = pack(&mut db, &ids(3), 900);
    assert!(!reclaim(&mut db, &r));
}

#[test]
fn reclaim_already_gone_is_idempotent() {
    let (_dir, mut db) = fresh_db();
    let r = pack(&mut db, &ids(20), 900);
    assert!(reclaim(&mut db, &r));
    assert!(!reclaim(&mut db, &r));
}

#[test]
fn read_w_matches_read() {
    let (_dir, mut db) = fresh_db();
    let want = ids(15);
    let fresh = EvidenceOverflowId([0x0E; 16]);
    let mut wtxn = begin_change(&db).unwrap();
    let r = pack_evidence_ids(&mut wtxn, &want, 900, 1_700_000_000, ExtractorId(0), fresh).unwrap();
    assert_eq!(read_evidence_ids_w(&mut wtxn, &r).unwrap(), want);
    commit_change(&mut db, wtxn).unwrap();
}

#[test]
fn pack_entries_preserves_per_entry_metadata() {
    let (_dir, mut db) = fresh_db();
    let entries: Vec<EvidenceEntry> = (0..12u16)
        .map(|i| EvidenceEntry {
            memory_id: MemoryId::pack(i, 0, 0),
            confidence_milli: 500 + i * 10,
            timestamp_unix_nanos: 1_700_000_000 + i as u64,
            extractor_id: ExtractorId(i as u32),
        })
        .collect();
    let mut wtxn = begin_change(&db).unwrap();
    let r = pack_evidence_entries(&mut wtxn, entries.clone(), EvidenceOverflowId([0x0E; 16]), 1_700_000_000).unwrap();
    commit_change(&mut db, wtxn).unwrap();

    let mut wtxn = begin_change(&db).unwrap();
    let back = read_evidence_entries_w(&mut wtxn, &r).unwrap();
    assert_eq!(back, entries);
}

// The queue.

fn queue_db(dir: &tempfile::TempDir) -> Database {
    let mut db = Database::create(dir.path().join("test.redb")).unwrap();
    let mut wtxn = begin_change(&db).unwrap();
    materialize_all_tables(&mut wtxn).unwrap();
    commit_change(&mut db, wtxn).unwrap();
    db
}

#[test]
fn peek_empty_table_returns_empty() {
    let dir = tempfile::tempdir().unwrap();
    let db = queue_db(&dir);
    let rtxn = begin_snapshot(&db).unwrap();
    assert!(statement_embed_queue_peek(&rtxn, 16).unwrap().is_empty());
}

#[test]
fn len_empty_table_returns_zero() {
    let dir = tempfile::tempdir().unwrap();
    let db = queue_db(&dir);
    let rtxn = begin_snapshot(&db).unwrap();
    assert_eq!(statement_embed_queue_len(&rtxn).unwrap(), 0);
}

#[test]
fn insert_peek_remove_round_trip() {
    let dir = tempfile::tempdir().unwrap();
    let mut db = queue_db(&dir);
    let ids: Vec<StatementId> = (0..5u8).map(|n| StatementId([n; 16])).collect();

    let mut wtxn = begin_change(&db).unwrap();
    for id in &ids {
        put(&mut wtxn, Table::StatementEmbedQueue, &id.to_bytes(), &42u64.to_be_bytes()).unwrap();
    }
    commit_change(&mut db, wtxn).unwrap();

    let rtxn = begin_snapshot(&db).unwrap();
    assert_eq!(statement_embed_queue_len(&rtxn).unwrap(), 5);
    assert!(statement_embed_queue_peek(&rtxn, 0).unwrap().is_empty());
    let pending = statement_embed_queue_peek(&rtxn, 3).unwrap();
    assert_eq!(pending.len(), 3, "limit honoured");
    for (_, ts) in &pending {
        assert_eq!(*ts, 42, "enqueue timestamp round-trips");
    }
    drop(rtxn);

    let mut wtxn = begin_change(&db).unwrap();
    assert_eq!(statement_embed_queue_remove_many(&mut wtxn, &Vec::new()).unwrap(), 0);
    let n = statement_embed_queue_remove_many(&mut wtxn, &ids[..3].to_vec()).unwrap();
    commit_change(&mut db, wtxn).unwrap();
    assert_eq!(n, 3);

    let rtxn = begin_snapshot(&db).unwrap();
    assert_eq!(statement_embed_queue_len(&rtxn).unwrap(), 2);
}

#[test]
fn remove_absent_row_is_idempotent() {
    let dir = tempfile::tempdir().unwrap();
    let mut db = queue_db(&dir);
    let mut wtxn = begin_change(&db).unwrap();
    statement_embed_queue_remove(&mut wtxn, StatementId([9; 16])).unwrap();
    commit_change(&mut db, wtxn).unwrap();
}

// Statements.

fn test_scope() -> RowScope {
    RowScope::from_bytes(0, [0xAB; 16])
}

fn open_db() -> (tempfile::TempDir, MetadataDb) {
    let dir = tempfile::tempdir().unwrap();
    let db = MetadataDb::attach(Database::create(dir.path().join("md.redb")).unwrap()).unwrap();
    (dir, db)
}

fn make_entity(db: &mut MetadataDb, name: &str) -> EntityId {
    let mut b = [0u8; 16];
    b[..name.len()].copy_from_slice(name.as_bytes());
    let id = EntityId(b);
    let e = Entity::new_active(id, EntityTypeId(1), name.to_string(), name.to_lowercase(), T0);
    let mut wtxn = db.write_txn().unwrap();
    save(&mut wtxn, Table::Entities, &b, &EntityMetadata::from_entity(&e, test_scope())).unwrap();
    db.commit(wtxn).unwrap();
    id
}

fn intern_fact(db: &mut MetadataDb, name: &str) -> PredicateId {
    let mut wtxn = db.write_txn().unwrap();
    let id = predicate_intern(&mut wtxn, "test", name, Some(StatementKind::Fact), 2, 1, "", false, T0).unwrap();
    db.commit(wtxn).unwrap();
    id
}

fn fact(n: u8, subject: EntityId, predicate: PredicateId, value: &str) -> Statement {
    Statement::new_root(
        StatementId([n; 16]),
        StatementKind::Fact,
        SubjectRef::Entity(subject),
        predicate,
        StatementObject::Value(StatementValue::Text(value.to_string())),
        f(0.9),
        EvidenceRef::inline(&[]),
        ExtractorId(0),
        T0,
        1,
    )
}

fn create(db: &mut MetadataDb, s: &Statement, now: u64) {
    let ctx = WriteContext {
        now_unix_nanos: now,
        fresh_audit_id: AuditId([0xA0; 16]),
        aggregated_now: f(0.0),
        aggregated_at_extraction: f(0.0),
    };
    let mut wtxn = db.write_txn().unwrap();
    statement_create(&mut wtxn, test_scope(), s, &ctx).unwrap();
    db.commit(wtxn).unwrap();
}

fn tombstone(db: &mut MetadataDb, id: StatementId, now: u64) {
    let mut wtxn = db.write_txn().unwrap();
    statement_tombstone(&mut wtxn, id, TombstoneReason::UserRequest, now).unwrap();
    db.commit(wtxn).unwrap();
}

fn pending(db: &mut MetadataDb, limit: usize, now: u64) -> Vec<ContradictionAudit> {
    let mut wtxn = db.write_txn().unwrap();
    let found = contradiction_audit_list_pending(&mut wtxn, limit, now).unwrap();
    db.commit(wtxn).unwrap();
    found
}

fn got(db: &MetadataDb, id: StatementId) -> Statement {
    let rtxn = db.read_txn().unwrap();
    statement_get(&rtxn, id).unwrap().unwrap()
}

// Contradictions.

#[test]
fn create_records_contradiction_list_then_resolve_on_tombstone() {
    let (_dir, mut db) = open_db();
    let subj = make_entity(&mut db, "ada");
    let pred = intern_fact(&mut db, "favorite_color");
    let a = fact(1, subj, pred, "blue");
    let b = fact(2, subj, pred, "green"); // disagrees with a
    create(&mut db, &a, T0);
    create(&mut db, &b, T0);

    // One pending contradiction over both.
    let found = pending(&mut db, 16, T0 + 1);
    assert_eq!(found.len(), 1);
    let mut ids = found[0].contradicting_statement_ids.clone();
    ids.sort_unstable();
    let mut want = vec![a.id.to_bytes(), b.id.to_bytes()];
    want.sort_unstable();
    assert_eq!(ids, want);
    assert_eq!(found[0].subject_bytes, subj.to_bytes());
    assert_eq!(found[0].audit_id(), AuditId([0xA0; 16]));

    // Tombstoning one side resolves it.
    tombstone(&mut db, a.id, T0 + 2);
    let found = pending(&mut db, 16, T0 + 3);
    assert!(found.is_empty(), "tombstoning one side resolves the contradiction");
    let rtxn = db.read_txn().unwrap();
    let key = make_contradiction_key(&subj.to_bytes(), pred.raw());
    let row: ContradictionAudit = load_at(&rtxn, Table::StatementContradictionAudit, &key).unwrap().unwrap();
    assert_eq!(row.outcome, contradiction_outcome::RESOLVED);
    assert_eq!(row.resolved_at_unix_nanos, Some(T0 + 3));
}

#[test]
fn agreeing_facts_do_not_record() {
    let (_dir, mut db) = open_db();
    let subj = make_entity(&mut db, "bo");
    let pred = intern_fact(&mut db, "city");
    create(&mut db, &fact(1, subj, pred, "paris"), T0);
    create(&mut db, &fact(2, subj, pred, "paris"), T0); // same object
    assert!(pending(&mut db, 16, T0 + 1).is_empty());
}

#[test]
fn the_list_of_contradictions_is_capped() {
    let (_dir, mut db) = open_db();
    let subj = make_entity(&mut db, "ada");
    for (i, name) in ["p", "q", "r"].iter().enumerate() {
        let pred = intern_fact(&mut db, name);
        create(&mut db, &fact(2 * i as u8 + 1, subj, pred, "a"), T0);
        create(&mut db, &fact(2 * i as u8 + 2, subj, pred, "b"), T0);
    }
    assert_eq!(pending(&mut db, 16, T0 + 1).len(), 3);
    assert_eq!(pending(&mut db, 2, T0 + 1).len(), 2);
    assert!(pending(&mut db, 0, T0 + 1).is_empty());
}

// Tombstones.

#[test]
fn tombstone_stamps_record_invalidated_at() {
    let (_dir, mut db) = open_db();
    let subj = make_entity(&mut db, "ada");
    let pred = intern_fact(&mut db, "knows");
    let s = fact(1, subj, pred, "lovelace");
    create(&mut db, &s, T0);

    let tomb_now: u64 = 1_700_000_000_000_000_750;
    tombstone(&mut db, s.id, tomb_now);
    let back = got(&db, s.id);
    assert!(back.tombstoned);
    assert_eq!(back.tombstoned_at_unix_nanos, Some(tomb_now));
    assert_eq!(back.record_invalidated_at_unix_nanos, Some(tomb_now));
}

#[test]
fn tombstone_removes_predicate_bucket_entry() {
    let (_dir, mut db) = open_db();
    let subj = make_entity(&mut db, "ada-byp");
    let pred = intern_fact(&mut db, "byp");
    let s = fact(1, subj, pred, "v");
    create(&mut db, &s, T0);

    let bucket = confidence_bucket(f(0.9));
    let key =
        make_by_predicate_key(&test_scope(), pred.raw(), StatementKind::Fact.as_u8(), bucket, &s.id.to_bytes());
    let rtxn = db.read_txn().unwrap();
    assert_eq!(read(&rtxn, Table::StatementsByPredicate, &key).unwrap(), Some(s.id.to_bytes().to_vec()));
    drop(rtxn);

    tombstone(&mut db, s.id, 1_700_000_000_000_000_500);
    let rtxn = db.read_txn().unwrap();
    assert!(
        read(&rtxn, Table::StatementsByPredicate, &key).unwrap().is_none(),
        "tombstone must remove the predicate-bucket entry"
    );
}

#[test]
fn double_tombstone_keeps_first_invalidation_timestamp() {
    let (_dir, mut db) = open_db();
    let subj = make_entity(&mut db, "ada-double");
    let pred = intern_fact(&mut db, "knows_double");
    let s = fact(1, subj, pred, "lovelace");
    create(&mut db, &s, T0);

    let first: u64 = 1_700_000_000_000_000_500;
    tombstone(&mut db, s.id, first);
    tombstone(&mut db, s.id, 1_700_000_000_000_001_500);
    assert_eq!(got(&db, s.id).record_invalidated_at_unix_nanos, Some(first));
}

#[test]
fn a_statement_that_is_not_there_cannot_be_tombstoned() {
    let (_dir, db) = open_db();
    let mut wtxn = db.write_txn().unwrap();
    let id = StatementId([7; 16]);
    let e = statement_tombstone(&mut wtxn, id, TombstoneReason::UserRequest, 1).unwrap_err();
    assert!(matches!(e, StatementOpError::NotFound(x) if x == id));
}

#[test]
fn a_retracted_statement_is_tombstoned_as_such() {
    let (_dir, mut db) = open_db();
    let subj = make_entity(&mut db, "ada");
    let pred = intern_fact(&mut db, "said");
    let s = fact(1, subj, pred, "x");
    create(&mut db, &s, T0);
    let mut wtxn = db.write_txn().unwrap();
    statement_retract(&mut wtxn, s.id, TombstoneReason::UserRequest, T0 + 1).unwrap();
    db.commit(wtxn).unwrap();
    let back = got(&db, s.id);
    assert!(back.tombstoned);
    assert_eq!(back.tombstone_reason, TombstoneReason::Retract.as_u8());
}
