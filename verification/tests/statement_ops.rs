//! Statements of an agent in a namespace of its own.

use brain_metadata::catalog::Table;
use brain_metadata::row::save;
use brain_metadata::sink::MetadataDb;
use brain_metadata::statement::list::StatementListFilter;
use brain_metadata::statement::{
    allocate_evidence_overflow, evidence_overflow_load, statement_create, statement_get, statement_history,
    statement_list, statement_supersede, statement_tombstone, StatementOpError, WriteContext,
};
use brain_metadata::store::{read, read_prefix};
use brain_metadata::tables::entity::{Entity, EntityMetadata};
use brain_metadata::tables::statement::{
    confidence_bucket, make_by_evidence_key, make_by_object_key, make_by_predicate_key, make_by_subject_prefix,
    make_chain_key, EvidenceEntry, EvidenceRef, Statement, StatementObject, StatementValue, SubjectRef, TombstoneReason,
};
use brain_metadata::types::{
    AuditId, EntityId, EntityTypeId, EvidenceOverflowId, ExtractorId, MemoryId, PredicateId, RowScope, StatementId,
    StatementKind, F32,
};
use brain_metadata::vocabulary::predicate_intern;
use redb::Database;

const T0: u64 = 1_700_000_000_000_000_000;

fn test_scope() -> RowScope {
    RowScope::from_bytes(7, [0xCD; 16])
}

fn f(x: f32) -> F32 {
    F32 { bits: x.to_bits() }
}

fn x(c: F32) -> f32 {
    f32::from_bits(c.bits)
}

fn sid(n: u8) -> StatementId {
    StatementId([n; 16])
}

/// What a write at `now` takes from outside. No evidence here says more.
fn at(now: u64) -> WriteContext {
    WriteContext {
        now_unix_nanos: now,
        fresh_audit_id: AuditId([0xA0; 16]),
        aggregated_now: f(0.0),
        aggregated_at_extraction: f(0.0),
    }
}

fn open_db() -> (tempfile::TempDir, MetadataDb) {
    let dir = tempfile::tempdir().unwrap();
    let db = MetadataDb::attach(Database::create(dir.path().join("md.redb")).unwrap()).unwrap();
    (dir, db)
}

/// Stores a person whose identifier begins with the name.
fn make_entity(db: &mut MetadataDb, name: &str) -> EntityId {
    let mut b = [0u8; 16];
    b[..name.len()].copy_from_slice(name.as_bytes());
    let id = EntityId(b);
    let e = Entity::new_active(id, EntityTypeId(1), name.to_string(), name.to_lowercase(), T0);
    let mut wtxn = db.write_txn().unwrap();
    save(&mut wtxn, Table::Entities, &b, &EntityMetadata::from_entity(&e, test_scope())).unwrap();
    db.commit(wtxn).unwrap();
    id
}

fn intern(db: &mut MetadataDb, name: &str, kind: StatementKind, object: u8, is_stateful: bool) -> PredicateId {
    let mut wtxn = db.write_txn().unwrap();
    let id = predicate_intern(&mut wtxn, "test", name, Some(kind), object, 1, "", is_stateful, T0).unwrap();
    db.commit(wtxn).unwrap();
    id
}

fn intern_fact_entity_pred(db: &mut MetadataDb, name: &str) -> PredicateId {
    intern(db, name, StatementKind::Fact, 1, false)
}

fn intern_pref_value_pred(db: &mut MetadataDb, name: &str) -> PredicateId {
    intern(db, name, StatementKind::Preference, 2, true)
}

fn intern_event_any_pred(db: &mut MetadataDb, name: &str) -> PredicateId {
    intern(db, name, StatementKind::Event, 0, false)
}

fn statement(n: u8, kind: StatementKind, subject: EntityId, predicate: PredicateId, o: StatementObject) -> Statement {
    Statement::new_root(
        sid(n),
        kind,
        SubjectRef::Entity(subject),
        predicate,
        o,
        f(0.9),
        EvidenceRef::inline(&[]),
        ExtractorId(0),
        T0,
        1,
    )
}

fn fresh_fact(n: u8, subject: EntityId, predicate: PredicateId, object: EntityId) -> Statement {
    statement(n, StatementKind::Fact, subject, predicate, StatementObject::Entity(object))
}

fn fresh_pref(n: u8, subject: EntityId, predicate: PredicateId, value: &str) -> Statement {
    let o = StatementObject::Value(StatementValue::Text(value.to_string()));
    statement(n, StatementKind::Preference, subject, predicate, o)
}

fn fresh_event(n: u8, subject: EntityId, predicate: PredicateId, when: u64) -> Statement {
    let o = StatementObject::Value(StatementValue::Text("scheduled".to_string()));
    let mut s = statement(n, StatementKind::Event, subject, predicate, o);
    s.event_at_unix_nanos = Some(when);
    s
}

fn create(db: &mut MetadataDb, s: &Statement, now: u64) -> StatementId {
    let mut wtxn = db.write_txn().unwrap();
    let id = statement_create(&mut wtxn, test_scope(), s, &at(now)).unwrap();
    db.commit(wtxn).unwrap();
    id
}

fn refused(db: &mut MetadataDb, s: &Statement) -> StatementOpError {
    let mut wtxn = db.write_txn().unwrap();
    statement_create(&mut wtxn, test_scope(), s, &at(0)).unwrap_err()
}

fn supersede(db: &mut MetadataDb, old: StatementId, s: &Statement, now: u64) {
    let mut wtxn = db.write_txn().unwrap();
    statement_supersede(&mut wtxn, test_scope(), old, s, &at(now)).unwrap();
    db.commit(wtxn).unwrap();
}

fn tombstone(db: &mut MetadataDb, id: StatementId, now: u64) {
    let mut wtxn = db.write_txn().unwrap();
    statement_tombstone(&mut wtxn, id, TombstoneReason::UserRequest, now).unwrap();
    db.commit(wtxn).unwrap();
}

fn got(db: &MetadataDb, id: StatementId) -> Statement {
    let rtxn = db.read_txn().unwrap();
    statement_get(&rtxn, id).unwrap().unwrap()
}

fn evidence(n: u16, milli: u16, when: u64) -> EvidenceEntry {
    EvidenceEntry {
        memory_id: MemoryId::pack(n, 0, 0),
        confidence_milli: milli,
        timestamp_unix_nanos: when,
        extractor_id: ExtractorId(0),
    }
}

#[test]
fn statement_ops_create_fact_round_trips_via_get() {
    let (_dir, mut db) = open_db();
    let subj = make_entity(&mut db, "priya");
    let obj = make_entity(&mut db, "manager-role");
    let pred = intern_fact_entity_pred(&mut db, "role");

    let s = fresh_fact(1, subj, pred, obj);
    let id = create(&mut db, &s, 1_700_000_000_000_000_001);
    assert_eq!(id, s.id);
    assert_eq!(got(&db, id), s);
}

#[test]
fn statement_ops_create_fact_writes_all_six_indexes() {
    let (_dir, mut db) = open_db();
    let subj = make_entity(&mut db, "priya");
    let obj = make_entity(&mut db, "platform-team");
    let pred = intern_fact_entity_pred(&mut db, "team");

    let s = fresh_fact(1, subj, pred, obj);
    create(&mut db, &s, 0);

    let rtxn = db.read_txn().unwrap();
    let sc = test_scope();
    let fact = StatementKind::Fact.as_u8();
    let by_subject = make_by_subject_prefix(&sc, &subj.to_bytes(), fact, pred.raw(), 1);
    assert_eq!(read_prefix(&rtxn, Table::StatementsBySubject, &by_subject).unwrap().len(), 1);
    let by_predicate = make_by_predicate_key(&sc, pred.raw(), fact, confidence_bucket(f(0.9)), &s.id.to_bytes());
    assert!(read(&rtxn, Table::StatementsByPredicate, &by_predicate).unwrap().is_some());
    let by_object = make_by_object_key(&sc, &obj.to_bytes(), fact, &s.id.to_bytes());
    assert!(read(&rtxn, Table::StatementsByObjectEntity, &by_object).unwrap().is_some());
    let chain = make_chain_key(&sc, &s.id.to_bytes(), 1);
    assert!(read(&rtxn, Table::StatementChain, &chain).unwrap().is_some());
}

#[test]
fn statement_ops_create_preference_auto_supersedes_prior() {
    let (_dir, mut db) = open_db();
    let subj = make_entity(&mut db, "priya");
    let pred = intern_pref_value_pred(&mut db, "prefers");

    let p1 = fresh_pref(1, subj, pred, "async");
    create(&mut db, &p1, 0);
    let p2 = fresh_pref(2, subj, pred, "written-agendas");
    create(&mut db, &p2, 0);

    let p1_back = got(&db, p1.id);
    let p2_back = got(&db, p2.id);
    assert_eq!(p1_back.superseded_by, Some(p2.id));
    assert_eq!(p2_back.supersedes, Some(p1.id));
    assert_eq!(p2_back.version, 2);
    assert_eq!(p2_back.chain_root, p1.id);
}

#[test]
fn statement_ops_create_event_requires_event_at() {
    let (_dir, mut db) = open_db();
    let subj = make_entity(&mut db, "priya");
    let pred = intern_event_any_pred(&mut db, "scheduled");
    let mut s = fresh_event(1, subj, pred, 1_700_000_000);
    s.event_at_unix_nanos = None;
    assert!(matches!(refused(&mut db, &s), StatementOpError::InvalidArgument(_)));
}

#[test]
fn statement_ops_create_fact_with_event_at_rejected() {
    let (_dir, mut db) = open_db();
    let subj = make_entity(&mut db, "priya");
    let obj = make_entity(&mut db, "role-mgr");
    let pred = intern_fact_entity_pred(&mut db, "role2");
    let mut s = fresh_fact(1, subj, pred, obj);
    s.event_at_unix_nanos = Some(123);
    assert!(matches!(refused(&mut db, &s), StatementOpError::InvalidArgument(_)));
}

#[test]
fn statement_ops_create_unknown_predicate_rejected() {
    let (_dir, mut db) = open_db();
    let subj = make_entity(&mut db, "priya");
    let obj = make_entity(&mut db, "x");
    let s = fresh_fact(1, subj, PredicateId(9999), obj);
    assert!(matches!(refused(&mut db, &s), StatementOpError::UnknownPredicate(9999)));
}

#[test]
fn statement_ops_create_unknown_subject_rejected() {
    let (_dir, mut db) = open_db();
    let pred = intern_fact_entity_pred(&mut db, "role3");
    let s = fresh_fact(1, EntityId([0xE1; 16]), pred, EntityId([0xE2; 16]));
    assert!(matches!(refused(&mut db, &s), StatementOpError::UnknownSubject(_)));
}

#[test]
fn statement_ops_create_pending_subject_rejected_v1() {
    let (_dir, mut db) = open_db();
    let pred = intern_fact_entity_pred(&mut db, "role4");
    let obj = make_entity(&mut db, "x");
    let mut s = fresh_fact(1, EntityId([0xE1; 16]), pred, obj);
    s.subject = SubjectRef::Pending(AuditId([0xA1; 16]));
    assert!(matches!(refused(&mut db, &s), StatementOpError::InvalidArgument(_)));
}

#[test]
fn statement_ops_supersede_fact_chain_root_inherited_on_second_supersede() {
    let (_dir, mut db) = open_db();
    let subj = make_entity(&mut db, "priya");
    let obj = make_entity(&mut db, "x");
    let pred = intern_fact_entity_pred(&mut db, "role5");

    let f1 = fresh_fact(1, subj, pred, obj);
    create(&mut db, &f1, 0);
    let f2 = fresh_fact(2, subj, pred, obj);
    supersede(&mut db, f1.id, &f2, 1);
    let f3 = fresh_fact(3, subj, pred, obj);
    supersede(&mut db, f2.id, &f3, 2);

    let g3 = got(&db, f3.id);
    assert_eq!(g3.chain_root, f1.id);
    assert_eq!(g3.version, 3);
    assert_eq!(g3.supersedes, Some(f2.id));
}

#[test]
fn statement_ops_supersede_preserves_explicit_valid_to() {
    let (_dir, mut db) = open_db();
    let subj = make_entity(&mut db, "priya");
    let obj = make_entity(&mut db, "x");
    let pred = intern_fact_entity_pred(&mut db, "role6");

    let mut f1 = fresh_fact(1, subj, pred, obj);
    f1.valid_to_unix_nanos = Some(123_000_000);
    create(&mut db, &f1, 0);
    let f2 = fresh_fact(2, subj, pred, obj);
    supersede(&mut db, f1.id, &f2, 999_999_999_999);

    // The end that was given is kept.
    assert_eq!(got(&db, f1.id).valid_to_unix_nanos, Some(123_000_000));
}

#[test]
fn statement_ops_supersede_event_rejected() {
    let (_dir, mut db) = open_db();
    let subj = make_entity(&mut db, "priya");
    let pred = intern_event_any_pred(&mut db, "sched");

    let e1 = fresh_event(1, subj, pred, 1);
    create(&mut db, &e1, 0);
    let e2 = fresh_event(2, subj, pred, 2);
    let mut wtxn = db.write_txn().unwrap();
    let err = statement_supersede(&mut wtxn, test_scope(), e1.id, &e2, &at(0)).unwrap_err();
    assert!(matches!(err, StatementOpError::EventCannotSupersede));
}

#[test]
fn statement_ops_tombstone_flips_is_current_bit() {
    let (_dir, mut db) = open_db();
    let subj = make_entity(&mut db, "priya");
    let obj = make_entity(&mut db, "x");
    let pred = intern_fact_entity_pred(&mut db, "role7");
    let s = fresh_fact(1, subj, pred, obj);
    create(&mut db, &s, 0);
    tombstone(&mut db, s.id, 42);

    let rtxn = db.read_txn().unwrap();
    let sc = test_scope();
    let fact = StatementKind::Fact.as_u8();
    let current = make_by_subject_prefix(&sc, &subj.to_bytes(), fact, pred.raw(), 1);
    assert!(
        read_prefix(&rtxn, Table::StatementsBySubject, &current).unwrap().is_empty(),
        "is_current=1 entry must be gone"
    );
    let stale = make_by_subject_prefix(&sc, &subj.to_bytes(), fact, pred.raw(), 0);
    assert_eq!(
        read_prefix(&rtxn, Table::StatementsBySubject, &stale).unwrap().len(),
        1,
        "is_current=0 entry must exist"
    );
}

#[test]
fn statement_ops_tombstone_preserves_evidence_index() {
    let (_dir, mut db) = open_db();
    let subj = make_entity(&mut db, "priya");
    let obj = make_entity(&mut db, "x");
    let pred = intern_fact_entity_pred(&mut db, "role8");
    let entry = evidence(7, 800, 1_700_000_000_000_000_000);
    let mem = entry.memory_id;
    let mut s = fresh_fact(1, subj, pred, obj);
    s.evidence = EvidenceRef::inline(&[entry]);
    create(&mut db, &s, 0);
    tombstone(&mut db, s.id, 1);

    let rtxn = db.read_txn().unwrap();
    let key = make_by_evidence_key(&test_scope(), &mem.to_be_bytes(), &s.id.to_bytes());
    assert!(read(&rtxn, Table::StatementsByEvidence, &key).unwrap().is_some());
}

#[test]
fn statement_ops_history_walks_chain_in_version_order() {
    let (_dir, mut db) = open_db();
    let subj = make_entity(&mut db, "priya");
    let pred = intern_pref_value_pred(&mut db, "prefers2");

    let p1 = fresh_pref(9, subj, pred, "v1");
    create(&mut db, &p1, 0);
    let p2 = fresh_pref(8, subj, pred, "v2");
    create(&mut db, &p2, 0);
    let p3 = fresh_pref(7, subj, pred, "v3");
    create(&mut db, &p3, 0);

    let rtxn = db.read_txn().unwrap();
    let chain = statement_history(&rtxn, test_scope(), p1.id).unwrap();
    assert_eq!(chain.len(), 3);
    assert_eq!(chain[0].id, p1.id);
    assert_eq!(chain[1].id, p2.id);
    assert_eq!(chain[2].id, p3.id);

    // Any member will do as the anchor.
    let chain2 = statement_history(&rtxn, test_scope(), p3.id).unwrap();
    assert_eq!(chain2.len(), 3);
}

#[test]
fn statement_ops_list_subject_predicate_returns_single_current() {
    let (_dir, mut db) = open_db();
    let subj = make_entity(&mut db, "priya");
    let pred = intern_pref_value_pred(&mut db, "prefers3");
    let p1 = fresh_pref(1, subj, pred, "v1");
    let p2 = fresh_pref(2, subj, pred, "v2");
    create(&mut db, &p1, 0);
    create(&mut db, &p2, 0);

    let rtxn = db.read_txn().unwrap();
    let filter = StatementListFilter {
        subject: Some(subj),
        predicate: Some(pred),
        kind: Some(StatementKind::Preference),
        current_only: true,
        ..Default::default()
    };
    let out = statement_list(&rtxn, test_scope(), &filter).unwrap();
    assert_eq!(out.len(), 1);
    assert_eq!(out[0].id, p2.id);
}

#[test]
fn statement_ops_list_with_min_confidence_filters() {
    let (_dir, mut db) = open_db();
    let subj = make_entity(&mut db, "priya");
    let obj = make_entity(&mut db, "x");
    let pred = intern_fact_entity_pred(&mut db, "low_conf");
    let mut s = fresh_fact(1, subj, pred, obj);
    s.confidence = f(0.3);
    create(&mut db, &s, 0);

    let rtxn = db.read_txn().unwrap();
    let filter = StatementListFilter { subject: Some(subj), min_confidence: Some(f(0.5)), ..Default::default() };
    assert!(statement_list(&rtxn, test_scope(), &filter).unwrap().is_empty());
    let filter2 = StatementListFilter { subject: Some(subj), min_confidence: Some(f(0.2)), ..Default::default() };
    assert_eq!(statement_list(&rtxn, test_scope(), &filter2).unwrap().len(), 1);
}

#[test]
fn statement_ops_evidence_overflow_round_trip() {
    let (_dir, mut db) = open_db();
    let subj = make_entity(&mut db, "priya");
    let obj = make_entity(&mut db, "x");
    let pred = intern_fact_entity_pred(&mut db, "many_evi");
    let entries: Vec<EvidenceEntry> = (1..=10).map(|i| evidence(i, 700, 1_700_000_000_000_000_000)).collect();

    let mut wtxn = db.write_txn().unwrap();
    let overflow_id = allocate_evidence_overflow(&mut wtxn, EvidenceOverflowId([0x0F; 16]), &entries, 1).unwrap();
    let mut s = fresh_fact(1, subj, pred, obj);
    s.evidence = EvidenceRef::Overflow(overflow_id);
    statement_create(&mut wtxn, test_scope(), &s, &at(0)).unwrap();
    db.commit(wtxn).unwrap();

    let rtxn = db.read_txn().unwrap();
    let back = statement_get(&rtxn, s.id).unwrap().unwrap();
    match back.evidence {
        EvidenceRef::Overflow(id) => assert_eq!(id, overflow_id),
        _ => panic!("expected Overflow variant"),
    }
    let resolved = evidence_overflow_load(&rtxn, overflow_id).unwrap().unwrap();
    assert_eq!(resolved.len(), 10);

    // Each memory points to the statement.
    for e in &entries {
        let key = make_by_evidence_key(&test_scope(), &e.memory_id.to_be_bytes(), &s.id.to_bytes());
        assert!(read(&rtxn, Table::StatementsByEvidence, &key).unwrap().is_some());
    }
}

#[test]
fn statement_ops_create_aggregates_when_evidence_has_metadata() {
    let (_dir, mut db) = open_db();
    let subj = make_entity(&mut db, "priya");
    let obj = make_entity(&mut db, "role-mgr");
    let pred = intern_fact_entity_pred(&mut db, "role_agg");

    let mut s = fresh_fact(1, subj, pred, obj);
    s.confidence = f(0.5); // should be overwritten
    let when = 1_700_000_000_000_000_000;
    s.evidence = EvidenceRef::inline(&[evidence(1, 900, when), evidence(1, 900, when)]);
    // Two pieces of evidence of 0.9 without age: 1 - (1 - 0.9)^2.
    let ctx = WriteContext { aggregated_now: f(1.0 - (1.0 - 0.9) * (1.0 - 0.9)), ..at(when) };
    let mut wtxn = db.write_txn().unwrap();
    statement_create(&mut wtxn, test_scope(), &s, &ctx).unwrap();
    db.commit(wtxn).unwrap();

    let back = got(&db, s.id);
    assert!((x(back.confidence) - 0.99).abs() < 1e-3, "got {}", x(back.confidence));
}

#[test]
fn statement_ops_create_keeps_wire_confidence_when_evidence_lacks_metadata() {
    let (_dir, mut db) = open_db();
    let subj = make_entity(&mut db, "priya");
    let obj = make_entity(&mut db, "role-2");
    let pred = intern_fact_entity_pred(&mut db, "role_wire");

    // Evidence without confidences of its own.
    let mut s = fresh_fact(1, subj, pred, obj);
    s.confidence = f(0.42);
    s.evidence = EvidenceRef::inline(&[evidence(1, 0, 0)]);
    create(&mut db, &s, 1_700_000_000_000_000_000);

    let back = got(&db, s.id);
    assert!((x(back.confidence) - 0.42).abs() < 1e-6, "got {}", x(back.confidence));
}
