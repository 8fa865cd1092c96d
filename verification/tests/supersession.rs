//! Deciding whether a new statement supersedes an existing one.

use brain_metadata::catalog::Table;
use brain_metadata::row::save;
use brain_metadata::sink::MetadataDb;
use brain_metadata::statement::supersede::{
    DecideStep, JudgeError, JudgeVerdict, StatementSimilarityCandidate, SupersedeDecision, TieredSupersedeDecider,
    TieredThresholds,
};
use brain_metadata::statement::{
    statement_create, statement_create_with_decision, statement_get, statement_tombstone, WriteContext,
};
use brain_metadata::tables::entity::{Entity, EntityMetadata};
use brain_metadata::tables::statement::{
    EvidenceRef, Statement, StatementObject, StatementValue, SubjectRef, TombstoneReason,
};
use brain_metadata::types::{
    AuditId, EntityId, EntityTypeId, ExtractorId, PredicateId, RowScope, StatementId, StatementKind, F32,
};
use brain_metadata::vocabulary::predicate_intern;
use redb::Database;

const T0: u64 = 1_700_000_000_000_000_000;

fn f(x: f32) -> F32 {
    F32 { bits: x.to_bits() }
}

fn test_scope() -> RowScope {
    RowScope::from_bytes(0, [0xAB; 16])
}

fn at(now: u64) -> WriteContext {
    WriteContext {
        now_unix_nanos: now,
        fresh_audit_id: AuditId([0xA0; 16]),
        aggregated_now: f(0.0),
        aggregated_at_extraction: f(0.0),
    }
}

fn open_db() -> (tempfile::TempDir, MetadataDb) {
    let dir = tempfile::tempdir().unwrap();
    let db = MetadataDb::attach(Database::create(dir.path().join("md.redb")).unwrap()).unwrap();
    (dir, db)
}

fn make_entity(db: &mut MetadataDb, name: &str) -> EntityId {
    let mut b = [0u8; 16];
    b[..name.len()].copy_from_slice(name.as_bytes());
    let id = EntityId(b);
    let e = Entity::new_active(id, EntityTypeId(1), name.to_string(), name.to_lowercase(), T0);
    let mut wtxn = db.write_txn().unwrap();
    save(&mut wtxn, Table::Entities, &b, &EntityMetadata::from_entity(&e, test_scope())).unwrap();
    db.commit(wtxn).unwrap();
    id
}

fn intern(db: &mut MetadataDb, name: &str, kind: StatementKind, is_stateful: bool) -> PredicateId {
    let mut wtxn = db.write_txn().unwrap();
    let id = predicate_intern(&mut wtxn, "test", name, Some(kind), 2, 1, "", is_stateful, T0).unwrap();
    db.commit(wtxn).unwrap();
    id
}

fn intern_pref(db: &mut MetadataDb, name: &str, is_stateful: bool) -> PredicateId {
    intern(db, name, StatementKind::Preference, is_stateful)
}

fn intern_fact(db: &mut MetadataDb, name: &str, is_stateful: bool) -> PredicateId {
    intern(db, name, StatementKind::Fact, is_stateful)
}

fn statement(n: u8, kind: StatementKind, subject: EntityId, predicate: PredicateId, value: &str) -> Statement {
    Statement::new_root(
        StatementId([n; 16]),
        kind,
        SubjectRef::Entity(subject),
        predicate,
        StatementObject::Value(StatementValue::Text(value.to_string())),
        f(0.9),
        EvidenceRef::inline(&[]),
        ExtractorId(0),
        T0,
        1,
    )
}

fn fresh_pref(n: u8, subject: EntityId, predicate: PredicateId, value: &str) -> Statement {
    let mut s = statement(n, StatementKind::Preference, subject, predicate, value);
    s.is_stateful = true;
    s
}

fn fresh_fact_value(n: u8, subject: EntityId, predicate: PredicateId, value: &str, is_stateful: bool) -> Statement {
    let mut s = statement(n, StatementKind::Fact, subject, predicate, value);
    s.is_stateful = is_stateful;
    s
}

fn create(db: &mut MetadataDb, s: &Statement, now: u64) {
    let mut wtxn = db.write_txn().unwrap();
    statement_create(&mut wtxn, test_scope(), s, &at(now)).unwrap();
    db.commit(wtxn).unwrap();
}

fn create_with(db: &mut MetadataDb, s: &Statement, decision: SupersedeDecision, now: u64) {
    let mut wtxn = db.write_txn().unwrap();
    statement_create_with_decision(&mut wtxn, test_scope(), s, decision, &at(now)).unwrap();
    db.commit(wtxn).unwrap();
}

fn got(db: &MetadataDb, id: StatementId) -> Statement {
    let rtxn = db.read_txn().unwrap();
    statement_get(&rtxn, id).unwrap().unwrap()
}

fn near(s: &Statement, score: f32) -> StatementSimilarityCandidate {
    StatementSimilarityCandidate { statement_id: s.id, statement: s.clone(), score: f(score) }
}

/// A judge that always says the same, and counts how often it is asked.
struct CountingJudge {
    verdict: JudgeVerdict,
    calls: usize,
}

/// Walks through the steps of a decision.
fn decide(
    db: &MetadataDb,
    new: &Statement,
    has_vector: bool,
    candidates: &Vec<StatementSimilarityCandidate>,
    judge: Option<&mut CountingJudge>,
) -> SupersedeDecision {
    let rtxn = db.read_txn().unwrap();
    let mut decider = TieredSupersedeDecider::new();
    if judge.is_some() {
        decider = decider.with_judge();
    }
    let mut step = decider.start(&rtxn, test_scope(), new, has_vector).unwrap();
    if step == DecideStep::NeedNeighbours(10) {
        step = decider.with_neighbours(new, candidates);
    }
    match step {
        DecideStep::Done(decision) => decision,
        DecideStep::NeedVerdict(i) => {
            let judge = judge.expect("no judge to ask");
            judge.calls += 1;
            decider.with_verdict(&candidates[i], &Ok(judge.verdict))
        }
        DecideStep::NeedNeighbours(_) => unreachable!(),
    }
}

// A current statement of the same subject and predicate.

#[test]
fn tier0_exact_subject_predicate_stateful_supersedes() {
    let (_dir, mut db) = open_db();
    let subj = make_entity(&mut db, "priya");
    let pred = intern_pref(&mut db, "prefers", true);
    let p1 = fresh_pref(1, subj, pred, "async");
    create(&mut db, &p1, 0);
    let p2 = fresh_pref(2, subj, pred, "written");
    assert_eq!(decide(&db, &p2, false, &vec![], None), SupersedeDecision::Supersede(p1.id));
}

#[test]
fn tier0_exact_subject_predicate_idempotent_contradicts() {
    let (_dir, mut db) = open_db();
    let subj = make_entity(&mut db, "priya");
    let pred = intern_fact(&mut db, "knows", false);
    let p1 = fresh_fact_value(1, subj, pred, "alice", false);
    create(&mut db, &p1, 0);
    let p2 = fresh_fact_value(2, subj, pred, "bob", false);
    assert_eq!(decide(&db, &p2, false, &vec![], None), SupersedeDecision::Contradicts(p1.id));
}

/// A statement that is tombstoned, so that only its vector is left to be found.
fn tier2_fixture(db: &mut MetadataDb, subj_name: &str, pred_name: &str) -> (EntityId, PredicateId, Statement) {
    let subj = make_entity(db, subj_name);
    let pred = intern_pref(db, pred_name, true);
    let p1 = fresh_pref(1, subj, pred, "async");
    create(db, &p1, 0);
    let mut wtxn = db.write_txn().unwrap();
    statement_tombstone(&mut wtxn, p1.id, TombstoneReason::UserRequest, 1).unwrap();
    db.commit(wtxn).unwrap();
    (subj, pred, p1)
}

// Neighbours.

#[test]
fn tier1_high_cosine_supersedes() {
    let (_dir, mut db) = open_db();
    let (subj, pred, p1) = tier2_fixture(&mut db, "priya", "p1");
    let p2 = fresh_pref(2, subj, pred, "asynchronous");
    assert_eq!(decide(&db, &p2, true, &vec![near(&p1, 0.95)], None), SupersedeDecision::Supersede(p1.id));
}

#[test]
fn tier2_medium_cosine_calls_judge() {
    let (_dir, mut db) = open_db();
    let (subj, pred, p1) = tier2_fixture(&mut db, "priya2", "p3");
    let p2 = fresh_pref(2, subj, pred, "remote");
    let mut judge = CountingJudge { verdict: JudgeVerdict::Supersedes, calls: 0 };
    let decision = decide(&db, &p2, true, &vec![near(&p1, 0.85)], Some(&mut judge));
    assert_eq!(decision, SupersedeDecision::Supersede(p1.id));
    assert_eq!(judge.calls, 1);
}

#[test]
fn tier2_judge_contradicts_returns_contradicts() {
    let (_dir, mut db) = open_db();
    let (subj, pred, p1) = tier2_fixture(&mut db, "priya3", "p5");
    let p2 = fresh_pref(2, subj, pred, "remote");
    let mut judge = CountingJudge { verdict: JudgeVerdict::Contradicts, calls: 0 };
    let decision = decide(&db, &p2, true, &vec![near(&p1, 0.85)], Some(&mut judge));
    assert_eq!(decision, SupersedeDecision::Contradicts(p1.id));
}

#[test]
fn tier2_judge_coexists_returns_coexist() {
    let (_dir, mut db) = open_db();
    let (subj, pred, p1) = tier2_fixture(&mut db, "priya4", "p7");
    let p2 = fresh_pref(2, subj, pred, "remote");
    let mut judge = CountingJudge { verdict: JudgeVerdict::Coexists, calls: 0 };
    let decision = decide(&db, &p2, true, &vec![near(&p1, 0.85)], Some(&mut judge));
    assert_eq!(decision, SupersedeDecision::Coexist);
}

#[test]
fn tier3_low_cosine_coexists() {
    let (_dir, mut db) = open_db();
    let (subj, pred, p1) = tier2_fixture(&mut db, "priya5", "p9");
    let p2 = fresh_pref(2, subj, pred, "totally unrelated");
    assert_eq!(decide(&db, &p2, true, &vec![near(&p1, 0.4)], None), SupersedeDecision::Coexist);
}

#[test]
fn no_judge_wired_falls_back_to_coexist() {
    let (_dir, mut db) = open_db();
    let (subj, pred, p1) = tier2_fixture(&mut db, "priya6", "p11");
    let p2 = fresh_pref(2, subj, pred, "remote");
    assert_eq!(decide(&db, &p2, true, &vec![near(&p1, 0.85)], None), SupersedeDecision::Coexist);
}

#[test]
fn a_judge_that_fails_decides_nothing() {
    let (_dir, mut db) = open_db();
    let (_, _, p1) = tier2_fixture(&mut db, "priya7", "p12");
    let decider = TieredSupersedeDecider::new().with_judge();
    for e in [
        JudgeError::Transport("down".to_string()),
        JudgeError::Parse("?".to_string()),
        JudgeError::Budget("spent".to_string()),
    ] {
        assert_eq!(decider.with_verdict(&near(&p1, 0.85), &Err(e)), SupersedeDecision::Coexist);
    }
}

#[test]
fn other_cut_points_move_the_tiers() {
    let (_dir, mut db) = open_db();
    let (subj, pred, p1) = tier2_fixture(&mut db, "priya8", "p12");
    let p2 = fresh_pref(2, subj, pred, "remote");
    let cuts = TieredThresholds { auto_supersede: f(0.5), judge_lower: f(0.2), judge_upper: f(0.5) };
    assert!(cuts.is_valid());
    let decider = TieredSupersedeDecider::new().with_judge().with_thresholds(cuts);
    let step = decider.with_neighbours(&p2, &vec![near(&p1, 0.6)]);
    assert_eq!(step, DecideStep::Done(SupersedeDecision::Supersede(p1.id)));
    assert_eq!(decider.with_neighbours(&p2, &vec![near(&p1, 0.3)]), DecideStep::NeedVerdict(0));
    let step = decider.with_neighbours(&p2, &vec![near(&p1, 0.1)]);
    assert_eq!(step, DecideStep::Done(SupersedeDecision::Coexist));
    assert!(TieredThresholds::default().is_valid());
    let bad = TieredThresholds { auto_supersede: f(0.1), judge_lower: f(0.2), judge_upper: f(0.5) };
    assert!(!bad.is_valid());
}

#[test]
fn empty_vector_short_circuits_after_tier0() {
    let (_dir, mut db) = open_db();
    let subj = make_entity(&mut db, "priya");
    let pred = intern_pref(&mut db, "p13", true);
    let p1 = fresh_pref(1, subj, pred, "async");
    create(&mut db, &p1, 0);
    let p2 = fresh_pref(2, subj, pred, "remote");
    assert_eq!(decide(&db, &p2, false, &vec![], None), SupersedeDecision::Supersede(p1.id));
    // Without a vector and without a current statement it stands alone.
    let other = make_entity(&mut db, "raj");
    let p3 = fresh_pref(3, other, pred, "remote");
    assert_eq!(decide(&db, &p3, false, &vec![near(&p1, 0.99)], None), SupersedeDecision::Coexist);
}

#[test]
fn kind_mismatch_candidate_drops_to_coexist() {
    let (_dir, mut db) = open_db();
    let subj = make_entity(&mut db, "priya");
    let pref_pred = intern_pref(&mut db, "p14", true);
    let fact_pred = intern_fact(&mut db, "f14", true);
    let f1 = fresh_fact_value(1, subj, fact_pred, "alice", true);
    create(&mut db, &f1, 0);
    let p2 = fresh_pref(2, subj, pref_pred, "async");
    assert_eq!(decide(&db, &p2, true, &vec![near(&f1, 0.99)], None), SupersedeDecision::Coexist);
}

// Carrying a decision out.

#[test]
fn statement_create_with_decision_supersede_flips_chain() {
    let (_dir, mut db) = open_db();
    let subj = make_entity(&mut db, "priya");
    let pred = intern_pref(&mut db, "p15", true);
    let p1 = fresh_pref(1, subj, pred, "async");
    create(&mut db, &p1, 0);
    let p2 = fresh_pref(2, subj, pred, "remote");
    create_with(&mut db, &p2, SupersedeDecision::Supersede(p1.id), 1_700_000_000_000_000_001);
    assert_eq!(got(&db, p1.id).superseded_by, Some(p2.id));
    assert_eq!(got(&db, p2.id).supersedes, Some(p1.id));
}

#[test]
fn supersession_stamps_record_invalidated_at_on_old_version() {
    let (_dir, mut db) = open_db();
    let subj = make_entity(&mut db, "priya-bitemp");
    let pred = intern_pref(&mut db, "bitemp_pref", true);
    let p1 = fresh_pref(1, subj, pred, "async");
    create(&mut db, &p1, 1_700_000_000_000_000_000);
    let supersede_now: u64 = 1_700_000_000_000_000_500;
    let p2 = fresh_pref(2, subj, pred, "remote");
    create_with(&mut db, &p2, SupersedeDecision::Supersede(p1.id), supersede_now);
    assert_eq!(got(&db, p1.id).record_invalidated_at_unix_nanos, Some(supersede_now));
    assert_eq!(got(&db, p2.id).record_invalidated_at_unix_nanos, None);
}

#[test]
fn statement_create_with_decision_coexist_inserts_only() {
    let (_dir, mut db) = open_db();
    let subj = make_entity(&mut db, "priya");
    let pred = intern_pref(&mut db, "p17", false);
    let p1 = fresh_pref(1, subj, pred, "async");
    create(&mut db, &p1, 0);
    let pred2 = intern_pref(&mut db, "p17b", false);
    let mut p2 = fresh_pref(2, subj, pred2, "remote");
    p2.is_stateful = false;
    create_with(&mut db, &p2, SupersedeDecision::Coexist, 0);
    assert!(got(&db, p1.id).superseded_by.is_none());
    assert!(got(&db, p2.id).supersedes.is_none());
}

// Many decisions.

#[test]
fn llm_call_rate_under_threshold() {
    // 60 settled by a current statement, 25 very near, 15 asked, 100 far.
    let (_dir, mut db) = open_db();
    let (subj_tomb, pred_tomb, seed_tomb) = tier2_fixture(&mut db, "rate_tomb", "rate_p");
    let subj_t0 = make_entity(&mut db, "rate_t0");
    let pred_t0 = intern_fact(&mut db, "rate_t0_p", false);
    create(&mut db, &fresh_fact_value(2, subj_t0, pred_t0, "alice", false), 0);

    let mut judge = CountingJudge { verdict: JudgeVerdict::Coexists, calls: 0 };
    for _ in 0..60 {
        let probe = fresh_fact_value(3, subj_t0, pred_t0, "bob", false);
        let _ = decide(&db, &probe, true, &vec![], Some(&mut judge));
    }
    for (n, value, score) in [(25, "async-near", 0.95), (15, "ambig", 0.85), (100, "far", 0.4)] {
        for _ in 0..n {
            let probe = fresh_pref(3, subj_tomb, pred_tomb, value);
            let _ = decide(&db, &probe, true, &vec![near(&seed_tomb, score)], Some(&mut judge));
        }
    }
    let rate = judge.calls as f32 / 200.0;
    assert!(rate <= 0.15, "judge call rate {} (={}/200) exceeded 0.15", rate, judge.calls);
}

#[test]
fn golden_file_agreement_at_least_ninety_three_percent() {
    let (_dir, mut db) = open_db();
    let subj_st = make_entity(&mut db, "g_subj_st");
    let pred_st = intern_pref(&mut db, "g_pred_st", true);
    let seed_st = fresh_pref(10, subj_st, pred_st, "v1");
    create(&mut db, &seed_st, 0);
    let subj_id = make_entity(&mut db, "g_subj_id");
    let pred_id = intern_fact(&mut db, "g_pred_id", false);
    let seed_id = fresh_fact_value(11, subj_id, pred_id, "alice", false);
    create(&mut db, &seed_id, 0);
    let (subj_tomb, pred_tomb, seed_tomb) = tier2_fixture(&mut db, "g_subj_tomb", "g_pred_tomb");

    let mut supersedes = CountingJudge { verdict: JudgeVerdict::Supersedes, calls: 0 };
    let mut contradicts = CountingJudge { verdict: JudgeVerdict::Contradicts, calls: 0 };
    let mut agree = 0usize;
    let mut total = 0usize;
    let mut count = |want: SupersedeDecision, got: SupersedeDecision| {
        total += 1;
        if want == got {
            agree += 1;
        }
    };

    for _ in 0..60 {
        let p = fresh_pref(20, subj_st, pred_st, "v-next");
        count(SupersedeDecision::Supersede(seed_st.id), decide(&db, &p, true, &vec![], None));
    }
    for _ in 0..30 {
        let p = fresh_fact_value(20, subj_id, pred_id, "bob", false);
        count(SupersedeDecision::Contradicts(seed_id.id), decide(&db, &p, true, &vec![], None));
    }
    for _ in 0..25 {
        let p = fresh_pref(20, subj_tomb, pred_tomb, "near");
        let got = decide(&db, &p, true, &vec![near(&seed_tomb, 0.95)], None);
        count(SupersedeDecision::Supersede(seed_tomb.id), got);
    }
    for _ in 0..15 {
        let p = fresh_pref(20, subj_tomb, pred_tomb, "ambig-supersedes");
        let got = decide(&db, &p, true, &vec![near(&seed_tomb, 0.85)], Some(&mut supersedes));
        count(SupersedeDecision::Supersede(seed_tomb.id), got);
    }
    for _ in 0..10 {
        let p = fresh_pref(20, subj_tomb, pred_tomb, "ambig-contradicts");
        let got = decide(&db, &p, true, &vec![near(&seed_tomb, 0.85)], Some(&mut contradicts));
        count(SupersedeDecision::Contradicts(seed_tomb.id), got);
    }
    for _ in 0..60 {
        let p = fresh_pref(20, subj_tomb, pred_tomb, "far");
        let got = decide(&db, &p, true, &vec![near(&seed_tomb, 0.4)], None);
        count(SupersedeDecision::Coexist, got);
    }

    let rate = agree as f32 / total as f32;
    assert!(rate >= 0.93, "agreement {} ({}/{}) fell below 0.93", rate, agree, total);
    assert_eq!(total, 200);
}
