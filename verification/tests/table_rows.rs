//! Rows of the smaller tables: what is stored is read back.

use brain_metadata::catalog::{materialize_all_tables, Table};
use brain_metadata::definitions::make_number_key;
use brain_metadata::row::{from_bytes, load, load_at, load_if_any, save, to_bytes, LoadError, Row};
use brain_metadata::store::{
    begin_change, begin_snapshot, commit_change, count, count_if_any, del, get, put, read, read_if_any, read_prefix,
    read_prefix_if_any, require_table,
};
use brain_metadata::tables::agent::AgentMetadata;
use brain_metadata::tables::api_keys::{permissions, ApiKeyRow};
use brain_metadata::tables::audit::{
    extraction_status, output_kind, resolution_outcome, ExtractionAudit, OutputRef, ResolutionAudit,
};
use brain_metadata::tables::checkpoint::{latest, make_checkpoint_key, CheckpointMeta};
use brain_metadata::tables::entity_type::EntityTypeDefinition;
use brain_metadata::tables::extractor::{ExtractorDefinition, ExtractorKind};
use brain_metadata::tables::merge::{
    actor_kind, conflict_outcome, conflict_policy, make_merge_key, make_overflow_key, AttributeConflictRecord,
    MergeAuditOverflow, MergeRecord,
};
use brain_metadata::tables::merge_review_queue::{
    make_status_key, proposal_status, proposal_tier, MergeReviewProposal,
};
use brain_metadata::tables::model_fingerprint::ModelInfo;
use brain_metadata::tables::namespace::NamespaceDefinition;
use brain_metadata::tables::schema_version::{SchemaVersionRow, VALIDATOR_VERSION};
use brain_metadata::types::{
    AgentId, AuditId, EntityId, EntityTypeId, ExtractorId, MemoryId, MergeId, NamespaceId, F32,
};
use redb::{Database, ReadableDatabase, TableDefinition};

const T0: u64 = 1_700_000_000_000_000_000;

fn plain_db(dir: &tempfile::TempDir) -> Database {
    Database::create(dir.path().join("test.redb")).expect("create redb")
}

fn fresh_db(dir: &tempfile::TempDir) -> Database {
    let mut db = plain_db(dir);
    let mut wtxn = begin_change(&db).expect("begin");
    materialize_all_tables(&mut wtxn).expect("materialize");
    commit_change(&mut db, wtxn).expect("commit");
    db
}

fn f(x: f32) -> F32 {
    F32 { bits: x.to_bits() }
}

fn put_row<R: Row>(db: &mut Database, t: Table, key: &[u8], row: &R) {
    let mut wtxn = begin_change(db).unwrap();
    save(&mut wtxn, t, key, row).unwrap();
    commit_change(db, wtxn).unwrap();
}

fn row_at<R: Row>(db: &Database, t: Table, key: &[u8]) -> Option<R> {
    let rtxn = begin_snapshot(db).unwrap();
    load_at(&rtxn, t, key).unwrap()
}

fn aid(byte: u8) -> AgentId {
    let mut b = [0u8; 16];
    b[15] = byte;
    AgentId(b)
}

// Agents.

#[test]
fn agent_insert_and_get_round_trips() {
    let dir = tempfile::tempdir().unwrap();
    let mut db = plain_db(&dir);
    let m = AgentMetadata::new(aid(7), Some("agent-07".to_string()), T0);
    let key = m.agent_id_bytes;
    put_row(&mut db, Table::Agents, &key, &m);
    let got: AgentMetadata = row_at(&db, Table::Agents, &key).unwrap();
    assert_eq!(got, m);
}

#[test]
fn agent_brain_core_type_round_trip() {
    let dir = tempfile::tempdir().unwrap();
    let mut db = plain_db(&dir);
    let agent = aid(0x42);
    let m = AgentMetadata::new(agent, None, T0);
    let key = m.agent_id_bytes;
    put_row(&mut db, Table::Agents, &key, &m);
    let got: AgentMetadata = row_at(&db, Table::Agents, &key).unwrap();
    assert_eq!(got.agent_id(), agent);
    assert_eq!(got.display_name, None);
}

// Keys of callers.

fn key_row(byte: u8) -> ApiKeyRow {
    let mut hash = [0u8; 32];
    hash[31] = byte;
    let mut org = [0u8; 16];
    org[15] = byte;
    let mut user = [0u8; 16];
    user[14] = byte;
    let mut agent = [0u8; 16];
    agent[13] = byte;
    ApiKeyRow::new(hash, org, user, "acme".into(), agent, permissions::STANDARD_AGENT, T0)
}

#[test]
fn api_keys_round_trip() {
    let dir = tempfile::tempdir().unwrap();
    let mut db = fresh_db(&dir);
    let row = key_row(7);
    put_row(&mut db, Table::ApiKeys, &row.key_hash, &row);
    let got: ApiKeyRow = row_at(&db, Table::ApiKeys, &row.key_hash).unwrap();
    assert_eq!(got, row);
}

#[test]
fn allows_checks_bitfield() {
    let mut row = key_row(1);
    row.permissions = permissions::ENCODE | permissions::RECALL;
    assert!(row.allows(permissions::ENCODE));
    assert!(row.allows(permissions::RECALL));
    assert!(!row.allows(permissions::FORGET));
    assert!(!row.allows(permissions::ADMIN));
    // Compound: must have all requested bits.
    assert!(row.allows(permissions::ENCODE | permissions::RECALL));
    assert!(!row.allows(permissions::ENCODE | permissions::ADMIN));
}

#[test]
fn no_operation_is_always_allowed() {
    let mut row = key_row(1);
    row.permissions = 0;
    assert!(row.allows(0));
    assert!(!row.allows(permissions::ENCODE));
    row.permissions = permissions::FULL;
    assert!(row.allows(permissions::STANDARD_AGENT));
    assert!(row.allows(permissions::READ_WRITE));
    assert_eq!(permissions::FULL, 63);
    assert_eq!(permissions::STANDARD_AGENT, 15);
}

// Audits.

#[test]
fn extraction_round_trip() {
    let dir = tempfile::tempdir().unwrap();
    let mut db = fresh_db(&dir);
    let id = AuditId([0x51; 16]);
    let memory = MemoryId::pack(1, 42, 1);
    let row = ExtractionAudit::success(
        id,
        memory,
        7,
        1,
        3,
        1_700_000_000_000_000_000,
        1_700_000_000_000_000_500,
        vec![OutputRef { kind: output_kind::ENTITY, id: [9u8; 16] }],
        [0x42u8; 32],
    );
    let key = row.audit_id_bytes;
    put_row(&mut db, Table::ExtractorAudit, &key, &row);
    let got: ExtractionAudit = row_at(&db, Table::ExtractorAudit, &key).unwrap();
    assert_eq!(got, row);
    assert_eq!(got.audit_id(), id);
    assert_eq!(got.memory_id(), memory);
    assert!(got.is_success());
    assert_eq!(got.outputs.len(), 1);
    assert_eq!(got.outputs[0].kind, output_kind::ENTITY);
}

#[test]
fn extraction_non_success_round_trip() {
    let dir = tempfile::tempdir().unwrap();
    let mut db = fresh_db(&dir);
    let row = ExtractionAudit::non_success(
        AuditId([0x52; 16]),
        MemoryId::pack(1, 42, 1),
        7,
        1,
        3,
        1_700_000_000_000_000_000,
        1_700_000_000_000_000_500,
        extraction_status::FAILURE,
        "inference oom".into(),
        [0u8; 32],
    );
    let key = row.audit_id_bytes;
    put_row(&mut db, Table::ExtractorAudit, &key, &row);
    let got: ExtractionAudit = row_at(&db, Table::ExtractorAudit, &key).unwrap();
    assert!(got.is_failure());
    assert!(!got.is_success());
    assert_eq!(got.status_reason, "inference oom");
    assert!(got.outputs.is_empty());
}

#[test]
fn outputs_of_an_audit_are_capped() {
    let out = OutputRef { kind: output_kind::RELATION, id: [3u8; 16] };
    let row = ExtractionAudit::success(
        AuditId([1; 16]),
        MemoryId::pack(1, 42, 1),
        7,
        1,
        3,
        T0,
        T0 + 1,
        vec![out; 70],
        [0u8; 32],
    );
    assert_eq!(row.outputs.len(), brain_metadata::tables::audit::OUTPUTS_CAP);
}

#[test]
fn discriminant_bytes_are_stable() {
    // These bytes are part of the on-disk format. Never renumber.
    assert_eq!(extraction_status::SUCCESS, 1);
    assert_eq!(extraction_status::FAILURE, 2);
    assert_eq!(extraction_status::SKIPPED_BUDGET, 3);
    assert_eq!(extraction_status::SKIPPED_FILTER, 4);
    assert_eq!(extraction_status::SKIPPED_DUPLICATE, 5);
    assert_eq!(extraction_status::SKIPPED_DISABLED, 6);

    assert_eq!(output_kind::ENTITY, 1);
    assert_eq!(output_kind::STATEMENT, 2);
    assert_eq!(output_kind::RELATION, 3);
    assert_eq!(output_kind::ENTITY_MENTION, 4);
}

#[test]
fn resolution_round_trip() {
    let dir = tempfile::tempdir().unwrap();
    let mut db = fresh_db(&dir);
    let mut row = ResolutionAudit::new(
        AuditId([0x53; 16]),
        "Priya".into(),
        1,
        resolution_outcome::TIER_2_FUZZY,
        f(0.81),
        1_700_000_000_000_000_000,
    );
    let resolved = EntityId([0x54; 16]);
    row.resolved_entity_bytes = Some(resolved.to_bytes());
    let key = row.audit_id_bytes;
    put_row(&mut db, Table::EntityResolutionAudit, &key, &row);
    let got: ResolutionAudit = row_at(&db, Table::EntityResolutionAudit, &key).unwrap();
    assert_eq!(got, row);
    assert_eq!(got.resolved_entity(), Some(resolved));
}

// Checkpoints.

fn checkpoint(id: u64) -> CheckpointMeta {
    CheckpointMeta::new(
        id,
        id * 1000,   // durable_lsn
        1024 * 1024, // arena_capacity
        1,           // metadata_version
        1_700_000_000_000_000_000 + id * 1_000_000,
        1_700_000_000_000_000_000 + id * 1_000_000 + 12_000,
    )
}

fn put_checkpoint(db: &mut Database, m: &CheckpointMeta) {
    put_row(db, Table::Checkpoints, &make_checkpoint_key(m.checkpoint_id), m);
}

fn checkpoint_at(db: &Database, id: u64) -> Option<CheckpointMeta> {
    row_at(db, Table::Checkpoints, &make_checkpoint_key(id))
}

#[test]
fn checkpoint_insert_and_get_round_trips() {
    let dir = tempfile::tempdir().unwrap();
    let mut db = plain_db(&dir);
    let m = checkpoint(1);
    put_checkpoint(&mut db, &m);
    assert_eq!(checkpoint_at(&db, 1).unwrap(), m);
}

#[test]
fn all_fields_round_trip() {
    let dir = tempfile::tempdir().unwrap();
    let mut db = plain_db(&dir);
    let m = CheckpointMeta::new(
        7,
        12_345_678,
        64 * 1024 * 1024,
        42,
        1_700_000_000_000_000_000,
        1_700_000_000_001_500_000,
    );
    put_checkpoint(&mut db, &m);
    let got = checkpoint_at(&db, 7).unwrap();
    // Each field on its own, so that a reordering is seen at once.
    assert_eq!(got.checkpoint_id, 7);
    assert_eq!(got.durable_lsn, 12_345_678);
    assert_eq!(got.arena_capacity_at_checkpoint, 64 * 1024 * 1024);
    assert_eq!(got.metadata_version_at_checkpoint, 42);
    assert_eq!(got.started_at_unix_nanos, 1_700_000_000_000_000_000);
    assert_eq!(got.completed_at_unix_nanos, 1_700_000_000_001_500_000);
}

#[test]
fn checkpoint_update_overwrites() {
    let dir = tempfile::tempdir().unwrap();
    let mut db = plain_db(&dir);
    put_checkpoint(&mut db, &checkpoint(5));
    let mut updated = checkpoint(5);
    updated.durable_lsn = 999_999;
    put_checkpoint(&mut db, &updated);
    assert_eq!(checkpoint_at(&db, 5).unwrap().durable_lsn, 999_999);
}

#[test]
fn checkpoint_missing_key_returns_none() {
    let dir = tempfile::tempdir().unwrap();
    let db = fresh_db(&dir);
    assert!(checkpoint_at(&db, u64::MAX).is_none());
}

#[test]
fn multiple_checkpoints_coexist() {
    let dir = tempfile::tempdir().unwrap();
    let mut db = plain_db(&dir);
    put_checkpoint(&mut db, &checkpoint(1));
    put_checkpoint(&mut db, &checkpoint(2));
    put_checkpoint(&mut db, &checkpoint(3));
    assert_eq!(checkpoint_at(&db, 1).unwrap(), checkpoint(1));
    assert_eq!(checkpoint_at(&db, 2).unwrap(), checkpoint(2));
    assert_eq!(checkpoint_at(&db, 3).unwrap(), checkpoint(3));
}

#[test]
fn latest_returns_max_id() {
    let dir = tempfile::tempdir().unwrap();
    let mut db = plain_db(&dir);
    put_checkpoint(&mut db, &checkpoint(2));
    put_checkpoint(&mut db, &checkpoint(10));
    put_checkpoint(&mut db, &checkpoint(5));
    let rtxn = begin_snapshot(&db).unwrap();
    let got = latest(&rtxn).unwrap().expect("latest should return some row");
    assert_eq!(got.checkpoint_id, 10);
    assert_eq!(got, checkpoint(10));
}

#[test]
fn latest_returns_none_on_empty() {
    let dir = tempfile::tempdir().unwrap();
    let db = fresh_db(&dir);
    let rtxn = begin_snapshot(&db).unwrap();
    assert!(latest(&rtxn).unwrap().is_none());
}

#[test]
fn latest_after_update() {
    let dir = tempfile::tempdir().unwrap();
    let mut db = plain_db(&dir);
    let id = 5u64;
    put_checkpoint(&mut db, &checkpoint(id));
    let mut updated = checkpoint(id);
    updated.durable_lsn = 7_777_777;
    put_checkpoint(&mut db, &updated);
    let rtxn = begin_snapshot(&db).unwrap();
    let got = latest(&rtxn).unwrap().unwrap();
    assert_eq!(got.checkpoint_id, id);
    assert_eq!(got.durable_lsn, 7_777_777);
}

// Definitions.

#[test]
fn entity_type_round_trip() {
    let dir = tempfile::tempdir().unwrap();
    let mut db = fresh_db(&dir);
    let et = EntityTypeDefinition::new(EntityTypeId(7), "Person".into(), vec![1, 2, 3, 4], T0);
    let key = make_number_key(et.entity_type_id);
    put_row(&mut db, Table::EntityTypes, &key, &et);
    let got: EntityTypeDefinition = row_at(&db, Table::EntityTypes, &key).unwrap();
    assert_eq!(got, et);
    assert_eq!(got.id(), EntityTypeId(7));
}

#[test]
fn extractor_round_trip() {
    let dir = tempfile::tempdir().unwrap();
    let mut db = fresh_db(&dir);
    let ex = ExtractorDefinition::new(
        ExtractorId(11),
        "acme".into(),
        "person_mentions".into(),
        ExtractorKind::Pattern,
        true,
        1,
        vec![1, 2, 3, 4],
        T0,
    );
    let key = make_number_key(ex.extractor_id);
    let mut wtxn = begin_change(&db).unwrap();
    save(&mut wtxn, Table::Extractors, &key, &ex).unwrap();
    put(&mut wtxn, Table::ExtractorsByQname, ex.qname().as_bytes(), &key).unwrap();
    commit_change(&mut db, wtxn).unwrap();

    let got: ExtractorDefinition = row_at(&db, Table::Extractors, &key).unwrap();
    assert_eq!(got, ex);
    assert_eq!(got.kind(), Some(ExtractorKind::Pattern));
    assert!(got.is_enabled());
    assert_eq!(got.qname(), "acme:person_mentions");

    let rtxn = begin_snapshot(&db).unwrap();
    let id_from_idx = read(&rtxn, Table::ExtractorsByQname, b"acme:person_mentions").unwrap().unwrap();
    assert_eq!(id_from_idx, key);
}

#[test]
fn namespace_round_trip() {
    let dir = tempfile::tempdir().unwrap();
    let mut db = fresh_db(&dir);
    let ns = NamespaceDefinition::new(NamespaceId(1), "acme".into(), 1_700_000_000);
    let key = make_number_key(ns.namespace_id);
    let mut wtxn = begin_change(&db).unwrap();
    save(&mut wtxn, Table::Namespaces, &key, &ns).unwrap();
    put(&mut wtxn, Table::NamespaceByName, ns.name.as_bytes(), &key).unwrap();
    commit_change(&mut db, wtxn).unwrap();
    let got: NamespaceDefinition = row_at(&db, Table::Namespaces, &key).unwrap();
    assert_eq!(got, ns);
    assert_eq!(got.id(), NamespaceId(1));
}

#[test]
fn schema_version_round_trip() {
    let dir = tempfile::tempdir().unwrap();
    let mut db = fresh_db(&dir);
    let row = SchemaVersionRow {
        namespace: "acme".to_string(),
        version: 1,
        uploaded_at_unix_nanos: 1_700_000_000_000_000_000,
        source: b"{\"namespace\":\"acme\",\"items\":[]}".to_vec(),
        source_text: Some("namespace acme\n".to_string()),
        validator_version: VALIDATOR_VERSION,
    };
    let mut wtxn = begin_change(&db).unwrap();
    save(&mut wtxn, Table::SchemaVersions, b"acme/1", &row).unwrap();
    put(&mut wtxn, Table::SchemaActiveVersions, b"acme", &make_number_key(row.version)).unwrap();
    commit_change(&mut db, wtxn).unwrap();
    let got: SchemaVersionRow = row_at(&db, Table::SchemaVersions, b"acme/1").unwrap();
    assert_eq!(got, row);
    let rtxn = begin_snapshot(&db).unwrap();
    let v = brain_metadata::schema_store::schema_active(&rtxn, "acme").unwrap();
    assert_eq!(v, Some(1));
}

// Models.

fn fp(byte: u8) -> [u8; 16] {
    let mut b = [0u8; 16];
    b[0] = 0xFE;
    b[15] = byte;
    b
}

#[test]
fn model_fingerprint_insert_and_get_round_trips() {
    let dir = tempfile::tempdir().unwrap();
    let mut db = plain_db(&dir);
    let key = fp(1);
    let info = ModelInfo::new("bge-small-en-v1.5".to_string(), T0);
    put_row(&mut db, Table::ModelFingerprints, &key, &info);
    let got: ModelInfo = row_at(&db, Table::ModelFingerprints, &key).unwrap();
    assert_eq!(got, info);
    assert_eq!(got.model_name, "bge-small-en-v1.5");
    assert_eq!(got.memory_count_at_fingerprint, 0);
}

#[test]
fn model_info_with_long_name_round_trips() {
    let dir = tempfile::tempdir().unwrap();
    let mut db = plain_db(&dir);
    let key = fp(2);
    let info = ModelInfo::new(
        "really-quite-long-model-name-with-org-prefix/and-version-suffix-v2.7.1-aligned".to_string(),
        T0,
    );
    put_row(&mut db, Table::ModelFingerprints, &key, &info);
    let got: ModelInfo = row_at(&db, Table::ModelFingerprints, &key).unwrap();
    assert_eq!(got.model_name.len(), info.model_name.len());
    assert_eq!(got, info);
}

#[test]
fn model_fingerprint_update_overwrites() {
    let dir = tempfile::tempdir().unwrap();
    let mut db = plain_db(&dir);
    let key = fp(3);
    put_row(&mut db, Table::ModelFingerprints, &key, &ModelInfo::new("bge-small".to_string(), T0));
    let mut updated = ModelInfo::new("bge-small".to_string(), T0);
    updated.memory_count_at_fingerprint = 42_000;
    put_row(&mut db, Table::ModelFingerprints, &key, &updated);
    let got: ModelInfo = row_at(&db, Table::ModelFingerprints, &key).unwrap();
    assert_eq!(got.memory_count_at_fingerprint, 42_000);
}

#[test]
fn model_fingerprint_missing_key_returns_none() {
    let dir = tempfile::tempdir().unwrap();
    let db = fresh_db(&dir);
    let got: Option<ModelInfo> = row_at(&db, Table::ModelFingerprints, &fp(99));
    assert!(got.is_none());
}

#[test]
fn multiple_fingerprints_coexist() {
    let dir = tempfile::tempdir().unwrap();
    let mut db = plain_db(&dir);
    let info_a = ModelInfo::new("model-a".to_string(), 1_000);
    let info_b = ModelInfo::new("model-b".to_string(), 2_000);
    put_row(&mut db, Table::ModelFingerprints, &fp(10), &info_a);
    put_row(&mut db, Table::ModelFingerprints, &fp(20), &info_b);
    let a: ModelInfo = row_at(&db, Table::ModelFingerprints, &fp(10)).unwrap();
    let b: ModelInfo = row_at(&db, Table::ModelFingerprints, &fp(20)).unwrap();
    assert_eq!(a, info_a);
    assert_eq!(b, info_b);
}

// Merges.

fn merge_record() -> MergeRecord {
    let mut rec = MergeRecord::new(
        MergeId([0x61; 16]),
        EntityId([0x62; 16]),
        EntityId([0x63; 16]),
        1_700_000_000_000_000_000,
        1_700_604_800_000_000_000,
        f(0.92),
        "duplicate detected".to_owned(),
        actor_kind::AGENT,
        [7u8; 16],
    );
    rec.aliases_added = vec!["P. Patel".into(), "Priya P".into()];
    rec.trigrams_added = vec![*b"  p", *b" p ", *b"pat"];
    rec.attribute_conflicts.push(AttributeConflictRecord {
        attribute_key: "email".to_string(),
        survivor_value_blob: b"survivor".to_vec(),
        merged_value_blob: b"merged".to_vec(),
        policy: conflict_policy::SURVIVOR_WINS,
        outcome: conflict_outcome::KEPT_SURVIVOR,
    });
    rec.mention_count_added = 17;
    rec
}

#[test]
fn merge_record_round_trip() {
    let dir = tempfile::tempdir().unwrap();
    let mut db = fresh_db(&dir);
    let rec = merge_record();
    let key = make_merge_key(rec.merged_at_unix_nanos, rec.merge_id_bytes);
    put_row(&mut db, Table::MergeLog, &key, &rec);
    let got: MergeRecord = row_at(&db, Table::MergeLog, &key).unwrap();
    assert_eq!(got, rec);
    assert_eq!(got.survivor(), rec.survivor());
    assert_eq!(got.merged(), rec.merged());
    assert_eq!(got.merge_id(), rec.merge_id());
    assert!(!got.is_finalized());
    assert!(!got.is_unmerged());
    assert_eq!(got.aliases_added.len(), 2);
    assert_eq!(got.attribute_conflicts.len(), 1);
}

#[test]
fn merge_record_unmerge_lifecycle() {
    let dir = tempfile::tempdir().unwrap();
    let mut db = fresh_db(&dir);
    let mut rec = merge_record();
    let key = make_merge_key(rec.merged_at_unix_nanos, rec.merge_id_bytes);
    put_row(&mut db, Table::MergeLog, &key, &rec);

    // Simulate an unmerge.
    rec.unmerged_at_unix_nanos = rec.merged_at_unix_nanos + 60_000_000_000;
    rec.unmerged_by_actor_kind = actor_kind::AGENT;
    rec.unmerged_by_agent_bytes = [9u8; 16];
    rec.finalized = 1;
    put_row(&mut db, Table::MergeLog, &key, &rec);

    let got: MergeRecord = row_at(&db, Table::MergeLog, &key).unwrap();
    assert!(got.is_unmerged());
    assert!(got.is_finalized());
    assert_eq!(got.unmerged_by_actor_kind, actor_kind::AGENT);
    assert_eq!(got.unmerged_by_agent_bytes, [9u8; 16]);
}

#[test]
fn overflow_table_round_trip() {
    let dir = tempfile::tempdir().unwrap();
    let mut db = fresh_db(&dir);
    let payload = MergeAuditOverflow {
        rerouted_statement_ids: vec![[1u8; 16], [2u8; 16]],
        rerouted_relation_ids: vec![[3u8; 16]],
    };
    let key = make_overflow_key([0x64; 16], 0);
    put_row(&mut db, Table::EntityMergeAuditOverflow, &key, &payload);
    let got: MergeAuditOverflow = row_at(&db, Table::EntityMergeAuditOverflow, &key).unwrap();
    assert_eq!(got, payload);
}

#[test]
fn time_ordered_range_scan() {
    let dir = tempfile::tempdir().unwrap();
    let mut db = fresh_db(&dir);

    // Three audits with strictly increasing timestamps; their ids go down.
    let ts_base = 1_700_000_000_000_000_000u64;
    let mut wtxn = begin_change(&db).unwrap();
    for i in [2u64, 0, 1] {
        let rec = MergeRecord::new(
            MergeId([0x70 - i as u8; 16]),
            EntityId([1; 16]),
            EntityId([2; 16]),
            ts_base + i * 1_000_000_000,
            ts_base + i * 1_000_000_000 + 604_800_000_000_000,
            f(0.9),
            format!("audit #{i}"),
            actor_kind::SYSTEM,
            [0; 16],
        );
        let key = make_merge_key(rec.merged_at_unix_nanos, rec.merge_id_bytes);
        save(&mut wtxn, Table::MergeLog, &key, &rec).unwrap();
    }
    commit_change(&mut db, wtxn).unwrap();

    let rtxn = begin_snapshot(&db).unwrap();
    let mut collected: Vec<u64> = Vec::new();
    for (_, value) in read_prefix(&rtxn, Table::MergeLog, b"").unwrap() {
        let rec: MergeRecord = from_bytes(&value).unwrap();
        collected.push(rec.merged_at_unix_nanos);
    }
    assert_eq!(collected, vec![ts_base, ts_base + 1_000_000_000, ts_base + 2_000_000_000]);
}

// Merge proposals.

fn proposal(status: u8) -> MergeReviewProposal {
    let mut p =
        MergeReviewProposal::new_pending([7u8; 16], [1u8; 16], [2u8; 16], f(0.82), proposal_tier::EMBEDDING, T0);
    p.status = status;
    if status != proposal_status::PENDING {
        p.resolved_at_unix_nanos = p.proposed_at_unix_nanos + 60_000_000_000;
    }
    p
}

#[test]
fn round_trip_pending() {
    let dir = tempfile::tempdir().unwrap();
    let mut db = fresh_db(&dir);
    let p = proposal(proposal_status::PENDING);
    let mut wtxn = begin_change(&db).unwrap();
    save(&mut wtxn, Table::MergeReviewQueue, &p.proposal_id, &p).unwrap();
    put(&mut wtxn, Table::MergeReviewByStatus, &make_status_key(p.status, p.proposal_id), &[]).unwrap();
    commit_change(&mut db, wtxn).unwrap();

    let got: MergeReviewProposal = row_at(&db, Table::MergeReviewQueue, &p.proposal_id).unwrap();
    assert_eq!(got, p);
    assert!(got.is_pending());
    assert!(!got.is_terminal());

    let rtxn = begin_snapshot(&db).unwrap();
    let mut seen: Vec<Vec<u8>> = Vec::new();
    for (key, _) in read_prefix(&rtxn, Table::MergeReviewByStatus, &[proposal_status::PENDING]).unwrap() {
        seen.push(key[1..].to_vec());
    }
    assert_eq!(seen, vec![p.proposal_id.to_vec()]);
}

#[test]
fn terminal_statuses_round_trip() {
    let dir = tempfile::tempdir().unwrap();
    let mut db = fresh_db(&dir);
    for st in [
        proposal_status::AUTO_APPLIED,
        proposal_status::APPROVED,
        proposal_status::REJECTED,
        proposal_status::EXPIRED,
    ] {
        let mut p = proposal(st);
        // A unique id per status so all four coexist.
        p.proposal_id = [st; 16];
        put_row(&mut db, Table::MergeReviewQueue, &p.proposal_id, &p);
        let got: MergeReviewProposal = row_at(&db, Table::MergeReviewQueue, &p.proposal_id).unwrap();
        assert_eq!(got.status, st);
        assert!(got.is_terminal());
    }
}

// All tables.

#[test]
fn materialize_all_tables_is_idempotent() {
    let dir = tempfile::tempdir().unwrap();
    let mut db = fresh_db(&dir);
    for _ in 0..2 {
        let mut wtxn = begin_change(&db).unwrap();
        materialize_all_tables(&mut wtxn).expect("materialize");
        commit_change(&mut db, wtxn).unwrap();
    }
}

#[test]
fn every_table_readable_after_materialize() {
    let dir = tempfile::tempdir().unwrap();
    let db = fresh_db(&dir);
    let rtxn = db.begin_read().unwrap();
    for t in [
        Table::Agents,
        Table::Memories,
        Table::Entities,
        Table::EntityVectors,
        Table::Statements,
        Table::StatementEmbedQueue,
        Table::RelationMetadata,
        Table::Edges,
        Table::Checkpoints,
    ] {
        let def: TableDefinition<&[u8], &[u8]> = TableDefinition::new(t.name());
        rtxn.open_table(def).expect(t.name());
        assert_eq!(count(&rtxn, t).unwrap(), 0);
    }
}

#[test]
fn a_table_that_was_never_made_is_not_there() {
    let dir = tempfile::tempdir().unwrap();
    let db = plain_db(&dir);
    let rtxn = db.begin_read().unwrap();
    let def: TableDefinition<&[u8], &[u8]> = TableDefinition::new(Table::Agents.name());
    assert!(rtxn.open_table(def).is_err());
    let rtxn = begin_snapshot(&db).unwrap();
    assert!(matches!(read(&rtxn, Table::Agents, b"x"), Err(redb::Error::TableDoesNotExist(name)) if name == "agents"));
    assert!(count(&rtxn, Table::Agents).is_err());
    assert!(read_prefix(&rtxn, Table::Agents, b"").is_err());
    assert!(require_table(&rtxn, Table::Agents).is_err());
    assert!(matches!(latest(&rtxn), Err(LoadError::Storage(_))));
    // Some callers take it for an empty one.
    assert_eq!(read_if_any(&rtxn, Table::Agents, b"x").unwrap(), None);
    assert_eq!(count_if_any(&rtxn, Table::Agents).unwrap(), 0);
    assert!(read_prefix_if_any(&rtxn, Table::Agents, b"").unwrap().is_empty());
    let none: Option<AgentMetadata> = load_if_any(&rtxn, Table::Agents, b"x").unwrap();
    assert!(none.is_none());
}

#[test]
fn a_table_that_exists_is_read_either_way() {
    let dir = tempfile::tempdir().unwrap();
    let mut db = fresh_db(&dir);
    let mut wtxn = begin_change(&db).unwrap();
    put(&mut wtxn, Table::Agents, b"x", b"y").unwrap();
    commit_change(&mut db, wtxn).unwrap();
    let rtxn = begin_snapshot(&db).unwrap();
    require_table(&rtxn, Table::Agents).unwrap();
    assert_eq!(read_if_any(&rtxn, Table::Agents, b"x").unwrap(), Some(b"y".to_vec()));
    assert_eq!(count_if_any(&rtxn, Table::Agents).unwrap(), 1);
    assert_eq!(read_prefix_if_any(&rtxn, Table::Agents, b"").unwrap(), vec![(b"x".to_vec(), b"y".to_vec())]);
}

// The store itself.

#[test]
fn values_are_put_read_and_deleted() {
    let dir = tempfile::tempdir().unwrap();
    let mut db = plain_db(&dir);
    let mut wtxn = begin_change(&db).unwrap();
    assert_eq!(get(&mut wtxn, Table::Agents, b"k").unwrap(), None);
    put(&mut wtxn, Table::Agents, b"k", b"one").unwrap();
    put(&mut wtxn, Table::Agents, b"k", b"two").unwrap();
    put(&mut wtxn, Table::Contexts, b"k", b"other table").unwrap();
    assert_eq!(get(&mut wtxn, Table::Agents, b"k").unwrap(), Some(b"two".to_vec()));
    commit_change(&mut db, wtxn).unwrap();

    let before = begin_snapshot(&db).unwrap();
    let mut wtxn = begin_change(&db).unwrap();
    assert!(del(&mut wtxn, Table::Agents, b"k").unwrap());
    assert!(!del(&mut wtxn, Table::Agents, b"k").unwrap());
    commit_change(&mut db, wtxn).unwrap();

    // A snapshot keeps what was committed when it began.
    assert_eq!(read(&before, Table::Agents, b"k").unwrap(), Some(b"two".to_vec()));
    let after = begin_snapshot(&db).unwrap();
    assert_eq!(read(&after, Table::Agents, b"k").unwrap(), None);
    assert_eq!(read(&after, Table::Contexts, b"k").unwrap(), Some(b"other table".to_vec()));
    assert_eq!(count(&after, Table::Agents).unwrap(), 0);
    assert_eq!(count(&after, Table::Contexts).unwrap(), 1);
}

#[test]
fn what_is_not_committed_is_not_kept() {
    let dir = tempfile::tempdir().unwrap();
    let db = fresh_db(&dir);
    let mut wtxn = begin_change(&db).unwrap();
    put(&mut wtxn, Table::Agents, b"k", b"one").unwrap();
    drop(wtxn);
    let rtxn = begin_snapshot(&db).unwrap();
    assert_eq!(read(&rtxn, Table::Agents, b"k").unwrap(), None);
}

#[test]
fn a_prefix_is_listed_in_order_of_bytes() {
    let dir = tempfile::tempdir().unwrap();
    let mut db = plain_db(&dir);
    let mut wtxn = begin_change(&db).unwrap();
    for key in [&[0xff, 0xff, 2][..], &[0xff, 0xff], &[0xff, 1], &[0xfe], &[0xff, 0xff, 1, 9]] {
        put(&mut wtxn, Table::Agents, key, key).unwrap();
    }
    commit_change(&mut db, wtxn).unwrap();
    let rtxn = begin_snapshot(&db).unwrap();
    let keys: Vec<Vec<u8>> =
        read_prefix(&rtxn, Table::Agents, &[0xff, 0xff]).unwrap().into_iter().map(|kv| kv.0).collect();
    assert_eq!(keys, vec![vec![0xff, 0xff], vec![0xff, 0xff, 1, 9], vec![0xff, 0xff, 2]]);
    let keys: Vec<Vec<u8>> = read_prefix(&rtxn, Table::Agents, &[0xfe]).unwrap().into_iter().map(|kv| kv.0).collect();
    assert_eq!(keys, vec![vec![0xfe]]);
    assert_eq!(read_prefix(&rtxn, Table::Agents, &[]).unwrap().len(), 5);
}

#[test]
fn a_damaged_row_is_told_from_an_absent_one() {
    let dir = tempfile::tempdir().unwrap();
    let mut db = plain_db(&dir);
    let mut wtxn = begin_change(&db).unwrap();
    put(&mut wtxn, Table::Agents, b"bad", b"not a row").unwrap();
    let found: Result<Option<AgentMetadata>, LoadError> = load(&mut wtxn, Table::Agents, b"bad");
    assert!(matches!(found, Err(LoadError::Corrupt)));
    let found: Result<Option<AgentMetadata>, LoadError> = load(&mut wtxn, Table::Agents, b"none");
    assert!(matches!(found, Ok(None)));
    commit_change(&mut db, wtxn).unwrap();
    let rtxn = begin_snapshot(&db).unwrap();
    let found: Result<Option<AgentMetadata>, LoadError> = load_at(&rtxn, Table::Agents, b"bad");
    assert!(matches!(found, Err(LoadError::Corrupt)));
}

#[test]
fn text_that_is_no_utf8_is_refused() {
    let m = AgentMetadata::new(aid(1), Some("aaé".to_string()), T0);
    let mut bytes = to_bytes(&m);
    let back: AgentMetadata = from_bytes(&bytes).unwrap();
    assert_eq!(back.display_name, Some("aaé".to_string()));
    let at = bytes.windows(2).position(|w| w == "é".as_bytes()).unwrap();
    bytes[at] = 0xff;
    let back: Option<AgentMetadata> = from_bytes(&bytes);
    assert!(back.is_none());
}
