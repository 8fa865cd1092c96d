//! Versions of the store, schemas and the system schema.

use brain_metadata::catalog::Table;
use brain_metadata::definitions::{make_number_key, DefinitionError};
use brain_metadata::row::save;
use brain_metadata::schema_apply::{
    apply_schema_definitions, CardinalityAst, EntityTypeDef, ExtractorDef, ObjectTypeDecl, PredicateDef,
    RelationTypeDef, Schema, SchemaApplyError, SchemaItem, StatementKindAst, ValidatedSchema,
};
use brain_metadata::schema_store::{
    schema_active, schema_active_row, schema_get, schema_list, schema_namespaces, schema_upload, SchemaStoreError,
};
use brain_metadata::sink::MetadataDb;
use brain_metadata::statement_question::ops::{
    remove_found, statement_question_delete, statement_question_has_vectors, statement_question_iter_all,
    statement_question_put, vectors_found,
};
use brain_metadata::storage_version::{
    check_version, open_or_init_schema, read_stored_version, stamp_version, SchemaError, CURRENT_SCHEMA_VERSION,
    SCHEMA_VERSION_KEY,
};
use brain_metadata::store::{begin_change, begin_snapshot, commit_change, count, del, put, scan_prefix};
use brain_metadata::system_schema::{seed_system_schema, SystemSchemaError};
use brain_metadata::tables::extractor::{ExtractorDefinition, ExtractorKind};
use brain_metadata::tables::relation_type::Cardinality;
use brain_metadata::tables::schema_version::VALIDATOR_VERSION;
use brain_metadata::types::{EntityTypeId, ExtractorId, PredicateId, RelationTypeId, StatementId, StatementKind, F32};
use brain_metadata::vocabulary::{
    entity_type_intern, entity_type_list, entity_type_lookup_by_name, extractor_intern, extractor_list,
    extractor_lookup_by_qname, predicate_intern, predicate_lookup_by_qname, relation_type_intern,
};
use redb::Database;
use std::path::PathBuf;

// Versions of the store.

fn fresh_db(dir: &tempfile::TempDir) -> (Database, PathBuf) {
    let path = dir.path().join("test.redb");
    let db = Database::create(&path).expect("create redb");
    (db, path)
}

fn stamp(db: &mut Database, version: u32) {
    let mut wtxn = begin_change(db).unwrap();
    put(&mut wtxn, Table::SchemaMeta, SCHEMA_VERSION_KEY.as_bytes(), &version.to_be_bytes()).unwrap();
    commit_change(db, wtxn).unwrap();
}

#[test]
fn fresh_db_initializes_at_current_version() {
    let dir = tempfile::tempdir().unwrap();
    let (mut db, _) = fresh_db(&dir);
    let v = open_or_init_schema(&mut db).unwrap();
    assert_eq!(v, CURRENT_SCHEMA_VERSION);
}

#[test]
fn reopen_reads_existing_version() {
    let dir = tempfile::tempdir().unwrap();
    let path = dir.path().join("test.redb");
    {
        let mut db = Database::create(&path).unwrap();
        assert_eq!(open_or_init_schema(&mut db).unwrap(), CURRENT_SCHEMA_VERSION);
    }
    let mut db = Database::open(&path).unwrap();
    let v = open_or_init_schema(&mut db).unwrap();
    assert_eq!(v, CURRENT_SCHEMA_VERSION);
}

#[test]
fn future_version_refuses_to_open() {
    let dir = tempfile::tempdir().unwrap();
    let (mut db, path) = fresh_db(&dir);
    let future = CURRENT_SCHEMA_VERSION + 1;
    stamp(&mut db, future);
    drop(db);

    let mut db = Database::open(&path).unwrap();
    let err = open_or_init_schema(&mut db).unwrap_err();
    match err {
        SchemaError::SchemaVersionTooNew { found, supported } => {
            assert_eq!(found, future);
            assert_eq!(supported, CURRENT_SCHEMA_VERSION);
        }
        other => panic!("expected SchemaVersionTooNew, got {other:?}"),
    }
}

#[test]
fn schema_too_old_on_v1_db() {
    let dir = tempfile::tempdir().unwrap();
    let (mut db, path) = fresh_db(&dir);
    stamp(&mut db, 1);
    drop(db);

    let mut db = Database::open(&path).unwrap();
    let err = open_or_init_schema(&mut db).unwrap_err();
    match err {
        SchemaError::SchemaTooOld { found, current } => {
            assert_eq!(found, 1);
            assert_eq!(current, CURRENT_SCHEMA_VERSION);
            assert_eq!(current, 2);
        }
        other => panic!("expected SchemaTooOld, got {other:?}"),
    }
    // A store that is taken into use refuses it in the same way.
    assert!(matches!(MetadataDb::attach(db), Err(SchemaError::SchemaTooOld { found: 1, current: 2 })));
}

#[test]
fn idempotent_reinit_returns_same_version() {
    let dir = tempfile::tempdir().unwrap();
    let (mut db, _) = fresh_db(&dir);
    let v1 = open_or_init_schema(&mut db).unwrap();
    let v2 = open_or_init_schema(&mut db).unwrap();
    let v3 = open_or_init_schema(&mut db).unwrap();
    assert_eq!(v1, v2);
    assert_eq!(v2, v3);
    assert_eq!(v1, CURRENT_SCHEMA_VERSION);
}

#[test]
fn table_present_but_row_missing_initializes_to_v1() {
    let dir = tempfile::tempdir().unwrap();
    let (mut db, path) = fresh_db(&dir);
    {
        // The table is made, and stays empty.
        let mut wtxn = begin_change(&db).unwrap();
        put(&mut wtxn, Table::SchemaMeta, SCHEMA_VERSION_KEY.as_bytes(), &[0; 4]).unwrap();
        assert!(del(&mut wtxn, Table::SchemaMeta, SCHEMA_VERSION_KEY.as_bytes()).unwrap());
        commit_change(&mut db, wtxn).unwrap();
    }
    drop(db);
    let mut db = Database::open(&path).unwrap();
    let v = open_or_init_schema(&mut db).unwrap();
    assert_eq!(v, CURRENT_SCHEMA_VERSION);
}

#[test]
fn a_stamp_is_read_back_and_a_damaged_one_is_told() {
    let dir = tempfile::tempdir().unwrap();
    let (mut db, _) = fresh_db(&dir);
    let mut wtxn = begin_change(&db).unwrap();
    stamp_version(&mut wtxn).unwrap();
    commit_change(&mut db, wtxn).unwrap();
    let rtxn = begin_snapshot(&db).unwrap();
    assert_eq!(read_stored_version(&rtxn).unwrap(), Some(CURRENT_SCHEMA_VERSION));

    let mut wtxn = begin_change(&db).unwrap();
    put(&mut wtxn, Table::SchemaMeta, SCHEMA_VERSION_KEY.as_bytes(), b"12345").unwrap();
    commit_change(&mut db, wtxn).unwrap();
    assert!(matches!(open_or_init_schema(&mut db), Err(SchemaError::Corrupt)));
}

#[test]
fn only_the_current_version_is_opened() {
    assert!(matches!(check_version(None), Ok(true)));
    assert!(matches!(check_version(Some(CURRENT_SCHEMA_VERSION)), Ok(false)));
    assert!(matches!(check_version(Some(0)), Err(SchemaError::SchemaTooOld { found: 0, current: 2 })));
    assert!(matches!(check_version(Some(9)), Err(SchemaError::SchemaVersionTooNew { found: 9, supported: 2 })));
}

// Schemas.

fn entity_type(name: &str) -> SchemaItem {
    SchemaItem::EntityType(EntityTypeDef { name: name.to_string() })
}

fn predicate(name: &str, kind: StatementKindAst) -> SchemaItem {
    SchemaItem::Predicate(PredicateDef {
        name: name.to_string(),
        kind,
        object: ObjectTypeDecl::Value,
        description: None,
    })
}

fn extractor(name: &str, kind: ExtractorKind, definition: &str) -> SchemaItem {
    SchemaItem::Extractor(ExtractorDef {
        name: name.to_string(),
        kind,
        enabled: true,
        definition: definition.as_bytes().to_vec(),
    })
}

fn schema(namespace: &str, items: Vec<SchemaItem>) -> ValidatedSchema {
    ValidatedSchema(Schema {
        namespace: namespace.to_string(),
        items,
        source: Some(format!("namespace {namespace}\n")),
    })
}

fn acme_schema_v1() -> ValidatedSchema {
    schema("acme", vec![entity_type("Person")])
}

fn acme_schema_v2() -> ValidatedSchema {
    schema("acme", vec![entity_type("Person"), predicate("prefers", StatementKindAst::Preference)])
}

fn crm_schema() -> ValidatedSchema {
    schema("crm", vec![entity_type("Lead")])
}

fn json(s: &ValidatedSchema) -> Vec<u8> {
    let mut v = serde_json::Map::new();
    v.insert("namespace".to_string(), serde_json::Value::String(s.0.namespace.clone()));
    serde_json::to_vec(&serde_json::Value::Object(v)).unwrap()
}

fn upload(db: &mut Database, s: &ValidatedSchema, now: u64) -> u32 {
    let mut wtxn = begin_change(db).unwrap();
    let v = schema_upload(&mut wtxn, s, json(s), now).unwrap();
    commit_change(db, wtxn).unwrap();
    v
}

#[test]
fn first_upload_is_version_one() {
    let dir = tempfile::tempdir().unwrap();
    let (mut db, _) = fresh_db(&dir);
    assert_eq!(upload(&mut db, &acme_schema_v1(), 1_700_000_000_000_000_000), 1);
    let rtxn = begin_snapshot(&db).unwrap();
    assert_eq!(schema_active(&rtxn, "acme").unwrap(), Some(1));
    assert!(schema_get(&rtxn, "acme", 1).unwrap().is_some());
}

#[test]
fn second_upload_bumps_version() {
    let dir = tempfile::tempdir().unwrap();
    let (mut db, _) = fresh_db(&dir);
    upload(&mut db, &acme_schema_v1(), 1);
    assert_eq!(upload(&mut db, &acme_schema_v2(), 2), 2);
    let rtxn = begin_snapshot(&db).unwrap();
    assert_eq!(schema_active(&rtxn, "acme").unwrap(), Some(2));
    // The first is still readable.
    assert!(schema_get(&rtxn, "acme", 1).unwrap().is_some());
    assert!(schema_get(&rtxn, "acme", 2).unwrap().is_some());
}

#[test]
fn schema_get_missing_version_is_none() {
    let dir = tempfile::tempdir().unwrap();
    let (db, _) = fresh_db(&dir);
    let rtxn = begin_snapshot(&db).unwrap();
    assert!(schema_get(&rtxn, "acme", 7).unwrap().is_none());
    assert_eq!(schema_active(&rtxn, "acme").unwrap(), None);
    assert!(schema_active_row(&rtxn, "acme").unwrap().is_none());
}

#[test]
fn schema_list_newest_first() {
    let dir = tempfile::tempdir().unwrap();
    let (mut db, _) = fresh_db(&dir);
    for (i, s) in [acme_schema_v1(), acme_schema_v2()].iter().enumerate() {
        upload(&mut db, s, i as u64);
    }
    let rtxn = begin_snapshot(&db).unwrap();
    let list = schema_list(&rtxn, "acme").unwrap();
    assert_eq!(list.len(), 2);
    assert_eq!(list[0].version, 2);
    assert_eq!(list[1].version, 1);
}

#[test]
fn namespaces_are_independent() {
    let dir = tempfile::tempdir().unwrap();
    let (mut db, _) = fresh_db(&dir);
    for s in [acme_schema_v1(), acme_schema_v2(), crm_schema()] {
        upload(&mut db, &s, 1);
    }
    let rtxn = begin_snapshot(&db).unwrap();
    assert_eq!(schema_active(&rtxn, "acme").unwrap(), Some(2));
    assert_eq!(schema_active(&rtxn, "crm").unwrap(), Some(1));
    let nss = schema_namespaces(&rtxn).unwrap();
    assert!(nss.contains(&"acme".to_string()));
    assert!(nss.contains(&"crm".to_string()));
}

#[test]
fn active_persists_across_reopen() {
    let dir = tempfile::tempdir().unwrap();
    {
        let (mut db, _) = fresh_db(&dir);
        upload(&mut db, &acme_schema_v1(), 1);
    }
    let db = Database::open(dir.path().join("test.redb")).unwrap();
    let rtxn = begin_snapshot(&db).unwrap();
    assert_eq!(schema_active(&rtxn, "acme").unwrap(), Some(1));
}

#[test]
fn schema_active_row_returns_full_row() {
    let dir = tempfile::tempdir().unwrap();
    let (mut db, _) = fresh_db(&dir);
    upload(&mut db, &acme_schema_v2(), 42);
    let rtxn = begin_snapshot(&db).unwrap();
    let row = schema_active_row(&rtxn, "acme").unwrap().unwrap();
    assert_eq!(row.version, 1);
    assert_eq!(row.namespace, "acme");
    assert_eq!(row.uploaded_at_unix_nanos, 42);
    assert_eq!(row.validator_version, VALIDATOR_VERSION);
    assert!(row.source_text.is_some());
    // The source is kept as it was given.
    let decoded: serde_json::Value = serde_json::from_slice(&row.source).unwrap();
    assert_eq!(decoded["namespace"], "acme");
}

#[test]
fn the_last_version_is_the_end() {
    let dir = tempfile::tempdir().unwrap();
    let (mut db, _) = fresh_db(&dir);
    let mut wtxn = begin_change(&db).unwrap();
    put(&mut wtxn, Table::SchemaActiveVersions, b"acme", &make_number_key(u32::MAX)).unwrap();
    commit_change(&mut db, wtxn).unwrap();
    let mut wtxn = begin_change(&db).unwrap();
    match schema_upload(&mut wtxn, &acme_schema_v1(), Vec::new(), 1) {
        Err(SchemaStoreError::VersionOverflow { namespace }) => assert_eq!(namespace, "acme"),
        other => panic!("expected VersionOverflow, got {other:?}"),
    }
}

#[test]
fn damaged_versions_are_told() {
    let dir = tempfile::tempdir().unwrap();
    let (mut db, _) = fresh_db(&dir);
    let mut wtxn = begin_change(&db).unwrap();
    put(&mut wtxn, Table::SchemaActiveVersions, b"acme", b"?").unwrap();
    commit_change(&mut db, wtxn).unwrap();
    let rtxn = begin_snapshot(&db).unwrap();
    assert!(matches!(schema_active(&rtxn, "acme"), Err(SchemaStoreError::Corrupt)));
}

#[test]
fn a_schema_defines_its_items() {
    let dir = tempfile::tempdir().unwrap();
    let (mut db, _) = fresh_db(&dir);
    let s = schema(
        "acme",
        vec![
            entity_type("Person"),
            predicate("prefers", StatementKindAst::Preference),
            predicate("said", StatementKindAst::Any),
            SchemaItem::RelationType(RelationTypeDef {
                name: "reports_to".to_string(),
                from_type: "Person".to_string(),
                to_type: "Robot".to_string(),
                cardinality: CardinalityAst::ManyToOne,
                symmetric: false,
                description: Some("chain".to_string()),
            }),
        ],
    );
    let mut wtxn = begin_change(&db).unwrap();
    apply_schema_definitions(&mut wtxn, &s, 3, 9).unwrap();
    let person = entity_type_lookup_by_name(&mut wtxn, "Person").unwrap().unwrap();
    assert_eq!(person.id(), EntityTypeId(1));
    assert!(entity_type_lookup_by_name(&mut wtxn, "Robot").unwrap().is_none());
    let relation = scan_prefix(&mut wtxn, Table::RelationTypesByQname, b"acme:reports_to").unwrap();
    assert_eq!(relation, vec![(b"acme:reports_to".to_vec(), make_number_key(1))]);
    commit_change(&mut db, wtxn).unwrap();
    let rtxn = begin_snapshot(&db).unwrap();
    let p = predicate_lookup_by_qname(&rtxn, "acme", "prefers").unwrap().unwrap();
    assert_eq!(p.id(), PredicateId(1));
    assert_eq!(p.to_predicate().kind_constraint, Some(StatementKind::Preference));
    assert_eq!(p.schema_version, 3);
    let p = predicate_lookup_by_qname(&rtxn, "acme", "said").unwrap().unwrap();
    assert_eq!(p.to_predicate().kind_constraint, None);
}

// Definitions.

#[test]
fn a_definition_is_interned_once() {
    let dir = tempfile::tempdir().unwrap();
    let (db, _) = fresh_db(&dir);
    let mut wtxn = begin_change(&db).unwrap();
    let p1 = predicate_intern(&mut wtxn, "acme", "likes", None, 0, 1, "", false, 5).unwrap();
    let p2 = predicate_intern(&mut wtxn, "acme", "likes", None, 0, 1, "", false, 6).unwrap();
    let p3 = predicate_intern(&mut wtxn, "crm", "likes", None, 0, 1, "", false, 7).unwrap();
    assert_eq!((p1, p2, p3), (PredicateId(1), PredicateId(1), PredicateId(2)));

    let r = relation_type_intern(&mut wtxn, "acme", "near", None, None, Cardinality::ManyToMany, true, 1, "", 5);
    assert_eq!(r.unwrap(), RelationTypeId(1));
    let e = entity_type_intern(&mut wtxn, "Person", vec![1], 5).unwrap();
    assert_eq!(e, EntityTypeId(1));
    assert_eq!(entity_type_intern(&mut wtxn, "Place", vec![], 5).unwrap(), EntityTypeId(2));
}

#[test]
fn a_definition_that_differs_is_refused_until_its_version_is_newer() {
    let dir = tempfile::tempdir().unwrap();
    let (db, _) = fresh_db(&dir);
    let mut wtxn = begin_change(&db).unwrap();
    let kind = ExtractorKind::Pattern;
    extractor_intern(&mut wtxn, "acme", "dates", kind, true, 1, b"one".to_vec(), 5).unwrap();
    match extractor_intern(&mut wtxn, "acme", "dates", kind, true, 1, b"two".to_vec(), 6) {
        Err(DefinitionError::AlreadyExists { qname, existing }) => {
            assert_eq!(qname, "acme:dates");
            assert_eq!(existing, 1);
        }
        other => panic!("expected AlreadyExists, got {other:?}"),
    }
    let id = extractor_intern(&mut wtxn, "acme", "dates", kind, true, 2, b"two".to_vec(), 7).unwrap();
    assert_eq!(id, ExtractorId(1));
}

#[test]
fn numbers_can_run_out() {
    let dir = tempfile::tempdir().unwrap();
    let (db, _) = fresh_db(&dir);
    let mut wtxn = begin_change(&db).unwrap();
    let last = ExtractorDefinition::new(
        ExtractorId(u32::MAX),
        "acme".into(),
        "last".into(),
        ExtractorKind::Llm,
        true,
        1,
        Vec::new(),
        0,
    );
    save(&mut wtxn, Table::Extractors, &make_number_key(u32::MAX), &last).unwrap();
    let r = extractor_intern(&mut wtxn, "acme", "next", ExtractorKind::Llm, true, 1, Vec::new(), 0);
    assert!(matches!(r, Err(DefinitionError::IdSpaceExhausted)));
}

#[test]
fn damaged_definitions_are_told() {
    let dir = tempfile::tempdir().unwrap();
    let (mut db, _) = fresh_db(&dir);
    let mut wtxn = begin_change(&db).unwrap();
    put(&mut wtxn, Table::Extractors, &make_number_key(1), b"?").unwrap();
    commit_change(&mut db, wtxn).unwrap();
    let rtxn = begin_snapshot(&db).unwrap();
    assert!(matches!(extractor_list(&rtxn), Err(DefinitionError::Corrupt)));
}

// The system schema.

const ENTITY_TYPES: [&str; 6] = ["Person", "Organization", "Project", "Event", "Place", "Concept"];

const PREDICATES: [&str; 29] = [
    "is_a",
    "has_name",
    "mentions",
    "fact",
    "related_to",
    "prefers",
    "scheduled",
    "works_at",
    "member_of",
    "lives_in",
    "located_in",
    "owns",
    "current_role",
    "speaks",
    "has_skill",
    "likes",
    "dislikes",
    "occurred_at",
    "mentioned_in",
    "participated_in",
    "behavior_tone",
    "behavior_style",
    "behavior_avoids",
    "behavior_prefers",
    "behavior_constraint",
    "knows",
    "interested_in",
    "intends",
    "did",
];

const MENTIONS: &str = "{\"name\":\"entity_mentions\",\"target\":\"EntityOrStatement\",\"patterns\":[\"a\",\"b\"]}";

fn system_schema() -> ValidatedSchema {
    let mut items: Vec<SchemaItem> = ENTITY_TYPES.iter().map(|n| entity_type(n)).collect();
    items.extend(PREDICATES.iter().map(|n| predicate(n, StatementKindAst::Any)));
    items.push(extractor("entity_mentions", ExtractorKind::Pattern, MENTIONS));
    items.push(extractor("gliner", ExtractorKind::Classifier, "{}"));
    items.push(extractor("llm_predicate", ExtractorKind::Llm, "{}"));
    schema("brain", items)
}

fn seed(db: &mut Database) -> Result<(), SystemSchemaError> {
    let s = system_schema();
    seed_system_schema(db, &s, json(&s), 1_700_000_000_000_000_000)
}

#[test]
fn seed_first_open_creates_brain_v1() {
    let dir = tempfile::tempdir().unwrap();
    let (mut db, _) = fresh_db(&dir);
    seed(&mut db).unwrap();
    let rtxn = begin_snapshot(&db).unwrap();
    assert_eq!(schema_active(&rtxn, "brain").unwrap(), Some(1));
    let row = schema_get(&rtxn, "brain", 1).unwrap().unwrap();
    assert_eq!(row.namespace, "brain");
    assert_eq!(row.version, 1);
    assert_eq!(row.validator_version, 1);
}

#[test]
fn seed_reopen_is_idempotent() {
    let dir = tempfile::tempdir().unwrap();
    let path = {
        let (mut db, path) = fresh_db(&dir);
        seed(&mut db).unwrap();
        path
    };
    let mut db = Database::open(&path).unwrap();
    seed(&mut db).unwrap();
    let rtxn = begin_snapshot(&db).unwrap();
    let list = schema_list(&rtxn, "brain").unwrap();
    assert_eq!(list.len(), 1, "reopen must not create v2");
    assert_eq!(list[0].version, 1);
}

#[test]
fn person_resolves_to_id_one() {
    let dir = tempfile::tempdir().unwrap();
    let (mut db, _) = fresh_db(&dir);
    seed(&mut db).unwrap();
    let rtxn = begin_snapshot(&db).unwrap();
    let types = entity_type_list(&rtxn).unwrap();
    let row = types.iter().find(|t| t.id() == EntityTypeId(1)).unwrap();
    assert_eq!(row.name, "Person");
}

#[test]
fn system_schema_seeds_builtin_extractors() {
    let dir = tempfile::tempdir().unwrap();
    let (mut db, _) = fresh_db(&dir);
    seed(&mut db).unwrap();
    let rtxn = begin_snapshot(&db).unwrap();
    let all = extractor_list(&rtxn).unwrap();
    assert_eq!(all.len(), 3);
    let names: Vec<&str> = all.iter().map(|e| e.name.as_str()).collect();
    assert!(names.contains(&"entity_mentions"));
    assert!(names.contains(&"gliner"));
    assert!(names.contains(&"llm_predicate"));
    for ext in &all {
        assert_eq!(ext.namespace, "brain");
        assert!(ext.is_enabled());
    }
}

#[test]
fn system_schema_extractor_ids_are_stable() {
    let dir = tempfile::tempdir().unwrap();
    let (mut db, _) = fresh_db(&dir);
    seed(&mut db).unwrap();
    let rtxn = begin_snapshot(&db).unwrap();
    let entity_mentions =
        extractor_lookup_by_qname(&rtxn, "brain", "entity_mentions").unwrap().expect("entity_mentions registered");
    let gliner = extractor_lookup_by_qname(&rtxn, "brain", "gliner").unwrap().expect("gliner registered");
    let llm_predicate =
        extractor_lookup_by_qname(&rtxn, "brain", "llm_predicate").unwrap().expect("llm_predicate registered");
    assert_eq!(entity_mentions.id().raw(), 1);
    assert_eq!(gliner.id().raw(), 2);
    assert_eq!(llm_predicate.id().raw(), 3);
}

#[test]
fn system_schema_entity_type_ids_are_stable() {
    let dir = tempfile::tempdir().unwrap();
    let (mut db, _) = fresh_db(&dir);
    seed(&mut db).unwrap();
    let rtxn = begin_snapshot(&db).unwrap();
    let types = entity_type_list(&rtxn).unwrap();
    for (expected_id, name) in [
        (1u32, "Person"),
        (2, "Organization"),
        (3, "Project"),
        (4, "Event"),
        (5, "Place"),
        (6, "Concept"),
    ] {
        let row = types
            .iter()
            .find(|t| t.id().raw() == expected_id)
            .unwrap_or_else(|| panic!("EntityTypeId({expected_id}) ({name}) missing"));
        assert_eq!(row.name, name, "id {expected_id}");
    }
}

#[test]
fn system_schema_predicate_ids_are_stable() {
    let dir = tempfile::tempdir().unwrap();
    let (mut db, _) = fresh_db(&dir);
    seed(&mut db).unwrap();
    let rtxn = begin_snapshot(&db).unwrap();
    for (expected_id, name) in [
        (1u32, "is_a"),
        (2, "has_name"),
        (3, "mentions"),
        (4, "fact"),
        (5, "related_to"),
        (6, "prefers"),
        (7, "scheduled"),
        (8, "works_at"),
        (9, "member_of"),
        (10, "lives_in"),
        (11, "located_in"),
        (12, "owns"),
        (13, "current_role"),
        (14, "speaks"),
        (15, "has_skill"),
        (16, "likes"),
        (17, "dislikes"),
        (18, "occurred_at"),
        (19, "mentioned_in"),
        (20, "participated_in"),
        (21, "behavior_tone"),
        (22, "behavior_style"),
        (23, "behavior_avoids"),
        (24, "behavior_prefers"),
        (25, "behavior_constraint"),
        (26, "knows"),
        (27, "interested_in"),
        (28, "intends"),
        (29, "did"),
    ] {
        let row = predicate_lookup_by_qname(&rtxn, "brain", name)
            .unwrap()
            .unwrap_or_else(|| panic!("brain:{name} predicate missing"));
        assert_eq!(row.id().raw(), expected_id, "brain:{name}");
    }
}

#[test]
fn system_schema_extractor_definitions_decode_via_serde() {
    let dir = tempfile::tempdir().unwrap();
    let (mut db, _) = fresh_db(&dir);
    seed(&mut db).unwrap();
    let rtxn = begin_snapshot(&db).unwrap();
    let row = extractor_lookup_by_qname(&rtxn, "brain", "entity_mentions").unwrap().unwrap();
    let ast: serde_json::Value = serde_json::from_slice(&row.definition_blob).expect("decode");
    assert_eq!(ast["name"], "entity_mentions");
    assert_eq!(ast["target"], "EntityOrStatement");
    assert_eq!(ast["patterns"].as_array().unwrap().len(), 2);
}

#[test]
fn reopen_does_not_duplicate_builtin_extractors() {
    let dir = tempfile::tempdir().unwrap();
    let path = {
        let (mut db, path) = fresh_db(&dir);
        seed(&mut db).unwrap();
        path
    };
    let mut db = Database::open(&path).unwrap();
    seed(&mut db).unwrap();
    let rtxn = begin_snapshot(&db).unwrap();
    let all = extractor_list(&rtxn).unwrap();
    assert_eq!(all.len(), 3, "reopen must not duplicate built-ins");
}

#[test]
fn reconciliation_backfills_missing_extractor() {
    let dir = tempfile::tempdir().unwrap();
    let path = {
        let (mut db, path) = fresh_db(&dir);
        seed(&mut db).unwrap();
        // Drop one row and its name, as if it had not been known yet.
        let mut wtxn = begin_change(&db).unwrap();
        assert!(del(&mut wtxn, Table::ExtractorsByQname, b"brain:gliner").unwrap());
        assert!(del(&mut wtxn, Table::Extractors, &make_number_key(2)).unwrap());
        commit_change(&mut db, wtxn).unwrap();
        path
    };

    let mut db = Database::open(&path).unwrap();
    seed(&mut db).unwrap();
    let rtxn = begin_snapshot(&db).unwrap();
    let restored = extractor_lookup_by_qname(&rtxn, "brain", "gliner").unwrap().expect("gliner restored");
    assert_eq!(restored.namespace, "brain");
    assert_eq!(restored.name, "gliner");
    assert!(restored.is_enabled());
}

#[test]
fn reconciliation_no_op_when_table_is_current() {
    let dir = tempfile::tempdir().unwrap();
    let (path, before) = {
        let (mut db, path) = fresh_db(&dir);
        seed(&mut db).unwrap();
        let rtxn = begin_snapshot(&db).unwrap();
        (path, extractor_list(&rtxn).unwrap())
    };
    let mut db = Database::open(&path).unwrap();
    seed(&mut db).unwrap();
    let rtxn = begin_snapshot(&db).unwrap();
    let after = extractor_list(&rtxn).unwrap();
    assert_eq!(after, before, "rows must not be rewritten when content matches");
}

#[test]
fn reconciliation_propagates_diverged_definition() {
    let dir = tempfile::tempdir().unwrap();
    let path = {
        let (mut db, path) = fresh_db(&dir);
        seed(&mut db).unwrap();
        let tampered = ExtractorDefinition::new(
            ExtractorId(1),
            "brain".into(),
            "entity_mentions".into(),
            ExtractorKind::Pattern,
            true,
            1,
            b"tampered-definition".to_vec(),
            0,
        );
        let mut wtxn = begin_change(&db).unwrap();
        save(&mut wtxn, Table::Extractors, &make_number_key(1), &tampered).unwrap();
        commit_change(&mut db, wtxn).unwrap();
        path
    };

    let mut db = Database::open(&path).unwrap();
    let err = seed(&mut db).expect_err("diverged definition must surface");
    match err {
        SystemSchemaError::Reconcile(SchemaApplyError::Extractor(DefinitionError::AlreadyExists { qname, .. })) => {
            assert_eq!(qname, "brain:entity_mentions");
        }
        other => panic!("expected Reconcile/AlreadyExists, got {other:?}"),
    }
}

#[test]
fn a_refused_seed_leaves_the_tables_and_the_rows() {
    let dir = tempfile::tempdir().unwrap();
    let (mut db, _) = fresh_db(&dir);
    // The number of the active version is damaged.
    let mut wtxn = begin_change(&db).unwrap();
    put(&mut wtxn, Table::SchemaActiveVersions, b"brain", &[1, 2, 3]).unwrap();
    commit_change(&mut db, wtxn).unwrap();
    assert!(entity_type_list(&begin_snapshot(&db).unwrap()).is_err(), "precondition: no such table yet");

    assert!(matches!(seed(&mut db), Err(SystemSchemaError::Schema(SchemaStoreError::Corrupt))));
    let rtxn = begin_snapshot(&db).unwrap();
    assert!(entity_type_list(&rtxn).unwrap().is_empty());
    assert!(extractor_list(&rtxn).unwrap().is_empty());
    assert_eq!(count(&rtxn, Table::SchemaVersions).unwrap(), 0);
    assert_eq!(count(&rtxn, Table::SchemaActiveVersions).unwrap(), 1);
}

#[test]
fn reopen_backfills_missing_entity_types() {
    let dir = tempfile::tempdir().unwrap();
    let path = {
        let (mut db, path) = fresh_db(&dir);
        seed(&mut db).unwrap();
        // Wipe every entity type; the active version stays.
        let mut wtxn = begin_change(&db).unwrap();
        for (key, _) in scan_prefix(&mut wtxn, Table::EntityTypes, b"").unwrap() {
            del(&mut wtxn, Table::EntityTypes, &key).unwrap();
        }
        commit_change(&mut db, wtxn).unwrap();
        let rtxn = begin_snapshot(&db).unwrap();
        assert_eq!(count(&rtxn, Table::EntityTypes).unwrap(), 0, "precondition: types wiped");
        path
    };

    let mut db = Database::open(&path).unwrap();
    seed(&mut db).unwrap();
    let rtxn = begin_snapshot(&db).unwrap();
    let names: Vec<String> = entity_type_list(&rtxn).unwrap().into_iter().map(|t| t.name).collect();
    for expected in ["Person", "Organization", "Project", "Event", "Place", "Concept"] {
        assert!(names.iter().any(|n| n == expected), "entity type {expected} must be filled in; got {names:?}");
    }
}

// Vectors of questions.

fn sid(seed: u8) -> StatementId {
    let mut b = [0u8; 16];
    b[0] = seed;
    StatementId::from_bytes(b)
}

fn vec_seed(seed: f32) -> [F32; 384] {
    let mut v = [F32 { bits: 0 }; 384];
    v[0] = F32 { bits: seed.to_bits() };
    v
}

#[test]
fn put_iter_has_delete_round_trip() {
    let dir = tempfile::tempdir().unwrap();
    let (mut db, _) = fresh_db(&dir);
    let mut wtxn = begin_change(&db).unwrap();
    statement_question_put(&mut wtxn, sid(1), 0, &vec_seed(0.5)).unwrap();
    statement_question_put(&mut wtxn, sid(1), 1, &vec_seed(0.7)).unwrap();
    statement_question_put(&mut wtxn, sid(2), 0, &vec_seed(0.9)).unwrap();
    commit_change(&mut db, wtxn).unwrap();

    let rtxn = begin_snapshot(&db).unwrap();
    let all = statement_question_iter_all(&rtxn).unwrap();
    assert_eq!(all.len(), 3);
    assert_eq!(all[0].0, sid(1));
    assert!(all[0].1 == vec_seed(0.5));
    assert!(all[2].1 == vec_seed(0.9));
    assert!(statement_question_has_vectors(&rtxn, sid(1)).unwrap());
    assert!(!statement_question_has_vectors(&rtxn, sid(3)).unwrap());
    drop(rtxn);

    let mut wtxn = begin_change(&db).unwrap();
    assert_eq!(statement_question_delete(&mut wtxn, sid(1)).unwrap(), 2);
    commit_change(&mut db, wtxn).unwrap();

    let rtxn = begin_snapshot(&db).unwrap();
    assert!(!statement_question_has_vectors(&rtxn, sid(1)).unwrap());
    assert!(statement_question_has_vectors(&rtxn, sid(2)).unwrap());
}

#[test]
fn vectors_of_a_table_that_was_never_made_are_an_error() {
    let dir = tempfile::tempdir().unwrap();
    let (mut db, _) = fresh_db(&dir);
    open_or_init_schema(&mut db).unwrap();
    let rtxn = begin_snapshot(&db).unwrap();
    assert!(statement_question_has_vectors(&rtxn, StatementId([1; 16])).is_err());
    assert!(statement_question_iter_all(&rtxn).is_err());
}

#[test]
fn an_opened_database_has_its_tables() {
    let dir = tempfile::tempdir().unwrap();
    let (mut db, _) = fresh_db(&dir);
    open_or_init_schema(&mut db).unwrap();
    let before = begin_snapshot(&db).unwrap().list_tables().unwrap().count();
    let rtxn = begin_snapshot(&db).unwrap();
    for t in [Table::SchemaMeta, Table::Agents, Table::Memories, Table::Edges, Table::Statements, Table::Texts] {
        count(&rtxn, t).unwrap();
    }
    drop(rtxn);
    open_or_init_schema(&mut db).unwrap();
    assert_eq!(begin_snapshot(&db).unwrap().list_tables().unwrap().count(), before);
    assert_eq!(before, 54);
}

#[test]
fn a_search_decides_whether_there_are_vectors() {
    assert!(!vectors_found(Ok(Vec::new())).unwrap());
    assert!(vectors_found(Ok(vec![(vec![1], vec![2])])).unwrap());
    let failed = vectors_found(Err(redb::Error::Corrupted("torn page".to_string())));
    assert!(matches!(failed, Err(redb::Error::Corrupted(why)) if why == "torn page"));
}

#[test]
fn removing_what_a_search_found() {
    let dir = tempfile::tempdir().unwrap();
    let db = Database::create(dir.path().join("found.redb")).unwrap();
    let mut wtxn = begin_change(&db).unwrap();
    assert_eq!(remove_found(&mut wtxn, &Vec::new()).unwrap(), 0);
    statement_question_put(&mut wtxn, StatementId([7; 16]), 4, &[F32 { bits: 0 }; 384]).unwrap();
    let mut key = vec![7u8; 16];
    key.push(4);
    assert_eq!(remove_found(&mut wtxn, &vec![(key, Vec::new())]).unwrap(), 1);
    assert_eq!(statement_question_delete(&mut wtxn, StatementId([7; 16])).unwrap(), 0);
}
