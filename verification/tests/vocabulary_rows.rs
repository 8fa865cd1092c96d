//! Entities, predicates, relation types and relations.

use brain_metadata::catalog::Table;
use brain_metadata::definitions::make_number_key;
use brain_metadata::row::{load_at, save, Row};
use brain_metadata::store::{begin_change, begin_snapshot, commit_change, put, read, read_prefix};
use brain_metadata::tables::edge::NodeRef;
use brain_metadata::tables::entity::{
    flags, make_alias_key, make_canonical_name_key, make_mention_key, make_trigram_key, mention_context, Entity,
    EntityAttributes, EntityMetadata, MentionMetadata,
};
use brain_metadata::tables::predicate::{
    decode_kind_constraint, encode_kind_constraint, Predicate, PredicateDefinition, SchemaOrigin,
};
use brain_metadata::tables::relation::{
    make_relation_evidence_key, metadata_from_relation, relation_from_metadata, Relation, RelationMetadata,
};
use brain_metadata::tables::relation_type::{
    decode_entity_type_id, encode_entity_type_id, Cardinality, RelationType, RelationTypeDefinition,
    RelationTypeOrigin,
};
use brain_metadata::types::{
    AgentId, EntityId, EntityTypeId, ExtractorId, MemoryId, NamespaceId, PredicateId, RelationId, RelationTypeId,
    RowScope, StatementKind, F32,
};
use redb::Database;

const T0: u64 = 1_700_000_000_000_000_000;

fn plain_db(dir: &tempfile::TempDir) -> Database {
    Database::create(dir.path().join("test.redb")).expect("create redb")
}

fn f(x: f32) -> F32 {
    F32 { bits: x.to_bits() }
}

fn put_row<R: Row>(db: &mut Database, t: Table, key: &[u8], row: &R) {
    let mut wtxn = begin_change(db).unwrap();
    save(&mut wtxn, t, key, row).unwrap();
    commit_change(db, wtxn).unwrap();
}

fn row_at<R: Row>(db: &Database, t: Table, key: &[u8]) -> Option<R> {
    let rtxn = begin_snapshot(db).unwrap();
    load_at(&rtxn, t, key).unwrap()
}

fn test_scope() -> RowScope {
    RowScope::from_bytes(0, [0xAB; 16])
}

// Entities.

fn priya() -> EntityMetadata {
    EntityMetadata::new_active(
        EntityId([0x11; 16]),
        test_scope(),
        EntityTypeId(1),
        "Priya Patel".into(),
        "priya patel".into(),
        T0,
    )
}

#[test]
fn entities_round_trip() {
    let dir = tempfile::tempdir().unwrap();
    let mut db = plain_db(&dir);
    let e = priya();
    let key = e.entity_id_bytes;
    put_row(&mut db, Table::Entities, &key, &e);
    let got: EntityMetadata = row_at(&db, Table::Entities, &key).unwrap();
    assert_eq!(got, e);
    assert_eq!(got.entity_id(), EntityId([0x11; 16]));
}

#[test]
fn aliases_round_trip() {
    let dir = tempfile::tempdir().unwrap();
    let mut db = plain_db(&dir);
    let mut e = priya();
    e.add_alias("priya".into());
    e.add_alias("p. patel".into());
    e.add_alias("priya p.".into());
    let key = e.entity_id_bytes;
    put_row(&mut db, Table::Entities, &key, &e);
    let got: EntityMetadata = row_at(&db, Table::Entities, &key).unwrap();
    assert_eq!(got.aliases.len(), 3);
    assert_eq!(got.aliases[0], "priya");
    assert_eq!(got.aliases[1], "p. patel");
    assert_eq!(got.aliases[2], "priya p.");
}

#[test]
fn entity_from_entity_carries_scope_and_reverse_drops_it() {
    let mut e = Entity::new_active(
        EntityId([0x12; 16]),
        EntityTypeId(1),
        "Priya Patel".into(),
        "priya patel".into(),
        T0,
    );
    e.aliases.push("priya".into());
    e.aliases.push("p. patel".into());
    e.attributes = EntityAttributes(vec![0xDE, 0xAD, 0xBE, 0xEF]);
    e.mention_count = 7;
    e.updated_at_unix_nanos = 1_700_000_000_000_000_500;
    e.merged_into = Some(EntityId([0x13; 16]));
    e.embedding_version = 3;
    e.flags = 0b0001;

    let scope = test_scope();
    let m = EntityMetadata::from_entity(&e, scope);
    assert_eq!(m.scope(), scope);
    assert_eq!(m.namespace(), NamespaceId(0));
    assert_eq!(m.agent_id(), AgentId([0xAB; 16]));
    assert_eq!(m.entity_type(), EntityTypeId(1));
    assert_eq!(m.merged_into(), Some(EntityId([0x13; 16])));
    assert_eq!(flags::TOMBSTONED, 1);
    let back: Entity = m.to_entity();
    assert_eq!(back, e);
}

#[test]
fn canonical_name_index_round_trip() {
    let dir = tempfile::tempdir().unwrap();
    let mut db = plain_db(&dir);
    let id = EntityId([0x14; 16]);
    let key = make_canonical_name_key(&test_scope(), 1, "priya patel");
    let mut wtxn = begin_change(&db).unwrap();
    put(&mut wtxn, Table::EntityByCanonicalName, &key, &id.to_bytes()).unwrap();
    commit_change(&mut db, wtxn).unwrap();
    let rtxn = begin_snapshot(&db).unwrap();
    let got = read(&rtxn, Table::EntityByCanonicalName, &key).unwrap().unwrap();
    assert_eq!(got, id.to_bytes().to_vec());
    let other = make_canonical_name_key(&test_scope(), 2, "priya patel");
    assert_eq!(read(&rtxn, Table::EntityByCanonicalName, &other).unwrap(), None);
}

#[test]
fn aliases_index_inserts_and_iterates() {
    let dir = tempfile::tempdir().unwrap();
    let mut db = plain_db(&dir);
    let s = test_scope();
    let k_a = make_alias_key(&s, 1, "p patel", EntityId([1; 16]));
    let k_b = make_alias_key(&s, 1, "p patel", EntityId([2; 16]));
    let mut wtxn = begin_change(&db).unwrap();
    put(&mut wtxn, Table::EntityAliases, &k_a, &[]).unwrap();
    put(&mut wtxn, Table::EntityAliases, &k_b, &[]).unwrap();
    commit_change(&mut db, wtxn).unwrap();
    let rtxn = begin_snapshot(&db).unwrap();
    assert!(read(&rtxn, Table::EntityAliases, &k_a).unwrap().is_some());
    assert!(read(&rtxn, Table::EntityAliases, &k_b).unwrap().is_some());
    let common = &k_a[..k_a.len() - 16];
    assert_eq!(read_prefix(&rtxn, Table::EntityAliases, common).unwrap().len(), 2);
}

#[test]
fn trigrams_index_round_trip() {
    let dir = tempfile::tempdir().unwrap();
    let mut db = plain_db(&dir);
    let key = make_trigram_key(&test_scope(), 1, *b"pri", EntityId([0x15; 16]));
    let mut wtxn = begin_change(&db).unwrap();
    put(&mut wtxn, Table::EntityTrigrams, &key, &[]).unwrap();
    commit_change(&mut db, wtxn).unwrap();
    let rtxn = begin_snapshot(&db).unwrap();
    assert!(read(&rtxn, Table::EntityTrigrams, &key).unwrap().is_some());
}

#[test]
fn mentions_round_trip() {
    let dir = tempfile::tempdir().unwrap();
    let mut db = plain_db(&dir);
    let memory = MemoryId::pack(1, 100, 1);
    let m = MentionMetadata::new(T0, mention_context::SUBJECT_OF, f(0.95));
    let key = make_mention_key(&test_scope(), EntityId([0x16; 16]), memory);
    put_row(&mut db, Table::EntityMentions, &key, &m);
    let got: MentionMetadata = row_at(&db, Table::EntityMentions, &key).unwrap();
    assert_eq!(got, m);
}

// Predicates.

fn reports_to() -> Predicate {
    Predicate {
        id: PredicateId(7),
        namespace: "acme".to_string(),
        name: "reports_to".to_string(),
        kind_constraint: Some(StatementKind::Fact),
        object_type_constraint_byte: 1,
        schema_version: 3,
        description: "Reports-to relation".to_string(),
        is_stateful: false,
    }
}

#[test]
fn predicate_round_trip() {
    let dir = tempfile::tempdir().unwrap();
    let mut db = plain_db(&dir);
    let pred = reports_to();
    let row = PredicateDefinition::from_predicate(&pred, T0);
    let key = make_number_key(row.predicate_id);
    let mut wtxn = begin_change(&db).unwrap();
    save(&mut wtxn, Table::Predicates, &key, &row).unwrap();
    put(&mut wtxn, Table::PredicatesByQname, b"acme:reports_to", &key).unwrap();
    commit_change(&mut db, wtxn).unwrap();

    let got: PredicateDefinition = row_at(&db, Table::Predicates, &key).unwrap();
    assert_eq!(got, row);
    assert_eq!(got.id(), PredicateId(7));
    assert_eq!(got.to_predicate(), pred);

    let rtxn = begin_snapshot(&db).unwrap();
    let by_qname = read(&rtxn, Table::PredicatesByQname, b"acme:reports_to").unwrap().unwrap();
    assert_eq!(by_qname, key);
}

#[test]
fn kind_constraint_round_trip() {
    assert_eq!(decode_kind_constraint(0), None);
    assert_eq!(decode_kind_constraint(1), Some(StatementKind::Fact));
    assert_eq!(decode_kind_constraint(2), Some(StatementKind::Preference));
    assert_eq!(decode_kind_constraint(3), Some(StatementKind::Event));
    assert_eq!(decode_kind_constraint(99), None);

    assert_eq!(encode_kind_constraint(None), 0);
    assert_eq!(encode_kind_constraint(Some(StatementKind::Fact)), 1);
    assert_eq!(encode_kind_constraint(Some(StatementKind::Preference)), 2);
    assert_eq!(encode_kind_constraint(Some(StatementKind::Event)), 3);
}

#[test]
fn origins_round_trip_and_unknown_tags_are_declared() {
    let seen = SchemaOrigin::ImplicitFromWrite { first_seen_lsn: 77 };
    let declared = SchemaOrigin::SchemaDeclared { version: 4 };
    assert_eq!(SchemaOrigin::decode(seen.tag(), seen.payload()), seen);
    assert_eq!(SchemaOrigin::decode(declared.tag(), declared.payload()), declared);
    assert_eq!(SchemaOrigin::decode(0, 0x1_0000_0005), SchemaOrigin::SchemaDeclared { version: 5 });
    assert_eq!(SchemaOrigin::decode(7, 5), SchemaOrigin::SchemaDeclared { version: 0 });
    assert!(declared.is_schema_declared());
    assert!(!seen.is_schema_declared());

    let row = PredicateDefinition::from_predicate_with_origin(&reports_to(), T0, seen);
    assert_eq!(row.origin(), seen);
    let row = PredicateDefinition::from_predicate(&reports_to(), T0);
    assert_eq!(row.origin(), SchemaOrigin::SchemaDeclared { version: 3 });

    let seen = RelationTypeOrigin::ImplicitFromWrite { first_seen_lsn: 78 };
    let declared = RelationTypeOrigin::SchemaDeclared { version: 5 };
    assert_eq!(RelationTypeOrigin::decode(seen.tag(), seen.payload()), seen);
    assert_eq!(RelationTypeOrigin::decode(declared.tag(), declared.payload()), declared);
    assert_eq!(RelationTypeOrigin::decode(0, 0x1_0000_0005), RelationTypeOrigin::SchemaDeclared { version: 5 });
    assert_eq!(RelationTypeOrigin::decode(7, 5), RelationTypeOrigin::SchemaDeclared { version: 0 });
    assert!(declared.is_schema_declared());
    assert!(!seen.is_schema_declared());
}

// Relation types.

fn relation_type() -> RelationType {
    RelationType {
        id: RelationTypeId(3),
        namespace: "acme".to_string(),
        name: "reports_to".to_string(),
        cardinality: Cardinality::ManyToOne,
        is_symmetric: false,
        from_type: Some(EntityTypeId(1)),
        to_type: Some(EntityTypeId(1)),
        schema_version: 1,
        description: "Reports-to chain".to_string(),
    }
}

#[test]
fn relation_type_round_trip() {
    let dir = tempfile::tempdir().unwrap();
    let mut db = plain_db(&dir);
    let rt = relation_type();
    let row = RelationTypeDefinition::from_relation_type(&rt, T0);
    let key = make_number_key(row.relation_type_id);
    let mut wtxn = begin_change(&db).unwrap();
    save(&mut wtxn, Table::RelationTypes, &key, &row).unwrap();
    put(&mut wtxn, Table::RelationTypesByQname, b"acme:reports_to", &key).unwrap();
    commit_change(&mut db, wtxn).unwrap();

    let got: RelationTypeDefinition = row_at(&db, Table::RelationTypes, &key).unwrap();
    assert_eq!(got, row);
    assert_eq!(got.to_relation_type(), rt);
    assert_eq!(got.cardinality(), Some(Cardinality::ManyToOne));
    assert!(!got.is_symmetric());

    let rtxn = begin_snapshot(&db).unwrap();
    let by_qname = read(&rtxn, Table::RelationTypesByQname, b"acme:reports_to").unwrap().unwrap();
    assert_eq!(by_qname, key);
}

#[test]
fn entity_type_id_sentinel_round_trip() {
    assert_eq!(decode_entity_type_id(0), None);
    assert_eq!(decode_entity_type_id(1), Some(EntityTypeId(1)));
    assert_eq!(decode_entity_type_id(42), Some(EntityTypeId(42)));

    assert_eq!(encode_entity_type_id(None), 0);
    assert_eq!(encode_entity_type_id(Some(EntityTypeId(1))), 1);
    assert_eq!(encode_entity_type_id(Some(EntityTypeId(42))), 42);
}

#[test]
fn an_unknown_cardinality_is_read_as_many_to_many() {
    let mut row = RelationTypeDefinition::from_relation_type(&relation_type(), T0);
    row.cardinality = 200;
    assert_eq!(row.cardinality(), None);
    assert_eq!(row.to_relation_type().cardinality, Cardinality::ManyToMany);
}

// Relations.

fn sample_relation() -> Relation {
    Relation::new_root(
        RelationId([0x21; 16]),
        RelationTypeId(3),
        EntityId([0x22; 16]),
        EntityId([0x23; 16]),
        f(0.9),
        vec![],
        ExtractorId(0),
        T0,
        false,
    )
}

#[test]
fn sidecar_metadata_round_trips() {
    let dir = tempfile::tempdir().unwrap();
    let mut db = plain_db(&dir);
    let r = sample_relation();
    let row = metadata_from_relation(&r, test_scope());
    let key = r.id.to_bytes();
    put_row(&mut db, Table::RelationMetadata, &key, &row);
    let got: RelationMetadata = row_at(&db, Table::RelationMetadata, &key).unwrap();
    assert_eq!(got, row);
    assert!(got.is_current());
    assert!(!got.is_symmetric());
    assert_eq!(got.scope(), test_scope());

    let back = relation_from_metadata(r.id, &got);
    assert_eq!(back, r);
}

#[test]
fn a_relation_keeps_its_evidence_and_its_chain() {
    let mut r = sample_relation();
    r.evidence = vec![MemoryId::pack(1, 5, 1), MemoryId::pack(1, 6, 1)];
    r.version = 2;
    r.supersedes = Some(RelationId([0x24; 16]));
    r.superseded_by = Some(RelationId([0x25; 16]));
    r.chain_root = RelationId([0x24; 16]);
    r.valid_to_unix_nanos = Some(T0 + 5);
    r.properties_blob = vec![1, 2, 3];
    let row = metadata_from_relation(&r, test_scope());
    assert!(!row.is_current());
    assert_eq!(row.chain_root(), RelationId([0x24; 16]));
    assert_eq!(row.source_node(), Ok(NodeRef::Entity(r.from_entity)));
    assert_eq!(relation_from_metadata(r.id, &row), r);
}

#[test]
fn endpoint_projection_recovers_entity_pair() {
    let r = sample_relation();
    let row = metadata_from_relation(&r, test_scope());
    let (a, b) = row.entity_endpoints().unwrap();
    assert_eq!(a, r.from_entity);
    assert_eq!(b, r.to_entity);
}

#[test]
fn relation_evidence_index_round_trip() {
    let dir = tempfile::tempdir().unwrap();
    let mut db = plain_db(&dir);
    let key = make_relation_evidence_key(&test_scope(), [7u8; 16], RelationId([0x26; 16]));
    let mut wtxn = begin_change(&db).unwrap();
    put(&mut wtxn, Table::RelationByEvidence, &key, &[]).unwrap();
    commit_change(&mut db, wtxn).unwrap();
    let rtxn = begin_snapshot(&db).unwrap();
    assert!(read(&rtxn, Table::RelationByEvidence, &key).unwrap().is_some());
}
