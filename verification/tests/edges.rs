//! Edges: keys, linking, unlinking and walks.

use brain_metadata::catalog::Table;
use brain_metadata::store::{begin_change, begin_snapshot, commit_change, count, put};
use brain_metadata::tables::edge::{
    derived_by, edge_get, link, list_memory_edges_from, list_memory_edges_to, origin, unlink, walk_incoming,
    walk_outgoing, zero_disambiguator, EdgeData, EdgeKey, EdgeKeyError, EdgeKind, EdgeKindRef, EdgeKindRefError,
    EdgeOpError, NodeRef, NodeRefError,
};
use brain_metadata::types::{EntityId, MemoryId, RelationId, RelationTypeId, F32};
use redb::Database;

fn mid(slot: u64) -> MemoryId {
    MemoryId::pack(1, slot, 1)
}

fn eid(byte: u8) -> EntityId {
    let mut b = [0u8; 16];
    b[15] = byte;
    EntityId::from_bytes(b)
}

fn rid(byte: u8) -> RelationId {
    let mut b = [0u8; 16];
    b[15] = byte;
    RelationId::from_bytes(b)
}

fn fresh_db(dir: &tempfile::TempDir) -> Database {
    Database::create(dir.path().join("test.redb")).unwrap()
}

fn data(weight: f32) -> EdgeData {
    EdgeData::new(F32 { bits: weight.to_bits() }, origin::EXPLICIT, derived_by::CLIENT, 1_700_000_000_000_000_000)
}

fn mem_node(slot: u64) -> NodeRef {
    NodeRef::Memory(mid(slot))
}

fn ent_node(byte: u8) -> NodeRef {
    NodeRef::Entity(eid(byte))
}

fn typed(n: u32) -> EdgeKindRef {
    EdgeKindRef::Typed(RelationTypeId(n))
}

const CAUSED: EdgeKindRef = EdgeKindRef::Builtin(EdgeKind::Caused);

fn link_all(db: &mut Database, edges: &[(NodeRef, EdgeKindRef, NodeRef, [u8; 16])], d: &EdgeData) {
    let mut wtxn = begin_change(db).unwrap();
    for (from, kind, to, disambiguator) in edges {
        link(&mut wtxn, *from, *kind, *to, *disambiguator, d).unwrap();
    }
    commit_change(db, wtxn).unwrap();
}

fn unlink_one(db: &mut Database, from: NodeRef, kind: EdgeKindRef, to: NodeRef) -> bool {
    let mut wtxn = begin_change(db).unwrap();
    let found = unlink(&mut wtxn, from, kind, to, zero_disambiguator()).unwrap();
    commit_change(db, wtxn).unwrap();
    found
}

fn counts(db: &Database) -> (u64, u64) {
    let rtxn = begin_snapshot(db).unwrap();
    (count(&rtxn, Table::Edges).unwrap(), count(&rtxn, Table::EdgesReverse).unwrap())
}

// Keys.

#[test]
fn edge_key_roundtrip_builtin_memory_memory() {
    let key = EdgeKey { from: mem_node(1), kind: CAUSED, to: mem_node(2), disambiguator: zero_disambiguator() };
    let bytes = key.encode();
    assert_eq!(bytes.len(), 17 + 2 + 17 + 16);
    assert_eq!(key.encoded_len(), bytes.len());
    let back = EdgeKey::decode(&bytes).unwrap();
    assert_eq!(back, key);
}

#[test]
fn edge_key_roundtrip_mentions_memory_entity() {
    let key = EdgeKey {
        from: mem_node(1),
        kind: EdgeKindRef::Mentions,
        to: ent_node(0xAA),
        disambiguator: zero_disambiguator(),
    };
    let bytes = key.encode();
    assert_eq!(bytes.len(), 17 + 1 + 17 + 16);
    assert_eq!(EdgeKey::decode(&bytes).unwrap(), key);
}

#[test]
fn edge_key_roundtrip_typed_entity_entity() {
    let key = EdgeKey {
        from: ent_node(0xAA),
        kind: typed(7),
        to: ent_node(0xBB),
        disambiguator: rid(0x42).to_bytes(),
    };
    let bytes = key.encode();
    assert_eq!(bytes.len(), 17 + 5 + 17 + 16);
    assert_eq!(EdgeKey::decode(&bytes).unwrap(), key);
}

#[test]
fn edge_key_decode_rejects_trailing_bytes() {
    let key = EdgeKey { from: mem_node(1), kind: CAUSED, to: mem_node(2), disambiguator: zero_disambiguator() };
    let mut bytes = key.encode();
    bytes.push(0);
    match EdgeKey::decode(&bytes) {
        Err(EdgeKeyError::Trailing(1)) => {}
        other => panic!("expected Trailing(1), got {other:?}"),
    }
}

#[test]
fn what_is_no_key_is_refused() {
    let key = EdgeKey { from: mem_node(1), kind: CAUSED, to: mem_node(2), disambiguator: zero_disambiguator() };
    let bytes = key.encode();
    assert_eq!(EdgeKey::decode(&bytes[..16]), Err(EdgeKeyError::Short(16)));
    assert_eq!(EdgeKey::decode(&bytes[..17]), Err(EdgeKeyError::BadEdgeKind(EdgeKindRefError::Short)));
    assert_eq!(EdgeKey::decode(&bytes[..51]), Err(EdgeKeyError::Short(51)));
    let mut bad = bytes.clone();
    bad[0] = 9;
    assert_eq!(EdgeKey::decode(&bad), Err(EdgeKeyError::BadNodeRef(NodeRefError::UnknownTag(9))));
    let mut bad = bytes.clone();
    bad[17] = 3;
    assert_eq!(EdgeKey::decode(&bad), Err(EdgeKeyError::BadEdgeKind(EdgeKindRefError::UnknownTag(3))));
    let mut bad = bytes.clone();
    bad[18] = 8;
    assert_eq!(EdgeKey::decode(&bad), Err(EdgeKeyError::BadEdgeKind(EdgeKindRefError::UnknownBuiltin(8))));
    let mut bad = bytes;
    bad[19] = 7;
    assert_eq!(EdgeKey::decode(&bad), Err(EdgeKeyError::BadNodeRef(NodeRefError::UnknownTag(7))));
}

fn some_kinds() -> Vec<EdgeKindRef> {
    let mut kinds: Vec<EdgeKindRef> = (0u8..8).map(|b| EdgeKindRef::Builtin(EdgeKind::from_u8(b).unwrap())).collect();
    kinds.push(EdgeKindRef::Mentions);
    for n in [0, 1, 255, 256, u32::MAX] {
        kinds.push(typed(n));
    }
    kinds
}

#[test]
fn edge_key_codec_roundtrip() {
    for kind in some_kinds() {
        for (from, to) in [(mem_node(1), ent_node(2)), (ent_node(0), mem_node(9)), (ent_node(3), ent_node(3))] {
            let key = EdgeKey { from, kind, to, disambiguator: [0x7f; 16] };
            assert_eq!(EdgeKey::decode(&key.encode()).unwrap(), key);
        }
    }
}

#[test]
fn encoded_byte_order_matches_natural_tuple_order() {
    // Sources, labels, targets and disambiguators, each list in its own order.
    let nodes = [mem_node(1), mem_node(2), ent_node(0), ent_node(1)];
    let mut keys: Vec<EdgeKey> = Vec::new();
    for from in nodes {
        for kind in some_kinds() {
            for to in nodes {
                for disambiguator in [[0u8; 16], [1u8; 16]] {
                    keys.push(EdgeKey { from, kind, to, disambiguator });
                }
            }
        }
    }
    for pair in keys.windows(2) {
        assert!(pair[0].encode() < pair[1].encode(), "{:?} before {:?}", pair[0], pair[1]);
    }
}

// Linking.

#[test]
fn link_memory_memory_then_walk_outgoing() {
    let dir = tempfile::tempdir().unwrap();
    let mut db = fresh_db(&dir);
    let d = data(0.7);
    let (a, b) = (mid(1), mid(2));
    link_all(&mut db, &[(NodeRef::Memory(a), CAUSED, NodeRef::Memory(b), zero_disambiguator())], &d);

    let rtxn = begin_snapshot(&db).unwrap();
    let outs = walk_outgoing(&rtxn, NodeRef::Memory(a), None).unwrap();
    assert_eq!(outs.len(), 1);
    assert_eq!(outs[0].0, EdgeKindRef::Builtin(EdgeKind::Caused));
    assert_eq!(outs[0].1, NodeRef::Memory(b));
    assert_eq!(outs[0].3, d);
}

#[test]
fn symmetric_builtin_writes_four_rows() {
    let dir = tempfile::tempdir().unwrap();
    let mut db = fresh_db(&dir);
    let similar = EdgeKindRef::Builtin(EdgeKind::SimilarTo);
    link_all(&mut db, &[(mem_node(10), similar, mem_node(20), zero_disambiguator())], &data(0.9));
    assert_eq!(counts(&db), (2, 2));
}

#[test]
fn symmetric_self_loop_writes_one_pair() {
    let dir = tempfile::tempdir().unwrap();
    let mut db = fresh_db(&dir);
    let similar = EdgeKindRef::Builtin(EdgeKind::SimilarTo);
    link_all(&mut db, &[(mem_node(42), similar, mem_node(42), zero_disambiguator())], &data(0.9));
    assert_eq!(counts(&db), (1, 1));
}

#[test]
fn asymmetric_builtin_writes_one_pair() {
    let dir = tempfile::tempdir().unwrap();
    let mut db = fresh_db(&dir);
    link_all(&mut db, &[(mem_node(1), CAUSED, mem_node(2), zero_disambiguator())], &data(1.0));
    assert_eq!(counts(&db), (1, 1));
}

#[test]
fn typed_edge_does_not_auto_mirror() {
    let dir = tempfile::tempdir().unwrap();
    let mut db = fresh_db(&dir);
    link_all(&mut db, &[(ent_node(0xAA), typed(3), ent_node(0xBB), rid(0x55).to_bytes())], &data(0.8));
    assert_eq!(counts(&db).0, 1, "no mirror");
}

#[test]
fn memory_entity_edge_roundtrips() {
    let dir = tempfile::tempdir().unwrap();
    let mut db = fresh_db(&dir);
    let (m, e) = (mid(7), eid(0x33));
    link_all(
        &mut db,
        &[(NodeRef::Memory(m), EdgeKindRef::Mentions, NodeRef::Entity(e), zero_disambiguator())],
        &data(1.0),
    );

    let rtxn = begin_snapshot(&db).unwrap();
    let outs = walk_outgoing(&rtxn, NodeRef::Memory(m), None).unwrap();
    assert_eq!(outs.len(), 1);
    assert_eq!(outs[0].0, EdgeKindRef::Mentions);
    assert_eq!(outs[0].1, NodeRef::Entity(e));

    let ins = walk_incoming(&rtxn, NodeRef::Entity(e), None).unwrap();
    assert_eq!(ins.len(), 1);
    assert_eq!(ins[0].1, NodeRef::Memory(m));
}

#[test]
fn entity_entity_typed_edge_roundtrips() {
    let dir = tempfile::tempdir().unwrap();
    let mut db = fresh_db(&dir);
    let d = data(0.95);
    let rel = rid(0x77);
    link_all(&mut db, &[(ent_node(0xAA), typed(11), ent_node(0xBB), rel.to_bytes())], &d);

    let rtxn = begin_snapshot(&db).unwrap();
    let got = edge_get(&rtxn, ent_node(0xAA), typed(11), ent_node(0xBB), rel.to_bytes()).unwrap().unwrap();
    assert_eq!(got, d);
    let other = edge_get(&rtxn, ent_node(0xAA), typed(11), ent_node(0xBB), zero_disambiguator()).unwrap();
    assert_eq!(other, None);
}

#[test]
fn prefix_scan_sort_substrate_first() {
    let dir = tempfile::tempdir().unwrap();
    let mut db = fresh_db(&dir);
    let a = mem_node(1);
    // Linked in another order than that of the labels.
    link_all(
        &mut db,
        &[
            (a, typed(5), ent_node(0xAA), rid(0x10).to_bytes()),
            (a, EdgeKindRef::Mentions, ent_node(0xAA), zero_disambiguator()),
            (a, CAUSED, mem_node(2), zero_disambiguator()),
        ],
        &data(1.0),
    );

    let rtxn = begin_snapshot(&db).unwrap();
    let outs = walk_outgoing(&rtxn, a, None).unwrap();
    assert_eq!(outs.len(), 3);
    assert!(matches!(outs[0].0, EdgeKindRef::Builtin(EdgeKind::Caused)));
    assert!(matches!(outs[1].0, EdgeKindRef::Mentions));
    assert!(matches!(outs[2].0, EdgeKindRef::Typed(_)));
}

#[test]
fn walk_outgoing_kind_filter_typed_returns_only_typed() {
    let dir = tempfile::tempdir().unwrap();
    let mut db = fresh_db(&dir);
    let a = ent_node(0xAA);
    link_all(
        &mut db,
        &[
            (a, typed(9), ent_node(0xBB), rid(0x01).to_bytes()),
            (a, typed(9), ent_node(0xCC), rid(0x02).to_bytes()),
            // A different type.
            (a, typed(99), ent_node(0xBB), rid(0x99).to_bytes()),
        ],
        &data(1.0),
    );

    let rtxn = begin_snapshot(&db).unwrap();
    let outs = walk_outgoing(&rtxn, a, Some(typed(9))).unwrap();
    assert_eq!(outs.len(), 2);
    for (kind, _, _, _) in &outs {
        assert_eq!(*kind, typed(9));
    }
}

#[test]
fn unlink_returns_false_when_absent() {
    let dir = tempfile::tempdir().unwrap();
    let mut db = fresh_db(&dir);
    assert!(!unlink_one(&mut db, mem_node(1), CAUSED, mem_node(2)));
}

#[test]
fn unlink_first_true_second_false() {
    let dir = tempfile::tempdir().unwrap();
    let mut db = fresh_db(&dir);
    link_all(&mut db, &[(mem_node(1), CAUSED, mem_node(2), zero_disambiguator())], &data(1.0));
    assert!(unlink_one(&mut db, mem_node(1), CAUSED, mem_node(2)));
    assert!(!unlink_one(&mut db, mem_node(1), CAUSED, mem_node(2)));
}

#[test]
fn list_memory_edges_from_filters_non_memory_neighbours() {
    let dir = tempfile::tempdir().unwrap();
    let mut db = fresh_db(&dir);
    let (a, b) = (mid(1), mid(2));
    link_all(
        &mut db,
        &[
            (NodeRef::Memory(a), CAUSED, NodeRef::Memory(b), zero_disambiguator()),
            (NodeRef::Memory(a), EdgeKindRef::Mentions, ent_node(0xAA), zero_disambiguator()),
        ],
        &data(1.0),
    );

    let rtxn = begin_snapshot(&db).unwrap();
    let rows = list_memory_edges_from(&rtxn, a, None).unwrap();
    assert_eq!(rows.len(), 1);
    assert_eq!(rows[0].0, EdgeKind::Caused);
    assert_eq!(rows[0].1, b);

    let rows = list_memory_edges_to(&rtxn, b, Some(EdgeKind::Caused)).unwrap();
    assert_eq!(rows.len(), 1);
    assert_eq!(rows[0].1, a);
    assert!(list_memory_edges_to(&rtxn, b, Some(EdgeKind::Supports)).unwrap().is_empty());
}

#[test]
fn walk_outgoing_in_sync_with_walk_incoming() {
    for kind in some_kinds() {
        let dir = tempfile::tempdir().unwrap();
        let mut db = fresh_db(&dir);
        let (from, to) = (mem_node(3), ent_node(4));
        link_all(&mut db, &[(from, kind, to, [5; 16])], &data(0.25));
        let rtxn = begin_snapshot(&db).unwrap();
        let outs = walk_outgoing(&rtxn, from, None).unwrap();
        let ins = walk_incoming(&rtxn, to, None).unwrap();
        assert!(outs.iter().any(|(k, n, ds, _)| *k == kind && *n == to && *ds == [5; 16]));
        assert!(ins.iter().any(|(k, n, ds, _)| *k == kind && *n == from && *ds == [5; 16]));
    }
}

#[test]
fn link_then_unlink_is_identity() {
    for kind in some_kinds() {
        let dir = tempfile::tempdir().unwrap();
        let mut db = fresh_db(&dir);
        let mut wtxn = begin_change(&db).unwrap();
        link(&mut wtxn, mem_node(3), kind, mem_node(4), [6; 16], &data(0.5)).unwrap();
        assert!(unlink(&mut wtxn, mem_node(3), kind, mem_node(4), [6; 16]).unwrap());
        commit_change(&mut db, wtxn).unwrap();
        assert_eq!(counts(&db), (0, 0));
    }
}

#[test]
fn symmetric_builtin_auto_mirror_4_row_pattern() {
    for k in [EdgeKind::SimilarTo, EdgeKind::Contradicts] {
        let dir = tempfile::tempdir().unwrap();
        let mut db = fresh_db(&dir);
        let (a, b) = (mem_node(1), mem_node(2));
        link_all(&mut db, &[(a, EdgeKindRef::Builtin(k), b, zero_disambiguator())], &data(0.7));
        assert_eq!(counts(&db).0, 2, "{k:?}: forward (a,b)+(b,a)");
        assert_eq!(counts(&db).1, 2, "{k:?}: reverse mirrors");

        let rtxn = begin_snapshot(&db).unwrap();
        let outs_a = walk_outgoing(&rtxn, a, None).unwrap();
        let outs_b = walk_outgoing(&rtxn, b, None).unwrap();
        let ins_a = walk_incoming(&rtxn, a, None).unwrap();
        let ins_b = walk_incoming(&rtxn, b, None).unwrap();
        assert!(outs_a.iter().any(|(_, n, _, _)| *n == b), "{k:?}: from a");
        assert!(outs_b.iter().any(|(_, n, _, _)| *n == a), "{k:?}: from b");
        assert!(ins_a.iter().any(|(_, n, _, _)| *n == b), "{k:?}: to a");
        assert!(ins_b.iter().any(|(_, n, _, _)| *n == a), "{k:?}: to b");
    }
}

#[test]
fn symmetric_self_loop_writes_one_forward_one_reverse() {
    let dir = tempfile::tempdir().unwrap();
    let mut db = fresh_db(&dir);
    let a = mem_node(42);
    link_all(&mut db, &[(a, EdgeKindRef::Builtin(EdgeKind::SimilarTo), a, zero_disambiguator())], &data(0.9));
    assert_eq!(counts(&db), (1, 1));

    let rtxn = begin_snapshot(&db).unwrap();
    let outs = walk_outgoing(&rtxn, a, None).unwrap();
    let ins = walk_incoming(&rtxn, a, None).unwrap();
    assert_eq!(outs.len(), 1);
    assert_eq!(ins.len(), 1);
    assert_eq!(outs[0].1, a);
    assert_eq!(ins[0].1, a);
}

#[test]
fn mention_edge_is_asymmetric_no_auto_mirror() {
    let dir = tempfile::tempdir().unwrap();
    let mut db = fresh_db(&dir);
    let memory = mem_node(1);
    let entity = ent_node(0xAA);
    link_all(&mut db, &[(memory, EdgeKindRef::Mentions, entity, zero_disambiguator())], &data(0.9));
    assert_eq!(counts(&db).0, 1, "no auto-mirror forward");
    assert_eq!(counts(&db).1, 1, "no auto-mirror reverse");

    let rtxn = begin_snapshot(&db).unwrap();
    let outs_m = walk_outgoing(&rtxn, memory, None).unwrap();
    assert_eq!(outs_m.len(), 1);
    assert_eq!(outs_m[0].1, entity);
    let outs_e = walk_outgoing(&rtxn, entity, None).unwrap();
    assert!(outs_e.is_empty(), "entity should have no outgoing Mention");
    let ins_e = walk_incoming(&rtxn, entity, None).unwrap();
    assert_eq!(ins_e.len(), 1);
    assert_eq!(ins_e[0].1, memory);
    let ins_m = walk_incoming(&rtxn, memory, None).unwrap();
    assert!(ins_m.is_empty(), "memory should have no incoming Mention");
}

#[test]
fn all_builtin_kinds_roundtrip_through_codec() {
    for k in [
        EdgeKind::Caused,
        EdgeKind::FollowedBy,
        EdgeKind::DerivedFrom,
        EdgeKind::SimilarTo,
        EdgeKind::Contradicts,
        EdgeKind::Supports,
        EdgeKind::References,
        EdgeKind::PartOf,
    ] {
        for disamb in [zero_disambiguator(), [0xFFu8; 16], {
            let mut b = [0u8; 16];
            b[0] = 0xAB;
            b[15] = 0xCD;
            b
        }] {
            let key = EdgeKey {
                from: mem_node(1),
                kind: EdgeKindRef::Builtin(k),
                to: mem_node(2),
                disambiguator: disamb,
            };
            let bytes = key.encode();
            assert_eq!(EdgeKey::decode(&bytes).unwrap(), key, "{k:?}/{disamb:?}");
        }
    }
}

#[test]
fn damaged_edges_are_told() {
    let dir = tempfile::tempdir().unwrap();
    let mut db = fresh_db(&dir);
    let key = EdgeKey { from: mem_node(1), kind: CAUSED, to: mem_node(2), disambiguator: zero_disambiguator() };
    let mut wtxn = begin_change(&db).unwrap();
    put(&mut wtxn, Table::Edges, &key.encode(), b"?").unwrap();
    put(&mut wtxn, Table::EdgesReverse, &mem_node(2).to_bytes(), b"?").unwrap();
    commit_change(&mut db, wtxn).unwrap();
    let rtxn = begin_snapshot(&db).unwrap();
    assert!(matches!(
        edge_get(&rtxn, mem_node(1), CAUSED, mem_node(2), zero_disambiguator()),
        Err(EdgeOpError::Corrupt)
    ));
    assert!(matches!(walk_outgoing(&rtxn, mem_node(1), None), Err(EdgeOpError::Corrupt)));
    assert!(matches!(walk_incoming(&rtxn, mem_node(2), None), Err(EdgeOpError::KeyDecode(_))));
}
