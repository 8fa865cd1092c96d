//! Applying the records of the log to the tables.
//!
//! Each record is applied in a write transaction of its own. Applying a record
//! again leaves the tables as the first time did, so a log can be replayed from
//! any point before the last record that was seen.

use std::collections::HashMap;

use redb::{Database, ReadTransaction, WriteTransaction};
use vstd::prelude::*;
use vstd::utf8::encode_utf8;

use crate::bytes::{get_bytes, zero_bytes, zeros};
use crate::catalog::{complete, Table};
use crate::collect::{collect, lemma_collect_fails, lemma_collect_step};
use crate::redb_txn::{database_tables, read_tables, write_tables};
use crate::row::{from_bytes, image, load, parsed, save, slot, LoadError, Row, Slot};
use crate::storage_version::{
    open_or_init_schema, opened_tables, stamped, stored_version, SchemaError, CURRENT_SCHEMA_VERSION,
};
use crate::store::{
    begin_change, begin_snapshot, commit_change, ddb, del, entry_models, get, rdb, scan, scan_prefix, scanned,
    tables_kept, wdb, Db,
};
use crate::tables::checkpoint::{checkpoint_key, latest, latest_slot, make_checkpoint_key, CheckpointMeta};
use crate::tables::edge::{derived_by, link, linked, unlink, unlinked, EdgeData, EdgeDataModel, EdgeKey, EdgeKind};
use crate::tables::edge::{origin, EdgeKindRef, EdgeOpError, NodeRef};
use crate::tables::idempotency::{response_kind, IdempotencyEntry, IdempotencyModel};
use crate::tables::memory::{active_memory, flags, memory_kind_byte, memory_kind_to_u8, MemoryKind, MemoryMetadata};
use crate::tables::model_fingerprint::ModelInfo;
use crate::tables::next_lsn::{bump_next_lsn_in_txn, bumped};
use crate::tables::slot_version::{set_slot_version, versioned};
use crate::tables::text::{put_text, with_text};
use crate::types::{slot_of, version_of, AgentId, ContextId, MemoryId, RequestId, F32};
use crate::wal::{
    CheckpointEndPayload, ConsolidatePayload, EdgeOrigin, EdgePayload, EncodePayload, ForgetPayload, LinkPayload,
    MigrateEmbeddingPayload, ReclaimPayload, SalienceUpdate, UnlinkPayload, UpdateContextPayload, UpdateKindPayload,
    UpdateSaliencePayload, WalPayload,
};

pub mod laws;

verus! {

broadcast use vstd::std_specs::hash::group_hash_axioms;

/// A record could not be applied. The transaction was given up, so the tables
/// are as before, unless it was the commit itself that failed.
#[derive(Debug)]
pub enum MetadataSinkError {
    Transient(LoadError),
}

/// How the result of a change inside a transaction stands to what it should
/// come to.
pub open spec fn agrees(r: Result<(), LoadError>, want: Result<Db, ()>, got: Db) -> bool {
    match r {
        Ok(()) => want == Ok::<_, ()>(got),
        Err(LoadError::Corrupt) => want is Err,
        Err(LoadError::Storage(_)) => true,
    }
}

fn stored(r: Result<(), redb::Error>) -> (res: Result<(), LoadError>)
    ensures
        res is Ok <==> r is Ok,
        res matches Err(e) ==> e is Storage,
{
    match r {
        Ok(()) => Ok(()),
        Err(e) => Err(LoadError::Storage(e)),
    }
}

// Single steps.

/// The size of a text in bytes, as far as it can be told.
pub open spec fn text_size(text: Seq<char>) -> u32 {
    if encode_utf8(text).len() <= u32::MAX {
        encode_utf8(text).len() as u32
    } else {
        u32::MAX
    }
}

fn size_of_text(text: &String) -> (r: u32)
    ensures
        r == text_size(text@),
{
    let n: usize = text.as_str().as_bytes().len();
    if n <= 0xffff_ffff {
        n as u32
    } else {
        u32::MAX
    }
}

/// The state with a memory.
pub open spec fn with_memory(db: Db, id: MemoryId, m: MemoryMetadata) -> Db {
    db.insert((Table::Memories, id.0@), image::<MemoryMetadata>(m))
}

fn put_memory(wtxn: &mut WriteTransaction, id: MemoryId, m: &MemoryMetadata) -> (r: Result<(), LoadError>)
    ensures
        tables_kept(*old(wtxn), *final(wtxn)),
        r is Ok ==> wdb(*final(wtxn)) == with_memory(wdb(*old(wtxn)), id, *m),
        r matches Err(e) ==> e is Storage,
{
    stored(save(wtxn, Table::Memories, id.0.as_slice(), m))
}

/// The state in which a memory, if it is there, is `f` of what it was.
pub open spec fn memory_changed(db: Db, id: MemoryId, f: spec_fn(MemoryMetadata) -> MemoryMetadata) -> Result<Db, ()> {
    match slot::<MemoryMetadata>(db, Table::Memories, id.0@) {
        Slot::Absent => Ok(db),
        Slot::Corrupt => Err(()),
        Slot::Row(m) => Ok(with_memory(db, id, f(m))),
    }
}

/// The entry that a record leaves for its request. The log does not carry the
/// request itself, so its hash is zero.
pub open spec fn record_entry(kind: u8, id: MemoryId, ts: u64, lsn: u64) -> IdempotencyModel {
    IdempotencyEntry {
        response_kind: kind,
        memory_id_bytes: Some(id.0),
        response_payload: Seq::empty(),
        request_hash: zeros::<32>(),
        created_at_unix_nanos: ts,
        lsn,
    }
}

/// The state with the entry of a request.
pub open spec fn with_entry(db: Db, request: RequestId, kind: u8, id: MemoryId, ts: u64, lsn: u64) -> Db {
    db.insert((Table::Idempotency, request.0@), image::<IdempotencyEntry>(record_entry(kind, id, ts, lsn)))
}

fn put_entry(wtxn: &mut WriteTransaction, request: RequestId, kind: u8, id: MemoryId, ts: u64, lsn: u64) -> (r: Result<
    (),
    LoadError,
>)
    ensures
        tables_kept(*old(wtxn), *final(wtxn)),
        r is Ok ==> wdb(*final(wtxn)) == with_entry(wdb(*old(wtxn)), request, kind, id, ts, lsn),
        r matches Err(e) ==> e is Storage,
{
    let empty: Vec<u8> = Vec::new();
    proof {
        assert(empty@ =~= Seq::<u8>::empty());
    }
    let entry = IdempotencyEntry::new(kind, Some(id.0), empty, zero_bytes::<32>(), ts, lsn);
    stored(save(wtxn, Table::Idempotency, request.0.as_slice(), &entry))
}

/// The state in which a model was seen. The log carries no name of it.
pub open spec fn model_seen(db: Db, fp: [u8; 16], ts: u64) -> Db {
    if db.dom().contains((Table::ModelFingerprints, fp@)) {
        db
    } else {
        db.insert(
            (Table::ModelFingerprints, fp@),
            image::<ModelInfo>(
                ModelInfo {
                    model_name: Seq::<char>::empty(),
                    seen_at_unix_nanos: ts,
                    memory_count_at_fingerprint: 0,
                },
            ),
        )
    }
}

fn see_model(wtxn: &mut WriteTransaction, fp: [u8; 16], ts: u64) -> (r: Result<(), LoadError>)
    ensures
        tables_kept(*old(wtxn), *final(wtxn)),
        r is Ok ==> wdb(*final(wtxn)) == model_seen(wdb(*old(wtxn)), fp, ts),
        r matches Err(e) ==> e is Storage,
{
    match get(wtxn, Table::ModelFingerprints, fp.as_slice()) {
        Err(e) => Err(LoadError::Storage(e)),
        Ok(Some(_)) => Ok(()),
        Ok(None) => {
            proof {
                reveal_strlit("");
                assert(""@ =~= Seq::<char>::empty());
            }
            let info = ModelInfo::new("".to_owned(), ts);
            stored(save(wtxn, Table::ModelFingerprints, fp.as_slice(), &info))
        },
    }
}

/// The byte of an edge's origin.
pub open spec fn origin_byte(o: EdgeOrigin) -> u8 {
    match o {
        EdgeOrigin::Explicit => origin::EXPLICIT,
        EdgeOrigin::AutoDerived => origin::AUTO_DERIVED,
    }
}

fn origin_to_u8(o: EdgeOrigin) -> (r: u8)
    ensures
        r == origin_byte(o),
{
    match o {
        EdgeOrigin::Explicit => origin::EXPLICIT,
        EdgeOrigin::AutoDerived => origin::AUTO_DERIVED,
    }
}

/// The key of an edge between memories.
pub open spec fn memory_edge_key(source: MemoryId, kind: EdgeKind, target: MemoryId) -> EdgeKey {
    EdgeKey {
        from: NodeRef::Memory(source),
        kind: EdgeKindRef::Builtin(kind),
        to: NodeRef::Memory(target),
        disambiguator: zeros::<16>(),
    }
}

/// What is stored of an edge of a record.
pub open spec fn record_edge_data(weight: F32, o: EdgeOrigin, ts: u64) -> EdgeDataModel {
    EdgeData {
        weight,
        origin: origin_byte(o),
        derived_by: derived_by::CLIENT,
        created_at_unix_nanos: ts,
        annotation: None,
    }
}

/// The state with an edge between memories.
pub open spec fn memories_linked(
    db: Db,
    source: MemoryId,
    kind: EdgeKind,
    target: MemoryId,
    weight: F32,
    o: EdgeOrigin,
    ts: u64,
) -> Db {
    linked(db, memory_edge_key(source, kind, target), image::<EdgeData>(record_edge_data(weight, o, ts)))
}

fn link_memories(
    wtxn: &mut WriteTransaction,
    source: MemoryId,
    kind: EdgeKind,
    target: MemoryId,
    weight: F32,
    o: EdgeOrigin,
    ts: u64,
) -> (r: Result<(), LoadError>)
    ensures
        tables_kept(*old(wtxn), *final(wtxn)),
        r is Ok ==> wdb(*final(wtxn)) == memories_linked(wdb(*old(wtxn)), source, kind, target, weight, o, ts),
        r matches Err(e) ==> e is Storage,
{
    let data = EdgeData::new(weight, origin_to_u8(o), derived_by::CLIENT, ts);
    match link(
        wtxn,
        NodeRef::Memory(source),
        EdgeKindRef::Builtin(kind),
        NodeRef::Memory(target),
        zero_bytes::<16>(),
        &data,
    ) {
        Ok(()) => Ok(()),
        Err(EdgeOpError::Storage(e)) => Err(LoadError::Storage(e)),
        Err(_) => Err(LoadError::Corrupt),
    }
}

/// The state with the edges of a new memory.
pub open spec fn edges_linked(db: Db, edges: Seq<EdgePayload>, ts: u64) -> Db
    decreases edges.len(),
{
    if edges.len() == 0 {
        db
    } else {
        let e = edges.last();
        memories_linked(edges_linked(db, edges.drop_last(), ts), e.source, e.kind, e.target, e.weight, e.origin, ts)
    }
}

fn link_all(wtxn: &mut WriteTransaction, edges: &Vec<EdgePayload>, ts: u64) -> (r: Result<(), LoadError>)
    ensures
        tables_kept(*old(wtxn), *final(wtxn)),
        edges@.len() == 0 ==> r is Ok,
        r is Ok ==> wdb(*final(wtxn)) == edges_linked(wdb(*old(wtxn)), edges@, ts),
        r matches Err(e) ==> e is Storage,
{
    let ghost db = wdb(*wtxn);
    let mut i: usize = 0;
    while i < edges.len()
        invariant
            tables_kept(*old(wtxn), *wtxn),
            i <= edges.len(),
            wdb(*wtxn) == edges_linked(db, edges@.take(i as int), ts),
        decreases edges.len() - i,
    {
        let e = edges[i];
        link_memories(wtxn, e.source, e.kind, e.target, e.weight, e.origin, ts)?;
        i = i + 1;
        proof {
            assert(edges@.take(i as int).drop_last() =~= edges@.take(i as int - 1));
        }
    }
    proof {
        assert(edges@.take(i as int) =~= edges@);
    }
    Ok(())
}

// The records.

/// What a new memory leaves: its row, its text, an entry for its request, its
/// model, its edges and the version of its slot.
pub open spec fn encoded(db: Db, lsn: u64, ts: u64, p: EncodePayload) -> Result<Db, ()> {
    let id = p.memory_id;
    let m = active_memory(
        id,
        p.agent_id,
        p.context_id,
        slot_of(id),
        version_of(id),
        p.kind,
        p.embedding_model_fp,
        p.salience_initial,
        text_size(p.text@),
        ts,
    );
    let d1 = with_text(with_memory(db, id, m), id, p.text@);
    let d2 = with_entry(d1, p.request_id, response_kind::ENCODE, id, ts, lsn);
    let d3 = model_seen(d2, p.embedding_model_fp, ts);
    let d4 = edges_linked(d3, p.edges@, ts);
    bumped(versioned(d4, slot_of(id), version_of(id)), lsn)
}

/// Applies a new memory.
pub fn apply_encode(wtxn: &mut WriteTransaction, lsn: u64, ts: u64, p: &EncodePayload) -> (r: Result<(), LoadError>)
    ensures
        tables_kept(*old(wtxn), *final(wtxn)),
        agrees(r, encoded(wdb(*old(wtxn)), lsn, ts, *p), wdb(*final(wtxn))),
{
    let id = p.memory_id;
    let slot_id: u64 = id.slot();
    let slot_version: u32 = id.version();
    let m = MemoryMetadata::new_active(
        id,
        p.agent_id,
        p.context_id,
        slot_id,
        slot_version,
        p.kind,
        p.embedding_model_fp,
        p.salience_initial,
        size_of_text(&p.text),
        ts,
    );
    put_memory(wtxn, id, &m)?;
    stored(put_text(wtxn, id, &p.text))?;
    put_entry(wtxn, p.request_id, response_kind::ENCODE, id, ts, lsn)?;
    see_model(wtxn, p.embedding_model_fp, ts)?;
    link_all(wtxn, &p.edges, ts)?;
    stored(set_slot_version(wtxn, slot_id, slot_version))?;
    bump_next_lsn_in_txn(wtxn, lsn)
}

/// What forgetting a memory leaves: the mark and the time on its row, if it is
/// there, and an entry for the request.
pub open spec fn forgotten(db: Db, lsn: u64, ts: u64, p: ForgetPayload) -> Result<Db, ()> {
    match memory_changed(
        db,
        p.memory_id,
        |m: MemoryMetadata|
            MemoryMetadata { flags: m.flags | flags::HARD_FORGOTTEN, forgot_at_unix_nanos: Some(ts), ..m },
    ) {
        Err(e) => Err(e),
        Ok(d) => bumped(with_entry(d, p.request_id, response_kind::FORGET, p.memory_id, ts, lsn), lsn),
    }
}

/// Applies the forgetting of a memory.
pub fn apply_forget(wtxn: &mut WriteTransaction, lsn: u64, ts: u64, p: &ForgetPayload) -> (r: Result<(), LoadError>)
    ensures
        tables_kept(*old(wtxn), *final(wtxn)),
        agrees(r, forgotten(wdb(*old(wtxn)), lsn, ts, *p), wdb(*final(wtxn))),
{
    let found: Option<MemoryMetadata> = load(wtxn, Table::Memories, p.memory_id.0.as_slice())?;
    match found {
        None => {},
        Some(mut m) => {
            m.flags = m.flags | flags::HARD_FORGOTTEN;
            m.forgot_at_unix_nanos = Some(ts);
            put_memory(wtxn, p.memory_id, &m)?;
        },
    }
    put_entry(wtxn, p.request_id, response_kind::FORGET, p.memory_id, ts, lsn)?;
    bump_next_lsn_in_txn(wtxn, lsn)
}

/// What a link leaves.
pub open spec fn link_applied(db: Db, lsn: u64, ts: u64, p: LinkPayload) -> Result<Db, ()> {
    bumped(memories_linked(db, p.source, p.edge_kind, p.target, p.weight, p.origin, ts), lsn)
}

/// Applies a link.
pub fn apply_link(wtxn: &mut WriteTransaction, lsn: u64, ts: u64, p: &LinkPayload) -> (r: Result<(), LoadError>)
    ensures
        tables_kept(*old(wtxn), *final(wtxn)),
        agrees(r, link_applied(wdb(*old(wtxn)), lsn, ts, *p), wdb(*final(wtxn))),
{
    link_memories(wtxn, p.source, p.edge_kind, p.target, p.weight, p.origin, ts)?;
    bump_next_lsn_in_txn(wtxn, lsn)
}

/// What the removal of a link leaves.
pub open spec fn unlink_applied(db: Db, lsn: u64, p: UnlinkPayload) -> Result<Db, ()> {
    bumped(unlinked(db, memory_edge_key(p.source, p.edge_kind, p.target)), lsn)
}

/// Applies the removal of a link.
pub fn apply_unlink(wtxn: &mut WriteTransaction, lsn: u64, p: &UnlinkPayload) -> (r: Result<(), LoadError>)
    ensures
        tables_kept(*old(wtxn), *final(wtxn)),
        agrees(r, unlink_applied(wdb(*old(wtxn)), lsn, *p), wdb(*final(wtxn))),
{
    match unlink(
        wtxn,
        NodeRef::Memory(p.source),
        EdgeKindRef::Builtin(p.edge_kind),
        NodeRef::Memory(p.target),
        zero_bytes::<16>(),
    ) {
        Ok(_) => {},
        Err(EdgeOpError::Storage(e)) => return Err(LoadError::Storage(e)),
        Err(_) => return Err(LoadError::Corrupt),
    }
    bump_next_lsn_in_txn(wtxn, lsn)
}

/// The state in which one salience is new.
pub open spec fn salience_set(db: Db, u: SalienceUpdate) -> Result<Db, ()> {
    memory_changed(db, u.memory_id, |m: MemoryMetadata| MemoryMetadata { salience: u.new_salience, ..m })
}

fn update_one_salience(wtxn: &mut WriteTransaction, u: &SalienceUpdate) -> (r: Result<(), LoadError>)
    ensures
        tables_kept(*old(wtxn), *final(wtxn)),
        agrees(r, salience_set(wdb(*old(wtxn)), *u), wdb(*final(wtxn))),
{
    let found: Option<MemoryMetadata> = load(wtxn, Table::Memories, u.memory_id.0.as_slice())?;
    match found {
        None => Ok(()),
        Some(mut m) => {
            m.salience = u.new_salience;
            put_memory(wtxn, u.memory_id, &m)
        },
    }
}

/// The state in which the saliences are new, one after the other.
pub open spec fn saliences_set(db: Db, updates: Seq<SalienceUpdate>) -> Result<Db, ()>
    decreases updates.len(),
{
    if updates.len() == 0 {
        Ok(db)
    } else {
        match saliences_set(db, updates.drop_last()) {
            Err(e) => Err(e),
            Ok(d) => salience_set(d, updates.last()),
        }
    }
}

proof fn lemma_saliences_fail(db: Db, updates: Seq<SalienceUpdate>, n: int)
    requires
        0 <= n <= updates.len(),
        saliences_set(db, updates.take(n)) is Err,
    ensures
        saliences_set(db, updates) is Err,
    decreases updates.len() - n,
{
    if n == updates.len() {
        assert(updates.take(n) =~= updates);
    } else {
        assert(updates.take(n + 1).drop_last() =~= updates.take(n));
        lemma_saliences_fail(db, updates, n + 1);
    }
}

/// What new saliences leave.
pub open spec fn saliences_applied(db: Db, lsn: u64, p: UpdateSaliencePayload) -> Result<Db, ()> {
    match saliences_set(db, p.updates@) {
        Err(e) => Err(e),
        Ok(d) => bumped(d, lsn),
    }
}

/// Applies new saliences.
pub fn apply_update_salience(wtxn: &mut WriteTransaction, lsn: u64, p: &UpdateSaliencePayload) -> (r: Result<
    (),
    LoadError,
>)
    ensures
        tables_kept(*old(wtxn), *final(wtxn)),
        agrees(r, saliences_applied(wdb(*old(wtxn)), lsn, *p), wdb(*final(wtxn))),
{
    let ghost db = wdb(*wtxn);
    let mut i: usize = 0;
    while i < p.updates.len()
        invariant
            tables_kept(*old(wtxn), *wtxn),
            i <= p.updates.len(),
            db == wdb(*old(wtxn)),
            saliences_set(db, p.updates@.take(i as int)) == Ok::<_, ()>(wdb(*wtxn)),
        decreases p.updates.len() - i,
    {
        proof {
            assert(p.updates@.take(i + 1).drop_last() =~= p.updates@.take(i as int));
            if saliences_set(db, p.updates@.take(i + 1)) is Err {
                lemma_saliences_fail(db, p.updates@, i + 1);
            }
        }
        update_one_salience(wtxn, &p.updates[i])?;
        i = i + 1;
    }
    proof {
        assert(p.updates@.take(i as int) =~= p.updates@);
    }
    bump_next_lsn_in_txn(wtxn, lsn)
}

/// The key of a memory in a version of a slot.
pub open spec fn in_slot(kv: (Seq<u8>, Seq<u8>), slot_id: u64, version: u32) -> Result<Option<Seq<u8>>, ()> {
    match parsed::<MemoryMetadata>(kv.1) {
        Slot::Row(m) => if m.slot_id == slot_id && m.slot_version == version {
            Ok(Some(kv.0))
        } else {
            Ok(None)
        },
        _ => Err(()),
    }
}

/// The keys of the memories in a version of a slot.
pub open spec fn slot_keys(db: Db, slot_id: u64, version: u32) -> Result<Seq<Seq<u8>>, ()> {
    collect(scan(db, Table::Memories, Seq::empty()), |kv: (Seq<u8>, Seq<u8>)| in_slot(kv, slot_id, version))
}

/// The state without the memories and texts under `keys`.
pub open spec fn memories_dropped(db: Db, keys: Seq<Seq<u8>>) -> Db
    decreases keys.len(),
{
    if keys.len() == 0 {
        db
    } else {
        memories_dropped(db, keys.drop_last()).remove((Table::Memories, keys.last())).remove(
            (Table::Texts, keys.last()),
        )
    }
}

spec fn key_models(keys: Seq<Vec<u8>>) -> Seq<Seq<u8>> {
    keys.map_values(|k: Vec<u8>| k@)
}

fn find_in_slot(wtxn: &mut WriteTransaction, slot_id: u64, version: u32) -> (r: Result<Vec<Vec<u8>>, LoadError>)
    ensures
        r is Ok ==> scanned(wdb(*old(wtxn)), Table::Memories, Seq::empty()),
        tables_kept(*old(wtxn), *final(wtxn)),
        wdb(*final(wtxn)) == wdb(*old(wtxn)),
        r matches Ok(keys) ==> slot_keys(wdb(*old(wtxn)), slot_id, version) == Ok::<_, ()>(key_models(keys@)),
        r matches Err(LoadError::Corrupt) ==> slot_keys(wdb(*old(wtxn)), slot_id, version) is Err,
{
    let prefix: Vec<u8> = Vec::new();
    let found = match scan_prefix(wtxn, Table::Memories, prefix.as_slice()) {
        Ok(v) => v,
        Err(e) => return Err(LoadError::Storage(e)),
    };
    let ghost entries = entry_models(found@);
    let ghost f = |kv: (Seq<u8>, Seq<u8>)| in_slot(kv, slot_id, version);
    let mut keys: Vec<Vec<u8>> = Vec::new();
    let mut i: usize = 0;
    proof {
        assert(prefix@ =~= Seq::<u8>::empty());
        assert(entries.take(0) =~= Seq::<(Seq<u8>, Seq<u8>)>::empty());
        assert(key_models(keys@) =~= Seq::<Seq<u8>>::empty());
    }
    while i < found.len()
        invariant
            tables_kept(*old(wtxn), *wtxn),
            i <= found.len(),
            wdb(*wtxn) == wdb(*old(wtxn)),
            entries == entry_models(found@),
            f == (|kv: (Seq<u8>, Seq<u8>)| in_slot(kv, slot_id, version)),
            slot_keys(wdb(*old(wtxn)), slot_id, version) == collect(entries, f),
            collect(entries.take(i as int), f) == Ok::<_, ()>(key_models(keys@)),
        decreases found.len() - i,
    {
        proof {
            lemma_collect_step(entries, f, i as int);
            if collect(entries.take(i + 1), f) is Err {
                lemma_collect_fails(entries, f, i + 1);
            }
        }
        let m: MemoryMetadata = match from_bytes(found[i].1.as_slice()) {
            Some(x) => x,
            None => return Err(LoadError::Corrupt),
        };
        if m.slot_id == slot_id && m.slot_version == version {
            let ghost before = key_models(keys@);
            let key = get_bytes(found[i].0.as_slice(), 0, found[i].0.len());
            proof {
                assert(key@ =~= entries[i as int].0);
            }
            keys.push(key);
            proof {
                assert(key_models(keys@) =~= before.push(entries[i as int].0));
            }
        }
        i = i + 1;
    }
    proof {
        assert(entries.take(i as int) =~= entries);
    }
    Ok(keys)
}

fn drop_memories(wtxn: &mut WriteTransaction, keys: &Vec<Vec<u8>>) -> (r: Result<(), LoadError>)
    ensures
        tables_kept(*old(wtxn), *final(wtxn)),
        keys@.len() == 0 ==> r is Ok,
        r is Ok ==> wdb(*final(wtxn)) == memories_dropped(wdb(*old(wtxn)), key_models(keys@)),
        r matches Err(e) ==> e is Storage,
{
    let ghost db = wdb(*wtxn);
    let ghost models = key_models(keys@);
    let mut i: usize = 0;
    while i < keys.len()
        invariant
            tables_kept(*old(wtxn), *wtxn),
            i <= keys.len(),
            models == key_models(keys@),
            wdb(*wtxn) == memories_dropped(db, models.take(i as int)),
        decreases keys.len() - i,
    {
        match del(wtxn, Table::Memories, keys[i].as_slice()) {
            Ok(_) => {},
            Err(e) => return Err(LoadError::Storage(e)),
        }
        match del(wtxn, Table::Texts, keys[i].as_slice()) {
            Ok(_) => {},
            Err(e) => return Err(LoadError::Storage(e)),
        }
        i = i + 1;
        proof {
            assert(models.take(i as int).drop_last() =~= models.take(i as int - 1));
        }
    }
    proof {
        assert(models.take(i as int) =~= models);
    }
    Ok(())
}

/// What reclaiming a slot leaves: the memories of its old version are gone, with
/// their texts, and the slot has its new version.
pub open spec fn reclaimed(db: Db, lsn: u64, p: ReclaimPayload) -> Result<Db, ()> {
    match slot_keys(db, p.slot_id, p.old_version) {
        Err(e) => Err(e),
        Ok(keys) => bumped(versioned(memories_dropped(db, keys), p.slot_id, p.new_version), lsn),
    }
}

/// Applies the reclaiming of a slot.
pub fn apply_reclaim(wtxn: &mut WriteTransaction, lsn: u64, p: &ReclaimPayload) -> (r: Result<(), LoadError>)
    ensures
        r is Ok ==> scanned(wdb(*old(wtxn)), Table::Memories, Seq::empty()),
        tables_kept(*old(wtxn), *final(wtxn)),
        agrees(r, reclaimed(wdb(*old(wtxn)), lsn, *p), wdb(*final(wtxn))),
{
    let keys = find_in_slot(wtxn, p.slot_id, p.old_version)?;
    drop_memories(wtxn, &keys)?;
    stored(set_slot_version(wtxn, p.slot_id, p.new_version))?;
    bump_next_lsn_in_txn(wtxn, lsn)
}

/// One half.
pub const CONSOLIDATED_SALIENCE_BITS: u32 = 0x3f00_0000;

/// The row of a memory that sums up others. The record tells neither agent nor
/// context, so both are null.
pub open spec fn consolidated_memory(id: MemoryId, fp: [u8; 16], size: u32, ts: u64) -> MemoryMetadata {
    MemoryMetadata {
        consolidated_at_unix_nanos: Some(ts),
        ..active_memory(
            id,
            AgentId(zeros::<16>()),
            ContextId(0),
            slot_of(id),
            version_of(id),
            MemoryKind::Consolidated,
            fp,
            F32 { bits: CONSOLIDATED_SALIENCE_BITS },
            size,
            ts,
        )
    }
}

/// What a consolidation leaves: a row, a text and the version of its slot.
pub open spec fn consolidated(db: Db, lsn: u64, ts: u64, p: ConsolidatePayload) -> Result<Db, ()> {
    let id = p.new_memory_id;
    let m = consolidated_memory(id, p.embedding_model_fp, text_size(p.text@), ts);
    bumped(versioned(with_text(with_memory(db, id, m), id, p.text@), slot_of(id), version_of(id)), lsn)
}

/// Applies a consolidation.
pub fn apply_consolidate(wtxn: &mut WriteTransaction, lsn: u64, ts: u64, p: &ConsolidatePayload) -> (r: Result<
    (),
    LoadError,
>)
    ensures
        tables_kept(*old(wtxn), *final(wtxn)),
        agrees(r, consolidated(wdb(*old(wtxn)), lsn, ts, *p), wdb(*final(wtxn))),
{
    let id = p.new_memory_id;
    let slot_id: u64 = id.slot();
    let slot_version: u32 = id.version();
    let half = F32 { bits: CONSOLIDATED_SALIENCE_BITS };
    let mut m = MemoryMetadata::new_active(
        id,
        AgentId(zero_bytes::<16>()),
        ContextId(0),
        slot_id,
        slot_version,
        MemoryKind::Consolidated,
        p.embedding_model_fp,
        half,
        size_of_text(&p.text),
        ts,
    );
    m.consolidated_at_unix_nanos = Some(ts);
    put_memory(wtxn, id, &m)?;
    stored(put_text(wtxn, id, &p.text))?;
    stored(set_slot_version(wtxn, slot_id, slot_version))?;
    bump_next_lsn_in_txn(wtxn, lsn)
}

/// What a new kind leaves.
pub open spec fn kind_updated(db: Db, lsn: u64, p: UpdateKindPayload) -> Result<Db, ()> {
    match memory_changed(
        db,
        p.memory_id,
        |m: MemoryMetadata| MemoryMetadata { kind: memory_kind_byte(p.new_kind), ..m },
    ) {
        Err(e) => Err(e),
        Ok(d) => bumped(d, lsn),
    }
}

/// Applies a new kind.
pub fn apply_update_kind(wtxn: &mut WriteTransaction, lsn: u64, p: &UpdateKindPayload) -> (r: Result<(), LoadError>)
    ensures
        tables_kept(*old(wtxn), *final(wtxn)),
        agrees(r, kind_updated(wdb(*old(wtxn)), lsn, *p), wdb(*final(wtxn))),
{
    let found: Option<MemoryMetadata> = load(wtxn, Table::Memories, p.memory_id.0.as_slice())?;
    match found {
        None => {},
        Some(mut m) => {
            m.kind = memory_kind_to_u8(p.new_kind);
            put_memory(wtxn, p.memory_id, &m)?;
        },
    }
    bump_next_lsn_in_txn(wtxn, lsn)
}

/// What a new context leaves.
pub open spec fn context_updated(db: Db, lsn: u64, p: UpdateContextPayload) -> Result<Db, ()> {
    match memory_changed(
        db,
        p.memory_id,
        |m: MemoryMetadata| MemoryMetadata { context_id: p.new_context_id.0, ..m },
    ) {
        Err(e) => Err(e),
        Ok(d) => bumped(d, lsn),
    }
}

/// Applies a new context.
pub fn apply_update_context(wtxn: &mut WriteTransaction, lsn: u64, p: &UpdateContextPayload) -> (r: Result<
    (),
    LoadError,
>)
    ensures
        tables_kept(*old(wtxn), *final(wtxn)),
        agrees(r, context_updated(wdb(*old(wtxn)), lsn, *p), wdb(*final(wtxn))),
{
    let found: Option<MemoryMetadata> = load(wtxn, Table::Memories, p.memory_id.0.as_slice())?;
    match found {
        None => {},
        Some(mut m) => {
            m.context_id = p.new_context_id.0;
            put_memory(wtxn, p.memory_id, &m)?;
        },
    }
    bump_next_lsn_in_txn(wtxn, lsn)
}

/// What a new vector leaves.
pub open spec fn embedding_migrated(db: Db, lsn: u64, p: MigrateEmbeddingPayload) -> Result<Db, ()> {
    match memory_changed(
        db,
        p.memory_id,
        |m: MemoryMetadata| MemoryMetadata { embedding_model_fp: p.new_fingerprint, ..m },
    ) {
        Err(e) => Err(e),
        Ok(d) => bumped(d, lsn),
    }
}

/// Applies a new vector.
pub fn apply_migrate_embedding(wtxn: &mut WriteTransaction, lsn: u64, p: &MigrateEmbeddingPayload) -> (r: Result<
    (),
    LoadError,
>)
    ensures
        tables_kept(*old(wtxn), *final(wtxn)),
        agrees(r, embedding_migrated(wdb(*old(wtxn)), lsn, *p), wdb(*final(wtxn))),
{
    let found: Option<MemoryMetadata> = load(wtxn, Table::Memories, p.memory_id.0.as_slice())?;
    match found {
        None => {},
        Some(mut m) => {
            m.embedding_model_fp = p.new_fingerprint;
            put_memory(wtxn, p.memory_id, &m)?;
        },
    }
    bump_next_lsn_in_txn(wtxn, lsn)
}

/// What the end of a checkpoint leaves, if it began at `started_at`.
pub open spec fn checkpoint_ended(db: Db, lsn: u64, ts: u64, p: CheckpointEndPayload, started_at: u64) -> Result<
    Db,
    (),
> {
    let meta = CheckpointMeta {
        checkpoint_id: p.checkpoint_id,
        durable_lsn: p.durable_lsn,
        arena_capacity_at_checkpoint: p.arena_capacity,
        metadata_version_at_checkpoint: CURRENT_SCHEMA_VERSION as u64,
        started_at_unix_nanos: started_at,
        completed_at_unix_nanos: ts,
    };
    bumped(db.insert((Table::Checkpoints, checkpoint_key(p.checkpoint_id)), image::<CheckpointMeta>(meta)), lsn)
}

/// Applies the end of a checkpoint that began at `started_at`.
pub fn apply_checkpoint_end(
    wtxn: &mut WriteTransaction,
    lsn: u64,
    ts: u64,
    p: &CheckpointEndPayload,
    started_at: u64,
) -> (r: Result<(), LoadError>)
    ensures
        tables_kept(*old(wtxn), *final(wtxn)),
        agrees(r, checkpoint_ended(wdb(*old(wtxn)), lsn, ts, *p, started_at), wdb(*final(wtxn))),
{
    let meta = CheckpointMeta::new(
        p.checkpoint_id,
        p.durable_lsn,
        p.arena_capacity,
        CURRENT_SCHEMA_VERSION as u64,
        started_at,
        ts,
    );
    let key = make_checkpoint_key(p.checkpoint_id);
    stored(save(wtxn, Table::Checkpoints, key.as_slice(), &meta))?;
    bump_next_lsn_in_txn(wtxn, lsn)
}

/// When a checkpoint began: 0 if its beginning was not seen.
pub open spec fn started_at(pending: Map<u64, u64>, id: u64) -> u64 {
    if pending.dom().contains(id) {
        pending[id]
    } else {
        0
    }
}

/// What a record leaves.
pub open spec fn applied(db: Db, pending: Map<u64, u64>, lsn: u64, ts: u64, payload: WalPayload) -> Result<Db, ()> {
    match payload {
        WalPayload::Encode(p) => encoded(db, lsn, ts, p),
        WalPayload::Forget(p) => forgotten(db, lsn, ts, p),
        WalPayload::Link(p) => link_applied(db, lsn, ts, p),
        WalPayload::Unlink(p) => unlink_applied(db, lsn, p),
        WalPayload::UpdateSalience(p) => saliences_applied(db, lsn, p),
        WalPayload::Reclaim(p) => reclaimed(db, lsn, p),
        WalPayload::Consolidate(p) => consolidated(db, lsn, ts, p),
        WalPayload::UpdateKind(p) => kind_updated(db, lsn, p),
        WalPayload::UpdateContext(p) => context_updated(db, lsn, p),
        WalPayload::MigrateEmbedding(p) => embedding_migrated(db, lsn, p),
        WalPayload::CheckpointBegin(_) => bumped(db, lsn),
        WalPayload::CheckpointEnd(p) => checkpoint_ended(db, lsn, ts, p, started_at(pending, p.checkpoint_id)),
        WalPayload::TxnBegin(_) => bumped(db, lsn),
        WalPayload::TxnCommit(_) => bumped(db, lsn),
        WalPayload::TxnAbort(_) => bumped(db, lsn),
    }
}

proof fn lemma_edges_keep_home(db: Db, edges: Seq<EdgePayload>, ts: u64)
    ensures
        edges_linked(db, edges, ts).home == db.home,
    decreases edges.len(),
{
    if edges.len() > 0 {
        lemma_edges_keep_home(db, edges.drop_last(), ts);
    }
}

proof fn lemma_saliences_keep_home(db: Db, updates: Seq<SalienceUpdate>)
    ensures
        saliences_set(db, updates) matches Ok(d) ==> d.home == db.home,
    decreases updates.len(),
{
    if updates.len() > 0 {
        lemma_saliences_keep_home(db, updates.drop_last());
    }
}

proof fn lemma_drops_keep_home(db: Db, keys: Seq<Seq<u8>>)
    ensures
        memories_dropped(db, keys).home == db.home,
    decreases keys.len(),
{
    if keys.len() > 0 {
        lemma_drops_keep_home(db, keys.drop_last());
    }
}

/// A record changes rows only.
proof fn lemma_applied_keeps_home(db: Db, pending: Map<u64, u64>, lsn: u64, ts: u64, payload: WalPayload)
    ensures
        applied(db, pending, lsn, ts, payload) matches Ok(d) ==> d.home == db.home,
{
    match payload {
        WalPayload::Encode(p) => {
            let id = p.memory_id;
            let m = active_memory(
                id,
                p.agent_id,
                p.context_id,
                slot_of(id),
                version_of(id),
                p.kind,
                p.embedding_model_fp,
                p.salience_initial,
                text_size(p.text@),
                ts,
            );
            let d1 = with_text(with_memory(db, id, m), id, p.text@);
            let d2 = with_entry(d1, p.request_id, response_kind::ENCODE, id, ts, lsn);
            lemma_edges_keep_home(model_seen(d2, p.embedding_model_fp, ts), p.edges@, ts);
        },
        WalPayload::UpdateSalience(p) => {
            lemma_saliences_keep_home(db, p.updates@);
        },
        WalPayload::Reclaim(p) => {
            if let Ok(keys) = slot_keys(db, p.slot_id, p.old_version) {
                lemma_drops_keep_home(db, keys);
            }
        },
        _ => {},
    }
}

/// The checkpoints that began and did not end, once a record was seen.
pub open spec fn pending_after(pending: Map<u64, u64>, payload: WalPayload) -> Map<u64, u64> {
    match payload {
        WalPayload::CheckpointBegin(p) => pending.insert(p.checkpoint_id, p.started_at_unix_nanos),
        WalPayload::CheckpointEnd(p) => pending.remove(p.checkpoint_id),
        _ => pending,
    }
}

/// The position up to which the log is in the store, once a record was applied.
pub open spec fn durable_after(durable: u64, payload: WalPayload) -> u64 {
    match payload {
        WalPayload::CheckpointEnd(p) => if p.durable_lsn > durable {
            p.durable_lsn
        } else {
            durable
        },
        _ => durable,
    }
}

/// The rows of a database once it is in use.
pub open spec fn opened_rows(db: Db) -> Map<(Table, Seq<u8>), Seq<u8>> {
    if stored_version(db) == Ok::<_, ()>(None::<u32>) {
        stamped(db).rows
    } else {
        db.rows
    }
}

/// A metadata store. Its records come in the order of the log.
pub struct MetadataDb {
    db: Database,
    durable_lsn: u64,
    pending_checkpoints: HashMap<u64, u64>,
}

impl MetadataDb {
    /// The committed state.
    pub closed spec fn state(&self) -> Db {
        ddb(self.db)
    }

    /// The names of the tables.
    pub closed spec fn tables(&self) -> Set<Seq<char>> {
        database_tables(self.db)
    }

    /// The position up to which the log is in the store.
    pub closed spec fn durable(&self) -> u64 {
        self.durable_lsn
    }

    /// When each checkpoint began that did not end yet.
    pub closed spec fn pending(&self) -> Map<u64, u64> {
        self.pending_checkpoints@
    }

    /// Takes a database into use: one of another version is refused. The log is
    /// in the store up to where the latest checkpoint says.
    pub fn attach(db: Database) -> (r: Result<MetadataDb, SchemaError>)
        ensures
            match r {
                Ok(m) => {
                    &&& stored_version(ddb(db)) matches Ok(v) && (v is None || v == Some(CURRENT_SCHEMA_VERSION))
                    &&& m.state().rows == opened_rows(ddb(db))
                    &&& m.state().rows.dom().finite()
                    &&& m.tables() == opened_tables(database_tables(db))
                    &&& complete(m.tables())
                    &&& m.pending() == Map::<u64, u64>::empty()
                    &&& match latest_slot(m.state()) {
                        Slot::Absent => m.durable() == 0,
                        Slot::Row(c) => m.durable() == c.durable_lsn,
                        Slot::Corrupt => false,
                    }
                },
                Err(SchemaError::SchemaVersionTooNew { found, supported }) => {
                    &&& stored_version(ddb(db)) == Ok::<_, ()>(Some(found))
                    &&& found > CURRENT_SCHEMA_VERSION == supported
                },
                Err(SchemaError::SchemaTooOld { found, current }) => {
                    &&& stored_version(ddb(db)) == Ok::<_, ()>(Some(found))
                    &&& found < CURRENT_SCHEMA_VERSION == current
                },
                Err(SchemaError::Corrupt) => stored_version(ddb(db)) is Err || exists|d: Db|
                    d.rows == opened_rows(ddb(db)) && #[trigger] latest_slot(d) is Corrupt,
                Err(SchemaError::Storage(_)) => true,
            },
    {
        let mut db = db;
        open_or_init_schema(&mut db)?;
        let rtxn = match begin_snapshot(&db) {
            Ok(t) => t,
            Err(e) => return Err(SchemaError::Storage(e)),
        };
        let durable_lsn: u64 = match latest(&rtxn) {
            Ok(Some(m)) => m.durable_lsn,
            Ok(None) => 0,
            Err(LoadError::Storage(e)) => return Err(SchemaError::Storage(e)),
            Err(LoadError::Corrupt) => return Err(SchemaError::Corrupt),
        };
        Ok(MetadataDb { db, durable_lsn, pending_checkpoints: HashMap::new() })
    }

    /// Begins a snapshot of the last commit.
    pub fn read_txn(&self) -> (r: Result<ReadTransaction, redb::Error>)
        ensures
            r matches Ok(t) ==> rdb(t) == self.state() && read_tables(t) == self.tables(),
            r is Ok ==> self.state().rows.dom().finite(),
    {
        begin_snapshot(&self.db)
    }

    /// Begins to change the rows of the last commit.
    pub fn write_txn(&self) -> (r: Result<WriteTransaction, redb::Error>)
        ensures
            r matches Ok(t) ==> wdb(t) == self.state() && write_tables(t) == self.tables(),
            r is Ok ==> self.state().rows.dom().finite(),
    {
        begin_change(&self.db)
    }

    /// Makes the rows and tables of a transaction those of the store.
    pub fn commit(&mut self, wtxn: WriteTransaction) -> (r: Result<(), redb::Error>)
        requires
            wdb(wtxn).home == old(self).state().home,
        ensures
            r is Ok ==> final(self).state().rows == wdb(wtxn).rows,
            r is Ok ==> final(self).tables() == write_tables(wtxn),
            final(self).durable() == old(self).durable(),
            final(self).pending() == old(self).pending(),
    {
        commit_change(&mut self.db, wtxn)
    }

    /// The position up to which the log is in the store.
    pub fn durable_lsn(&self) -> (r: u64)
        ensures
            r == self.durable(),
    {
        self.durable_lsn
    }

    /// Notes that a record was seen, in a transaction of its own.
    pub fn bump_next_lsn(&mut self, lsn: u64) -> (r: Result<(), MetadataSinkError>)
        ensures
            r is Ok ==> old(self).tables().subset_of(final(self).tables()),
            match r {
                Ok(()) => bumped(old(self).state(), lsn) matches Ok(d) && final(self).state().rows == d.rows,
                Err(MetadataSinkError::Transient(LoadError::Corrupt)) => {
                    &&& bumped(old(self).state(), lsn) is Err
                    &&& final(self).state() == old(self).state()
                },
                Err(MetadataSinkError::Transient(LoadError::Storage(_))) => true,
            },
            final(self).durable() == old(self).durable(),
            final(self).pending() == old(self).pending(),
    {
        let mut wtxn = match self.write_txn() {
            Ok(t) => t,
            Err(e) => return Err(MetadataSinkError::Transient(LoadError::Storage(e))),
        };
        match bump_next_lsn_in_txn(&mut wtxn, lsn) {
            Ok(()) => {},
            Err(e) => return Err(MetadataSinkError::Transient(e)),
        }
        match self.commit(wtxn) {
            Ok(()) => Ok(()),
            Err(e) => Err(MetadataSinkError::Transient(LoadError::Storage(e))),
        }
    }

    fn started(&mut self, payload: &WalPayload) -> (r: u64)
        ensures
            final(self).state() == old(self).state(),
            final(self).tables() == old(self).tables(),
            final(self).durable() == old(self).durable(),
            final(self).pending() == pending_after(old(self).pending(), *payload),
            payload matches WalPayload::CheckpointEnd(p) ==> r == started_at(old(self).pending(), p.checkpoint_id),
    {
        match payload {
            WalPayload::CheckpointBegin(p) => {
                self.pending_checkpoints.insert(p.checkpoint_id, p.started_at_unix_nanos);
                0
            },
            WalPayload::CheckpointEnd(p) => match self.pending_checkpoints.remove(&p.checkpoint_id) {
                Some(at) => at,
                None => 0,
            },
            _ => 0,
        }
    }

    /// Applies a record, in a transaction of its own. No table goes away.
    pub fn apply(&mut self, lsn: u64, timestamp_ns: u64, payload: &WalPayload) -> (r: Result<(), MetadataSinkError>)
        ensures
            r is Ok ==> old(self).state().rows.dom().finite(),
            match r {
                Ok(()) => {
                    &&& applied(old(self).state(), old(self).pending(), lsn, timestamp_ns, *payload) matches Ok(d)
                        && final(self).state().rows == d.rows
                    &&& final(self).durable() == durable_after(old(self).durable(), *payload)
                    &&& old(self).tables().subset_of(final(self).tables())
                },
                Err(MetadataSinkError::Transient(LoadError::Corrupt)) => {
                    &&& applied(old(self).state(), old(self).pending(), lsn, timestamp_ns, *payload) is Err
                    &&& final(self).state() == old(self).state()
                    &&& final(self).durable() == old(self).durable()
                },
                Err(MetadataSinkError::Transient(LoadError::Storage(_))) => final(self).durable() == old(self).durable(),
            },
            final(self).pending() == pending_after(old(self).pending(), *payload),
    {
        let began: u64 = self.started(payload);
        let mut wtxn = match self.write_txn() {
            Ok(t) => t,
            Err(e) => return Err(MetadataSinkError::Transient(LoadError::Storage(e))),
        };
        match apply_in_txn(&mut wtxn, lsn, timestamp_ns, payload, began) {
            Ok(()) => {},
            Err(e) => return Err(MetadataSinkError::Transient(e)),
        }
        proof {
            lemma_applied_keeps_home(old(self).state(), old(self).pending(), lsn, timestamp_ns, *payload);
        }
        match self.commit(wtxn) {
            Ok(()) => {},
            Err(e) => return Err(MetadataSinkError::Transient(LoadError::Storage(e))),
        }
        match payload {
            WalPayload::CheckpointEnd(p) => {
                if p.durable_lsn > self.durable_lsn {
                    self.durable_lsn = p.durable_lsn;
                }
            },
            _ => {},
        }
        Ok(())
    }
}

/// Applies a record inside a transaction. The end of a checkpoint needs the time
/// at which it began.
pub fn apply_in_txn(wtxn: &mut WriteTransaction, lsn: u64, ts: u64, payload: &WalPayload, began: u64) -> (r: Result<
    (),
    LoadError,
>)
    ensures
        tables_kept(*old(wtxn), *final(wtxn)),
        r is Ok && payload is Reclaim ==> scanned(wdb(*old(wtxn)), Table::Memories, Seq::empty()),
        forall|pending: Map<u64, u64>|
            (payload matches WalPayload::CheckpointEnd(p) ==> began == started_at(pending, p.checkpoint_id)) ==> agrees(
                r,
                #[trigger] applied(wdb(*old(wtxn)), pending, lsn, ts, *payload),
                wdb(*final(wtxn)),
            ),
{
    match payload {
        WalPayload::Encode(p) => apply_encode(wtxn, lsn, ts, p),
        WalPayload::Forget(p) => apply_forget(wtxn, lsn, ts, p),
        WalPayload::Link(p) => apply_link(wtxn, lsn, ts, p),
        WalPayload::Unlink(p) => apply_unlink(wtxn, lsn, p),
        WalPayload::UpdateSalience(p) => apply_update_salience(wtxn, lsn, p),
        WalPayload::Reclaim(p) => apply_reclaim(wtxn, lsn, p),
        WalPayload::Consolidate(p) => apply_consolidate(wtxn, lsn, ts, p),
        WalPayload::UpdateKind(p) => apply_update_kind(wtxn, lsn, p),
        WalPayload::UpdateContext(p) => apply_update_context(wtxn, lsn, p),
        WalPayload::MigrateEmbedding(p) => apply_migrate_embedding(wtxn, lsn, p),
        WalPayload::CheckpointEnd(p) => apply_checkpoint_end(wtxn, lsn, ts, p, began),
        _ => bump_next_lsn_in_txn(wtxn, lsn),
    }
}

} // verus!
