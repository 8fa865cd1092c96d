//! Creating and reading statements, and the upkeep of their indexes.

use redb::{ReadTransaction, WriteTransaction};
use vstd::prelude::*;

use crate::bytes::{be, bytes_eq, get_array, put_be};
use crate::catalog::Table;
use crate::collect::{collect, lemma_collect_fails, lemma_collect_step};
use crate::row::{image, load, load_at, save, slot, Row, Slot};
use crate::statement::contradiction::{contradiction_audit_record, id_bytes, recorded};
use crate::statement::supersede::{statement_supersede, superseded};
use crate::statement::{load_failed, StatementOpError, WriteContext};
use crate::store::{del, entry_models, get, lookup, opened, put, rdb, scan, scan_prefix, scanned, wdb, Db};
use crate::tables::predicate::{predicate_of, Predicate, PredicateDefinition};
use crate::tables::statement::{
    bucket_of, by_event_key, by_evidence_key, by_object_key, by_predicate_key, by_subject_key, by_subject_prefix,
    chain_key, confidence_bucket, copy_entries, make_by_event_key, make_by_evidence_key, make_by_object_key,
    make_by_predicate_key, make_by_subject_key, make_by_subject_prefix, make_chain_key, metadata_from_statement,
    row_of, statement_from_metadata, statement_of, EvidenceEntry, EvidenceOverflow, EvidenceRef, Statement,
    StatementMetadata, StatementModel, StatementObject, StatementRowModel, SubjectRef,
};
use crate::types::{EntityId, EvidenceOverflowId, PredicateId, RowScope, StatementId, StatementKind, F32};

verus! {

// Reading.

/// The statement under an identifier.
pub open spec fn statement_at(db: Db, id: [u8; 16]) -> Result<Option<StatementModel>, StatementOpError> {
    match slot::<StatementMetadata>(db, Table::Statements, id@) {
        Slot::Absent => Ok(None),
        Slot::Corrupt => Err(StatementOpError::DecodeFailed),
        Slot::Row(m) => match statement_of(m) {
            Some(s) => Ok(Some(s)),
            None => Err(StatementOpError::DecodeFailed),
        },
    }
}

/// Fetches a statement by its identifier.
pub fn statement_get(rtxn: &ReadTransaction, id: StatementId) -> (r: Result<Option<Statement>, StatementOpError>)
    ensures
        r is Ok ==> opened(*rtxn, Table::Statements),
        r matches Ok(None) ==> statement_at(rdb(*rtxn), id.0) == Ok::<Option<StatementModel>, StatementOpError>(None),
        r matches Ok(Some(s)) ==> statement_at(rdb(*rtxn), id.0) == Ok::<_, StatementOpError>(Some(s.model())),
        r matches Err(e) ==> e is Storage || statement_at(rdb(*rtxn), id.0) == Err::<Option<StatementModel>, _>(e),
{
    match load_at::<StatementMetadata>(rtxn, Table::Statements, id.0.as_slice()) {
        Err(e) => Err(load_failed(e)),
        Ok(None) => Ok(None),
        Ok(Some(m)) => match statement_from_metadata(&m) {
            Some(s) => Ok(Some(s)),
            None => Err(StatementOpError::DecodeFailed),
        },
    }
}

/// Loads spilled evidence.
pub fn evidence_overflow_load(rtxn: &ReadTransaction, id: EvidenceOverflowId) -> (r: Result<
    Option<Vec<EvidenceEntry>>,
    StatementOpError,
>)
    ensures
        r is Ok ==> opened(*rtxn, Table::EvidenceOverflow),
        match slot::<EvidenceOverflow>(rdb(*rtxn), Table::EvidenceOverflow, id.0@) {
            Slot::Absent => r matches Ok(None) || r matches Err(StatementOpError::Storage(_)),
            Slot::Corrupt => r matches Err(StatementOpError::DecodeFailed) || r matches Err(
                StatementOpError::Storage(_),
            ),
            Slot::Row(m) => (r matches Ok(Some(v)) && v@ == m.entries) || r matches Err(StatementOpError::Storage(_)),
        },
{
    match load_at::<EvidenceOverflow>(rtxn, Table::EvidenceOverflow, id.0.as_slice()) {
        Err(e) => Err(load_failed(e)),
        Ok(None) => Ok(None),
        Ok(Some(row)) => Ok(Some(row.entries)),
    }
}

// Writing rows one by one.

/// Puts a value under a key.
pub(crate) fn put_value(txn: &mut WriteTransaction, t: Table, key: &[u8], value: &[u8]) -> (r: Result<
    (),
    StatementOpError,
>)
    ensures
        r is Ok ==> wdb(*final(txn)) == wdb(*old(txn)).insert((t, key@), value@),
        r matches Err(e) ==> e is Storage,
{
    match put(txn, t, key, value) {
        Ok(()) => Ok(()),
        Err(e) => Err(StatementOpError::Storage(e)),
    }
}

/// Removes a key.
pub(crate) fn remove_key(txn: &mut WriteTransaction, t: Table, key: &[u8]) -> (r: Result<bool, StatementOpError>)
    ensures
        r is Ok ==> wdb(*final(txn)) == wdb(*old(txn)).remove((t, key@)),
        r matches Ok(found) ==> found == wdb(*old(txn)).dom().contains((t, key@)),
        r matches Err(e) ==> e is Storage,
{
    match del(txn, t, key) {
        Ok(found) => Ok(found),
        Err(e) => Err(StatementOpError::Storage(e)),
    }
}

/// Reads the value under a key.
pub(crate) fn get_value(txn: &mut WriteTransaction, t: Table, key: &[u8]) -> (r: Result<
    Option<Vec<u8>>,
    StatementOpError,
>)
    ensures
        wdb(*final(txn)) == wdb(*old(txn)),
        r matches Ok(None) ==> lookup(wdb(*old(txn)), t, key@) is None,
        r matches Ok(Some(v)) ==> lookup(wdb(*old(txn)), t, key@) == Some(v@),
        r matches Err(e) ==> e is Storage,
{
    match get(txn, t, key) {
        Ok(v) => Ok(v),
        Err(e) => Err(StatementOpError::Storage(e)),
    }
}

/// Saves a statement row under its identifier.
pub(crate) fn save_statement(txn: &mut WriteTransaction, m: &StatementMetadata) -> (r: Result<(), StatementOpError>)
    ensures
        r is Ok ==> wdb(*final(txn)) == wdb(*old(txn)).insert(
            (Table::Statements, m.statement_id_bytes@),
            image::<StatementMetadata>(m.model()),
        ),
        r matches Err(e) ==> e is Storage,
{
    match save(txn, Table::Statements, m.statement_id_bytes.as_slice(), m) {
        Ok(()) => Ok(()),
        Err(e) => Err(StatementOpError::Storage(e)),
    }
}

/// Loads the statement row under an identifier.
pub(crate) fn load_statement(txn: &mut WriteTransaction, id: &[u8; 16]) -> (r: Result<
    Option<StatementMetadata>,
    StatementOpError,
>)
    ensures
        wdb(*final(txn)) == wdb(*old(txn)),
        r matches Ok(None) ==> slot::<StatementMetadata>(wdb(*old(txn)), Table::Statements, id@) == Slot::<
            StatementRowModel,
        >::Absent,
        r matches Ok(Some(m)) ==> slot::<StatementMetadata>(wdb(*old(txn)), Table::Statements, id@) == Slot::Row(
            m.model(),
        ),
        r matches Err(e) ==> e is Storage || (e is DecodeFailed && slot::<StatementMetadata>(
            wdb(*old(txn)),
            Table::Statements,
            id@,
        ) == Slot::<StatementRowModel>::Corrupt),
{
    match load::<StatementMetadata>(txn, Table::Statements, id.as_slice()) {
        Ok(m) => Ok(m),
        Err(e) => Err(load_failed(e)),
    }
}

// Evidence.

/// The memories of a list of evidence.
pub open spec fn memories_of(entries: Seq<EvidenceEntry>) -> Seq<[u8; 16]> {
    entries.map_values(|e: EvidenceEntry| e.memory_id.0)
}

/// The evidence that a reference leads to. A spilled row must be there.
pub open spec fn resolved(db: Db, evidence: EvidenceRef<Seq<EvidenceEntry>>) -> Result<
    Seq<EvidenceEntry>,
    StatementOpError,
> {
    match evidence {
        EvidenceRef::Inline(entries) => Ok(entries),
        EvidenceRef::Overflow(id) => match slot::<EvidenceOverflow>(db, Table::EvidenceOverflow, id.0@) {
            Slot::Absent => Err(
                StatementOpError::InvalidArgument("evidence overflow id references missing row"),
            ),
            Slot::Corrupt => Err(StatementOpError::DecodeFailed),
            Slot::Row(m) => Ok(m.entries),
        },
    }
}

/// Whether some entry carries a confidence of its own.
pub open spec fn any_metadata(entries: Seq<EvidenceEntry>) -> bool {
    exists|i: int| 0 <= i < entries.len() && (#[trigger] entries[i]).confidence_milli > 0
}

/// Whether the evidence that a reference leads to carries confidences of its
/// own. Evidence whose spilled row is missing does not.
pub open spec fn carries_metadata(db: Db, evidence: EvidenceRef<Seq<EvidenceEntry>>) -> Result<bool, StatementOpError> {
    match evidence {
        EvidenceRef::Inline(entries) => Ok(any_metadata(entries)),
        EvidenceRef::Overflow(id) => match slot::<EvidenceOverflow>(db, Table::EvidenceOverflow, id.0@) {
            Slot::Absent => Ok(false),
            Slot::Corrupt => Err(StatementOpError::DecodeFailed),
            Slot::Row(m) => Ok(any_metadata(m.entries)),
        },
    }
}

fn has_metadata(entries: &[EvidenceEntry]) -> (r: bool)
    ensures
        r == any_metadata(entries@),
{
    let mut i: usize = 0;
    while i < entries.len()
        invariant
            i <= entries.len(),
            forall|j: int| 0 <= j < i ==> (#[trigger] entries@[j]).confidence_milli == 0,
        decreases entries.len() - i,
    {
        if entries[i].confidence_milli > 0 {
            return true;
        }
        i = i + 1;
    }
    false
}

fn load_overflow(txn: &mut WriteTransaction, id: &EvidenceOverflowId) -> (r: Result<
    Option<EvidenceOverflow>,
    StatementOpError,
>)
    ensures
        wdb(*final(txn)) == wdb(*old(txn)),
        r matches Ok(None) ==> slot::<EvidenceOverflow>(wdb(*old(txn)), Table::EvidenceOverflow, id.0@) is Absent,
        r matches Ok(Some(m)) ==> slot::<EvidenceOverflow>(wdb(*old(txn)), Table::EvidenceOverflow, id.0@)
            == Slot::Row(m.model()),
        r matches Err(e) ==> e is Storage || (e is DecodeFailed && slot::<EvidenceOverflow>(
            wdb(*old(txn)),
            Table::EvidenceOverflow,
            id.0@,
        ) is Corrupt),
{
    match load::<EvidenceOverflow>(txn, Table::EvidenceOverflow, id.0.as_slice()) {
        Ok(m) => Ok(m),
        Err(e) => Err(load_failed(e)),
    }
}

/// Whether the evidence carries confidences of its own.
pub(crate) fn evidence_has_per_entry_metadata(txn: &mut WriteTransaction, evidence: &EvidenceRef) -> (r: Result<
    bool,
    StatementOpError,
>)
    ensures
        wdb(*final(txn)) == wdb(*old(txn)),
        evidence is Inline ==> r is Ok,
        r matches Ok(b) ==> carries_metadata(wdb(*old(txn)), evidence.model()) == Ok::<_, StatementOpError>(b),
        r matches Err(e) ==> e is Storage || carries_metadata(wdb(*old(txn)), evidence.model()) == Err::<bool, _>(e),
{
    match evidence {
        EvidenceRef::Inline(entries) => Ok(has_metadata(entries.as_slice())),
        EvidenceRef::Overflow(id) => match load_overflow(txn, id)? {
            None => Ok(false),
            Some(row) => Ok(has_metadata(row.entries.as_slice())),
        },
    }
}

/// The evidence that a reference leads to.
pub fn resolve_evidence_entries(txn: &mut WriteTransaction, evidence: &EvidenceRef) -> (r: Result<
    Vec<EvidenceEntry>,
    StatementOpError,
>)
    ensures
        wdb(*final(txn)) == wdb(*old(txn)),
        evidence is Inline ==> r is Ok,
        r matches Ok(v) ==> resolved(wdb(*old(txn)), evidence.model()) == Ok::<_, StatementOpError>(v@),
        r matches Err(e) ==> e is Storage || resolved(wdb(*old(txn)), evidence.model()) == Err::<
            Seq<EvidenceEntry>,
            _,
        >(e),
{
    match evidence {
        EvidenceRef::Inline(entries) => Ok(copy_entries(entries.as_slice())),
        EvidenceRef::Overflow(id) => match load_overflow(txn, id)? {
            None => Err(StatementOpError::InvalidArgument("evidence overflow id references missing row")),
            Some(row) => Ok(row.entries),
        },
    }
}

/// The confidence that a statement is stored with: the aggregate of its
/// evidence where that carries confidences of its own, else the one that the
/// caller gave.
pub open spec fn stored_confidence(db: Db, s: StatementModel, aggregated: F32) -> Result<F32, StatementOpError> {
    match carries_metadata(db, s.evidence) {
        Err(e) => Err(e),
        Ok(true) => Ok(aggregated),
        Ok(false) => Ok(s.confidence),
    }
}

/// Gives a statement the confidence that it is stored with.
pub(crate) fn recompute_confidence_from_evidence(txn: &mut WriteTransaction, s: &mut Statement, aggregated: F32) -> (r:
    Result<(), StatementOpError>)
    ensures
        wdb(*final(txn)) == wdb(*old(txn)),
        old(s).evidence is Inline ==> r is Ok,
        r is Ok ==> exists|c: F32|
            #![auto]
            stored_confidence(wdb(*old(txn)), old(s).model(), aggregated) == Ok::<_, StatementOpError>(c)
                && final(s).model() == (StatementModel { confidence: c, ..old(s).model() }),
        r matches Err(e) ==> e is Storage || stored_confidence(wdb(*old(txn)), old(s).model(), aggregated) == Err::<
            F32,
            _,
        >(e),
{
    if evidence_has_per_entry_metadata(txn, &s.evidence)? {
        s.confidence = aggregated;
    }
    Ok(())
}

/// Spills evidence to a row of its own, under a fresh identifier. There must be
/// some.
pub fn allocate_evidence_overflow(
    wtxn: &mut WriteTransaction,
    id: EvidenceOverflowId,
    entries: &Vec<EvidenceEntry>,
    now_unix_nanos: u64,
) -> (r: Result<EvidenceOverflowId, StatementOpError>)
    ensures
        entries@.len() == 0 ==> wdb(*final(wtxn)) == wdb(*old(wtxn)) && r == Err::<EvidenceOverflowId, _>(
            StatementOpError::InvalidArgument("evidence overflow must have at least one entry"),
        ),
        entries@.len() > 0 ==> match r {
            Ok(x) => x == id && wdb(*final(wtxn)) == wdb(*old(wtxn)).insert(
                (Table::EvidenceOverflow, id.0@),
                image::<EvidenceOverflow>(
                    EvidenceOverflow {
                        overflow_id_bytes: id.0,
                        entries: entries@,
                        created_at_unix_nanos: now_unix_nanos,
                    },
                ),
            ),
            Err(e) => e is Storage,
        },
{
    if entries.len() == 0 {
        return Err(StatementOpError::InvalidArgument("evidence overflow must have at least one entry"));
    }
    let row = EvidenceOverflow {
        overflow_id_bytes: id.0,
        entries: copy_entries(entries),
        created_at_unix_nanos: now_unix_nanos,
    };
    match save(wtxn, Table::EvidenceOverflow, id.0.as_slice(), &row) {
        Ok(()) => Ok(id),
        Err(e) => Err(StatementOpError::Storage(e)),
    }
}

// Inserting a statement.

/// A reverse-index row for each memory.
pub open spec fn evidence_indexed(db: Db, scope: RowScope, memories: Seq<[u8; 16]>, id: [u8; 16]) -> Db
    decreases memories.len(),
{
    if memories.len() == 0 {
        db
    } else {
        evidence_indexed(db, scope, memories.drop_last(), id).insert(
            (Table::StatementsByEvidence, by_evidence_key(scope, memories.last(), id)),
            Seq::empty(),
        )
    }
}

/// The rows with a statement row added, and every index entry that leads to it.
/// `memories` are those of its evidence.
pub open spec fn inserted(db: Db, scope: RowScope, s: StatementModel, memories: Seq<[u8; 16]>) -> Db {
    let m = row_of(s, scope);
    let id = s.id.0;
    let d1 = db.insert((Table::Statements, id@), image::<StatementMetadata>(m));
    let d2 = if m.subject_kind != 1 {
        d1.insert(
            (
                Table::StatementsBySubject,
                by_subject_key(scope, m.subject_entity_bytes, m.kind, m.predicate_id, m.is_current, id),
            ),
            id@,
        )
    } else {
        d1
    };
    let d3 = d2.insert(
        (
            Table::StatementsByPredicate,
            by_predicate_key(scope, m.predicate_id, m.kind, bucket_of(m.confidence), id),
        ),
        id@,
    );
    let d4 = match s.object {
        StatementObject::Entity(e) => d3.insert(
            (Table::StatementsByObjectEntity, by_object_key(scope, e.0, m.kind, id)),
            id@,
        ),
        _ => d3,
    };
    let d5 = match (s.kind, s.event_at_unix_nanos) {
        (StatementKind::Event, Some(at)) => d4.insert(
            (Table::StatementsByEventTime, by_event_key(scope, at, m.subject_entity_bytes, id)),
            id@,
        ),
        _ => d4,
    };
    let d6 = evidence_indexed(d5, scope, memories, id);
    let d7 = d6.insert((Table::StatementChain, chain_key(scope, m.chain_root_bytes, m.version)), id@);
    d7.insert((Table::StatementEmbedQueue, id@), be(s.extracted_at_unix_nanos as nat, 8))
}

/// What inserting a statement does. Evidence that leads nowhere is refused.
pub open spec fn insertion(db: Db, scope: RowScope, s: StatementModel) -> Result<Db, StatementOpError> {
    match resolved(db, s.evidence) {
        Err(e) => Err(e),
        Ok(entries) => Ok(inserted(db, scope, s, memories_of(entries))),
    }
}

fn index_evidence(txn: &mut WriteTransaction, scope: &RowScope, entries: &Vec<EvidenceEntry>, id: &[u8; 16]) -> (r: Result<
    (),
    StatementOpError,
>)
    ensures
        entries@.len() == 0 ==> r is Ok,
        r is Ok ==> wdb(*final(txn)) == evidence_indexed(wdb(*old(txn)), *scope, memories_of(entries@), *id),
        r matches Err(e) ==> e is Storage,
{
    let ghost memories = memories_of(entries@);
    let ghost db = wdb(*txn);
    let mut i: usize = 0;
    while i < entries.len()
        invariant
            i <= entries.len(),
            memories == memories_of(entries@),
            wdb(*txn) == evidence_indexed(db, *scope, memories.take(i as int), *id),
        decreases entries.len() - i,
    {
        let key = make_by_evidence_key(scope, &entries[i].memory_id.0, id);
        let empty: Vec<u8> = Vec::new();
        put_value(txn, Table::StatementsByEvidence, key.as_slice(), empty.as_slice())?;
        i = i + 1;
        proof {
            assert(memories.take(i as int).drop_last() =~= memories.take(i as int - 1));
            assert(empty@ =~= Seq::<u8>::empty());
        }
    }
    proof {
        assert(memories.take(i as int) =~= memories);
    }
    Ok(())
}

/// The spilled evidence of a reference is read from a table of its own.
proof fn lemma_resolved_frame(a: Db, b: Db, evidence: EvidenceRef<Seq<EvidenceEntry>>)
    requires
        forall|k: Seq<u8>| #[trigger]
            lookup(a, Table::EvidenceOverflow, k) == lookup(b, Table::EvidenceOverflow, k),
    ensures
        resolved(a, evidence) == resolved(b, evidence),
        carries_metadata(a, evidence) == carries_metadata(b, evidence),
{
}

/// Inserts a statement row and every index entry that leads to it.
pub(crate) fn insert_new_statement(txn: &mut WriteTransaction, scope: RowScope, s: &Statement) -> (r: Result<
    (),
    StatementOpError,
>)
    ensures
        r is Ok ==> insertion(wdb(*old(txn)), scope, s.model()) == Ok::<_, StatementOpError>(wdb(*final(txn))),
        r matches Err(e) ==> e is Storage || insertion(wdb(*old(txn)), scope, s.model()) == Err::<Db, _>(e),
{
    let m = metadata_from_statement(s, scope);
    let id: [u8; 16] = s.id.0;
    let ghost db = wdb(*txn);

    save_statement(txn, &m)?;
    if m.subject_kind != 1 {
        let key = make_by_subject_key(&scope, &m.subject_entity_bytes, m.kind, m.predicate_id, m.is_current, &id);
        put_value(txn, Table::StatementsBySubject, key.as_slice(), id.as_slice())?;
    }
    let key = make_by_predicate_key(&scope, m.predicate_id, m.kind, confidence_bucket(m.confidence), &id);
    put_value(txn, Table::StatementsByPredicate, key.as_slice(), id.as_slice())?;
    if let StatementObject::Entity(e) = &s.object {
        let key = make_by_object_key(&scope, &e.0, m.kind, &id);
        put_value(txn, Table::StatementsByObjectEntity, key.as_slice(), id.as_slice())?;
    }
    if let (StatementKind::Event, Some(at)) = (s.kind, s.event_at_unix_nanos) {
        let key = make_by_event_key(&scope, at, &m.subject_entity_bytes, &id);
        put_value(txn, Table::StatementsByEventTime, key.as_slice(), id.as_slice())?;
    }
    proof {
        lemma_resolved_frame(db, wdb(*txn), s.evidence.model());
    }
    let entries = resolve_evidence_entries(txn, &s.evidence)?;
    index_evidence(txn, &scope, &entries, &id)?;
    let key = make_chain_key(&scope, &m.chain_root_bytes, m.version);
    put_value(txn, Table::StatementChain, key.as_slice(), id.as_slice())?;
    let mut at: Vec<u8> = Vec::new();
    put_be(&mut at, s.extracted_at_unix_nanos, 8);
    proof {
        assert(at@ =~= be(s.extracted_at_unix_nanos as nat, 8));
    }
    put_value(txn, Table::StatementEmbedQueue, id.as_slice(), at.as_slice())
}

// The index by predicate holds an entry for each statement that is current and
// not tombstoned, under the bucket of its confidence. A key is touched only
// while it leads to the statement at hand.

/// The rows without the entry under `key`, if it leads to `id`.
pub open spec fn unindexed(db: Db, key: Seq<u8>, id: [u8; 16]) -> Db {
    if lookup(db, Table::StatementsByPredicate, key) == Some(id@) {
        db.remove((Table::StatementsByPredicate, key))
    } else {
        db
    }
}

/// Removes the entry of a statement that is no longer live.
pub fn remove_from_predicate_index(
    wtxn: &mut WriteTransaction,
    scope: RowScope,
    predicate_id: u32,
    kind: u8,
    confidence: F32,
    statement_id_bytes: &[u8; 16],
) -> (r: Result<(), StatementOpError>)
    ensures
        r is Ok ==> wdb(*final(wtxn)) == unindexed(
            wdb(*old(wtxn)),
            by_predicate_key(scope, predicate_id, kind, bucket_of(confidence), *statement_id_bytes),
            *statement_id_bytes,
        ),
        r matches Err(e) ==> e is Storage,
{
    let key = make_by_predicate_key(&scope, predicate_id, kind, confidence_bucket(confidence), statement_id_bytes);
    if let Some(v) = get_value(wtxn, Table::StatementsByPredicate, key.as_slice())? {
        if bytes_eq(v.as_slice(), statement_id_bytes.as_slice()) {
            remove_key(wtxn, Table::StatementsByPredicate, key.as_slice())?;
        }
    }
    Ok(())
}

/// What a change of confidence does to the index: nothing within one bucket,
/// else the entry moves.
pub open spec fn rekeyed(
    db: Db,
    scope: RowScope,
    predicate_id: u32,
    kind: u8,
    old_confidence: F32,
    new_confidence: F32,
    id: [u8; 16],
) -> Db {
    if bucket_of(old_confidence) == bucket_of(new_confidence) {
        db
    } else {
        unindexed(db, by_predicate_key(scope, predicate_id, kind, bucket_of(old_confidence), id), id).insert(
            (
                Table::StatementsByPredicate,
                by_predicate_key(scope, predicate_id, kind, bucket_of(new_confidence), id),
            ),
            id@,
        )
    }
}

/// Moves the entry of a live statement whose confidence changed.
pub fn rekey_predicate_index(
    wtxn: &mut WriteTransaction,
    scope: RowScope,
    predicate_id: u32,
    kind: u8,
    old_confidence: F32,
    new_confidence: F32,
    statement_id_bytes: &[u8; 16],
) -> (r: Result<(), StatementOpError>)
    ensures
        bucket_of(old_confidence) == bucket_of(new_confidence) ==> r is Ok,
        r is Ok ==> wdb(*final(wtxn)) == rekeyed(
            wdb(*old(wtxn)),
            scope,
            predicate_id,
            kind,
            old_confidence,
            new_confidence,
            *statement_id_bytes,
        ),
        r matches Err(e) ==> e is Storage,
{
    let new_bucket: u8 = confidence_bucket(new_confidence);
    if confidence_bucket(old_confidence) == new_bucket {
        return Ok(());
    }
    remove_from_predicate_index(wtxn, scope, predicate_id, kind, old_confidence, statement_id_bytes)?;
    let key = make_by_predicate_key(&scope, predicate_id, kind, new_bucket, statement_id_bytes);
    put_value(wtxn, Table::StatementsByPredicate, key.as_slice(), statement_id_bytes.as_slice())
}

/// The rows with a statement's entry in the index by subject moved from current
/// to not current.
pub open spec fn retired(db: Db, scope: RowScope, m: StatementRowModel) -> Db {
    db.remove(
        (
            Table::StatementsBySubject,
            by_subject_key(scope, m.subject_entity_bytes, m.kind, m.predicate_id, 1, m.statement_id_bytes),
        ),
    ).insert(
        (
            Table::StatementsBySubject,
            by_subject_key(scope, m.subject_entity_bytes, m.kind, m.predicate_id, 0, m.statement_id_bytes),
        ),
        m.statement_id_bytes@,
    )
}

/// Moves a statement's entry in the index by subject from current to not
/// current.
pub(crate) fn flip_by_subject_to_noncurrent(txn: &mut WriteTransaction, scope: RowScope, m: &StatementMetadata) -> (r:
    Result<(), StatementOpError>)
    ensures
        r is Ok ==> wdb(*final(txn)) == retired(wdb(*old(txn)), scope, m.model()),
        r matches Err(e) ==> e is Storage,
{
    let key = make_by_subject_key(
        &scope,
        &m.subject_entity_bytes,
        m.kind,
        m.predicate_id,
        1,
        &m.statement_id_bytes,
    );
    remove_key(txn, Table::StatementsBySubject, key.as_slice())?;
    let key = make_by_subject_key(
        &scope,
        &m.subject_entity_bytes,
        m.kind,
        m.predicate_id,
        0,
        &m.statement_id_bytes,
    );
    put_value(txn, Table::StatementsBySubject, key.as_slice(), m.statement_id_bytes.as_slice())
}

// Looking up the current statements of a subject.

/// The identifier that an index value holds.
pub open spec fn id_in(value: Seq<u8>) -> Result<[u8; 16], StatementOpError> {
    if value.len() == 16 {
        Ok(choose|a: [u8; 16]| a@ == value)
    } else {
        Err(StatementOpError::DecodeFailed)
    }
}

/// The bytes of an identifier hold that identifier.
pub proof fn lemma_id_in(id: [u8; 16])
    ensures
        id_in(id@) == Ok::<_, StatementOpError>(id),
{
    let a = choose|a: [u8; 16]| a@ == id@;
    assert(a =~= id);
}

/// Reads the identifier that an index value holds.
pub(crate) fn read_id(value: &Vec<u8>) -> (r: Result<[u8; 16], StatementOpError>)
    ensures
        r == id_in(value@),
{
    if value.len() == 16 {
        let id = get_array::<16>(value.as_slice(), 0);
        proof {
            assert(id@ =~= value@);
            lemma_id_in(id);
        }
        Ok(id)
    } else {
        Err(StatementOpError::DecodeFailed)
    }
}

/// The first current statement of a subject, kind and predicate.
pub open spec fn current_statement(
    db: Db,
    scope: RowScope,
    subject: EntityId,
    predicate: PredicateId,
    kind: StatementKind,
) -> Result<Option<StatementId>, StatementOpError> {
    let found = scan(
        db,
        Table::StatementsBySubject,
        by_subject_prefix(scope, subject.0, kind.byte(), predicate.0, 1),
    );
    if found.len() == 0 {
        Ok(None)
    } else {
        match id_in(found[0].1) {
            Ok(id) => Ok(Some(StatementId(id))),
            Err(e) => Err(e),
        }
    }
}

/// Looks up the current statement of a subject, kind and predicate.
fn find_current_statement(
    txn: &mut WriteTransaction,
    scope: RowScope,
    subject: EntityId,
    predicate: PredicateId,
    kind: StatementKind,
) -> (r: Result<Option<StatementId>, StatementOpError>)
    ensures
        r is Ok ==> scanned(
            wdb(*old(txn)),
            Table::StatementsBySubject,
            by_subject_prefix(scope, subject.0, kind.byte(), predicate.0, 1),
        ),
        wdb(*final(txn)) == wdb(*old(txn)),
        r matches Ok(x) ==> current_statement(wdb(*old(txn)), scope, subject, predicate, kind) == Ok::<
            _,
            StatementOpError,
        >(x),
        r matches Err(e) ==> e is Storage || current_statement(wdb(*old(txn)), scope, subject, predicate, kind)
            == Err::<Option<StatementId>, _>(e),
{
    let prefix = make_by_subject_prefix(&scope, &subject.0, kind.as_u8(), predicate.0, 1);
    let found = match scan_prefix(txn, Table::StatementsBySubject, prefix.as_slice()) {
        Ok(v) => v,
        Err(e) => return Err(StatementOpError::Storage(e)),
    };
    if found.len() == 0 {
        return Ok(None);
    }
    let id = read_id(&found[0].1)?;
    Ok(Some(StatementId(id)))
}

/// The statement that an index entry leads to. An entry whose row is gone, or
/// holds an unknown kind or subject, leads to none.
pub open spec fn statement_behind(db: Db, value: Seq<u8>) -> Result<Option<StatementModel>, StatementOpError> {
    match id_in(value) {
        Err(e) => Err(e),
        Ok(id) => match slot::<StatementMetadata>(db, Table::Statements, id@) {
            Slot::Absent => Ok(None),
            Slot::Corrupt => Err(StatementOpError::DecodeFailed),
            Slot::Row(m) => Ok(statement_of(m)),
        },
    }
}

/// The statements that index entries lead to, in order.
pub open spec fn statements_behind(db: Db, entries: Seq<(Seq<u8>, Seq<u8>)>) -> Result<
    Seq<StatementModel>,
    StatementOpError,
> {
    collect(entries, |kv: (Seq<u8>, Seq<u8>)| statement_behind(db, kv.1))
}

/// The current facts about a subject and predicate.
pub open spec fn active_facts(db: Db, scope: RowScope, subject: EntityId, predicate: PredicateId) -> Result<
    Seq<StatementModel>,
    StatementOpError,
> {
    statements_behind(
        db,
        scan(
            db,
            Table::StatementsBySubject,
            by_subject_prefix(scope, subject.0, StatementKind::Fact.byte(), predicate.0, 1),
        ),
    )
}

/// Statements as they are spoken of.
pub open spec fn statement_models(v: Seq<Statement>) -> Seq<StatementModel> {
    v.map_values(|s: Statement| s.model())
}

/// Loads the current facts about a subject and predicate, as the transaction
/// sees them.
fn load_active_facts_for_subject_predicate_wtxn(
    txn: &mut WriteTransaction,
    scope: RowScope,
    subject: EntityId,
    predicate: PredicateId,
) -> (r: Result<Vec<Statement>, StatementOpError>)
    ensures
        r is Ok ==> scanned(
            wdb(*old(txn)),
            Table::StatementsBySubject,
            by_subject_prefix(scope, subject.0, StatementKind::Fact.byte(), predicate.0, 1),
        ),
        wdb(*final(txn)) == wdb(*old(txn)),
        r matches Ok(v) ==> active_facts(wdb(*old(txn)), scope, subject, predicate) == Ok::<_, StatementOpError>(
            statement_models(v@),
        ),
        r matches Err(e) ==> e is Storage || active_facts(wdb(*old(txn)), scope, subject, predicate) == Err::<
            Seq<StatementModel>,
            _,
        >(e),
{
    let prefix = make_by_subject_prefix(&scope, &subject.0, StatementKind::Fact.as_u8(), predicate.0, 1);
    let found = match scan_prefix(txn, Table::StatementsBySubject, prefix.as_slice()) {
        Ok(v) => v,
        Err(e) => return Err(StatementOpError::Storage(e)),
    };
    let ghost db = wdb(*old(txn));
    let ghost entries = entry_models(found@);
    let ghost f = |kv: (Seq<u8>, Seq<u8>)| statement_behind(db, kv.1);
    let mut out: Vec<Statement> = Vec::new();
    let mut i: usize = 0;
    proof {
        assert(entries.take(0) =~= Seq::<(Seq<u8>, Seq<u8>)>::empty());
        assert(statement_models(out@) =~= Seq::<StatementModel>::empty());
    }
    while i < found.len()
        invariant
            i <= found.len(),
            db == wdb(*old(txn)),
            wdb(*txn) == db,
            entries == entry_models(found@),
            f == (|kv: (Seq<u8>, Seq<u8>)| statement_behind(db, kv.1)),
            collect(entries.take(i as int), f) == Ok::<_, StatementOpError>(statement_models(out@)),
            active_facts(db, scope, subject, predicate) == collect(entries, f),
        decreases found.len() - i,
    {
        proof {
            lemma_collect_step(entries, f, i as int);
            if collect(entries.take(i + 1), f) is Err {
                lemma_collect_fails(entries, f, i + 1);
            }
        }
        let id = read_id(&found[i].1)?;
        if let Some(m) = load_statement(txn, &id)? {
            if let Some(s) = statement_from_metadata(&m) {
                let ghost before = statement_models(out@);
                let ghost sm = s.model();
                out.push(s);
                proof {
                    assert(statement_models(out@) =~= before.push(sm));
                }
            }
        }
        i = i + 1;
    }
    proof {
        assert(entries.take(i as int) =~= entries);
    }
    Ok(out)
}

// Creating a statement.

/// What a statement must satisfy by itself.
pub open spec fn shape_checked(s: StatementModel) -> Result<(), StatementOpError> {
    if !s.confidence.in_unit_spec() {
        Err(StatementOpError::InvalidArgument("confidence must be in [0, 1] and not NaN"))
    } else if s.kind == StatementKind::Event && s.event_at_unix_nanos is None {
        Err(StatementOpError::InvalidArgument("Event requires event_at_unix_nanos"))
    } else if s.kind != StatementKind::Event && s.event_at_unix_nanos is Some {
        Err(StatementOpError::InvalidArgument("only Event may set event_at_unix_nanos"))
    } else if s.valid_from_unix_nanos matches Some(from) && s.valid_to_unix_nanos matches Some(to) && from > to {
        Err(StatementOpError::InvalidArgument("valid_from must be <= valid_to"))
    } else {
        Ok(())
    }
}

/// Checks what a statement must satisfy by itself.
pub fn validate_statement_shape(s: &Statement) -> (r: Result<(), StatementOpError>)
    ensures
        r == shape_checked(s.model()),
{
    if !s.confidence.in_unit() {
        return Err(StatementOpError::InvalidArgument("confidence must be in [0, 1] and not NaN"));
    }
    match s.kind {
        StatementKind::Event => {
            if s.event_at_unix_nanos.is_none() {
                return Err(StatementOpError::InvalidArgument("Event requires event_at_unix_nanos"));
            }
        },
        _ => {
            if s.event_at_unix_nanos.is_some() {
                return Err(StatementOpError::InvalidArgument("only Event may set event_at_unix_nanos"));
            }
        },
    }
    if let (Some(from), Some(to)) = (s.valid_from_unix_nanos, s.valid_to_unix_nanos) {
        if from > to {
            return Err(StatementOpError::InvalidArgument("valid_from must be <= valid_to"));
        }
    }
    Ok(())
}

/// What a predicate demands of its statements.
pub open spec fn predicate_checked(s: StatementModel, p: Predicate<Seq<char>>) -> Result<(), StatementOpError> {
    if p.kind_constraint matches Some(k) && k != s.kind {
        Err(StatementOpError::InvalidArgument("statement kind violates predicate kind_constraint"))
    } else if p.object_type_constraint_byte != 0 && p.object_type_constraint_byte != s.object.variant() + 1 {
        Err(
            StatementOpError::InvalidArgument(
                "statement object variant violates predicate object_type_constraint",
            ),
        )
    } else {
        Ok(())
    }
}

/// Checks what a predicate demands of its statements.
pub fn validate_against_predicate(s: &Statement, p: &Predicate) -> (r: Result<(), StatementOpError>)
    ensures
        r == predicate_checked(s.model(), p.model()),
{
    if let Some(want) = p.kind_constraint {
        if want != s.kind {
            return Err(StatementOpError::InvalidArgument("statement kind violates predicate kind_constraint"));
        }
    }
    if p.object_type_constraint_byte != 0 {
        if p.object_type_constraint_byte != s.object.discriminant() + 1 {
            return Err(
                StatementOpError::InvalidArgument(
                    "statement object variant violates predicate object_type_constraint",
                ),
            );
        }
    }
    Ok(())
}

/// The key of a registered predicate.
pub open spec fn predicate_key(id: u32) -> Seq<u8> {
    be(id as nat, 4)
}

/// The part of the checks on a new statement that no row is read for.
pub open spec fn checked_unread(s: StatementModel) -> Result<(), StatementOpError> {
    match shape_checked(s) {
        Err(e) => Err(e),
        Ok(_) => if s.subject is Pending {
            Err(StatementOpError::InvalidArgument("pending subjects deferred to phase 22 audits"))
        } else {
            Ok(())
        },
    }
}

/// Whether a statement may be created, by its shape, its subject, its predicate
/// and its identifier, in this order; and its predicate, if it may.
pub open spec fn admitted(db: Db, s: StatementModel) -> Result<Predicate<Seq<char>>, StatementOpError> {
    match shape_checked(s) {
        Err(e) => Err(e),
        Ok(_) => if s.subject is Pending {
            Err(StatementOpError::InvalidArgument("pending subjects deferred to phase 22 audits"))
        } else if s.subject matches SubjectRef::Entity(e) && lookup(db, Table::Entities, e.0@) is None {
            Err(StatementOpError::UnknownSubject(s.subject->Entity_0))
        } else {
            match slot::<PredicateDefinition>(db, Table::Predicates, predicate_key(s.predicate.0)) {
                Slot::Absent => Err(StatementOpError::UnknownPredicate(s.predicate.0)),
                Slot::Corrupt => Err(StatementOpError::DecodeFailed),
                Slot::Row(m) => match predicate_checked(s, predicate_of(m)) {
                    Err(e) => Err(e),
                    Ok(_) => if lookup(db, Table::Statements, s.id.0@) is Some {
                        Err(StatementOpError::AlreadyExists(s.id))
                    } else {
                        Ok(predicate_of(m))
                    },
                },
            }
        },
    }
}

fn check_create(txn: &mut WriteTransaction, s: &Statement) -> (r: Result<Predicate, StatementOpError>)
    ensures
        wdb(*final(txn)) == wdb(*old(txn)),
        r matches Ok(p) ==> admitted(wdb(*old(txn)), s.model()) == Ok::<_, StatementOpError>(p.model()),
        checked_unread(s.model()) matches Err(e) ==> r == Err::<Predicate, _>(e),
        r matches Err(e) ==> e is Storage || admitted(wdb(*old(txn)), s.model()) == Err::<Predicate<Seq<char>>, _>(e),
{
    validate_statement_shape(s)?;
    match &s.subject {
        SubjectRef::Pending(_) => {
            return Err(StatementOpError::InvalidArgument("pending subjects deferred to phase 22 audits"));
        },
        SubjectRef::Entity(e) => {
            if get_value(txn, Table::Entities, e.0.as_slice())?.is_none() {
                return Err(StatementOpError::UnknownSubject(*e));
            }
        },
        SubjectRef::Memory(_) => {},
    }
    let mut key: Vec<u8> = Vec::new();
    put_be(&mut key, s.predicate.0 as u64, 4);
    proof {
        assert(key@ =~= predicate_key(s.predicate.0));
    }
    let row = match load::<PredicateDefinition>(txn, Table::Predicates, key.as_slice()) {
        Ok(Some(m)) => m,
        Ok(None) => return Err(StatementOpError::UnknownPredicate(s.predicate.0)),
        Err(e) => return Err(load_failed(e)),
    };
    let p = row.to_predicate();
    validate_against_predicate(s, &p)?;
    if get_value(txn, Table::Statements, s.id.0.as_slice())?.is_some() {
        return Err(StatementOpError::AlreadyExists(s.id));
    }
    Ok(p)
}

/// The statements that disagree with `s`, and `s` itself.
pub open spec fn contradicting(active: Seq<StatementModel>, s: StatementModel) -> Seq<[u8; 16]> {
    active.map_values(|a: StatementModel| a.id.0).push(s.id.0)
}

/// Whether a statement has another object than one of `active`.
pub open spec fn contradicts(active: Seq<StatementModel>, s: StatementModel) -> bool {
    exists|i: int| 0 <= i < active.len() && (#[trigger] active[i]).object != s.object
}

/// The rows after a new fact was held against the current ones: a disagreement
/// is recorded.
pub open spec fn probed(db: Db, scope: RowScope, s: StatementModel, ctx: WriteContext) -> Result<Db, StatementOpError> {
    match (s.kind, s.subject) {
        (StatementKind::Fact, SubjectRef::Entity(e)) => match active_facts(db, scope, e, s.predicate) {
            Err(x) => Err(x),
            Ok(active) => if contradicts(active, s) {
                recorded(db, e, s.predicate, contradicting(active, s), ctx.fresh_audit_id, ctx.now_unix_nanos)
            } else {
                Ok(db)
            },
        },
        _ => Ok(db),
    }
}

/// What creating a statement that supersedes nothing does.
pub open spec fn appended(db: Db, scope: RowScope, s: StatementModel, ctx: WriteContext) -> Result<
    (Db, StatementId),
    StatementOpError,
> {
    match probed(db, scope, s, ctx) {
        Err(e) => Err(e),
        Ok(d) => match stored_confidence(d, s, ctx.aggregated_now) {
            Err(e) => Err(e),
            Ok(c) => match insertion(d, scope, Statement { confidence: c, ..s }) {
                Err(e) => Err(e),
                Ok(d2) => Ok((d2, s.id)),
            },
        },
    }
}

/// Whether the current statements that a new one is held against can be listed.
pub open spec fn create_scanned(db: Db, scope: RowScope, s: StatementModel) -> bool {
    let prefix = by_subject_prefix(scope, s.subject.id_bytes(), s.kind.byte(), s.predicate.0, 1);
    s.kind == StatementKind::Fact || single_valued(s.kind) ==> scanned(db, Table::StatementsBySubject, prefix)
}

/// Whether a kind holds one value at a time.
pub open spec fn single_valued(kind: StatementKind) -> bool {
    kind == StatementKind::Preference
}

/// What creating a statement does. A statement of a single-valued kind, or of a
/// stateful predicate, supersedes the current one of its subject; an event never
/// does.
pub open spec fn created(db: Db, scope: RowScope, s: StatementModel, ctx: WriteContext) -> Result<
    (Db, StatementId),
    StatementOpError,
> {
    match admitted(db, s) {
        Err(e) => Err(e),
        Ok(p) => match s.subject {
            SubjectRef::Entity(e) => if (single_valued(s.kind) || p.is_stateful) && s.kind != StatementKind::Event {
                match current_statement(db, scope, e, s.predicate, s.kind) {
                    Err(x) => Err(x),
                    Ok(Some(prior)) => superseded(db, scope, prior, s, ctx),
                    Ok(None) => appended(db, scope, s, ctx),
                }
            } else {
                appended(db, scope, s, ctx)
            },
            _ => appended(db, scope, s, ctx),
        },
    }
}

fn probe(txn: &mut WriteTransaction, scope: RowScope, s: &Statement, ctx: &WriteContext) -> (r: Result<
    (),
    StatementOpError,
>)
    ensures
        r is Ok && s.kind == StatementKind::Fact && s.subject is Entity ==> create_scanned(
            wdb(*old(txn)),
            scope,
            s.model(),
        ),
        r is Ok ==> probed(wdb(*old(txn)), scope, s.model(), *ctx) == Ok::<_, StatementOpError>(wdb(*final(txn))),
        r matches Err(e) ==> e is Storage || probed(wdb(*old(txn)), scope, s.model(), *ctx) == Err::<Db, _>(e),
{
    if let (StatementKind::Fact, SubjectRef::Entity(subject)) = (s.kind, s.subject) {
        let active = load_active_facts_for_subject_predicate_wtxn(txn, scope, subject, s.predicate)?;
        let ghost models = statement_models(active@);
        let mut ids: Vec<StatementId> = Vec::new();
        let mut differ: bool = false;
        let mut i: usize = 0;
        while i < active.len()
            invariant
                i <= active.len(),
                models == statement_models(active@),
                ids@.len() == i,
                forall|j: int| 0 <= j < i ==> (#[trigger] ids@[j]) == active@[j].id,
                differ == exists|j: int| 0 <= j < i && (#[trigger] models[j]).object != s.model().object,
            decreases active.len() - i,
        {
            ids.push(active[i].id);
            let same: bool = active[i].object.same(&s.object);
            proof {
                assert(models[i as int] == active@[i as int].model());
            }
            if !same {
                differ = true;
            }
            i = i + 1;
        }
        if differ {
            ids.push(s.id);
            proof {
                assert(id_bytes(ids@) =~= contradicting(models, s.model()));
            }
            contradiction_audit_record(txn, subject, s.predicate, &ids, ctx.fresh_audit_id, ctx.now_unix_nanos)?;
        }
    }
    Ok(())
}

/// Creates a statement: checks it, lets it supersede the current one where its
/// kind or predicate holds one value, records a disagreement with current
/// facts, and inserts it.
pub fn statement_create(wtxn: &mut WriteTransaction, scope: RowScope, s: &Statement, ctx: &WriteContext) -> (r: Result<
    StatementId,
    StatementOpError,
>)
    ensures
        r is Ok && s.subject is Entity && s.kind != StatementKind::Event ==> create_scanned(
            wdb(*old(wtxn)),
            scope,
            s.model(),
        ),
        r matches Ok(id) ==> created(wdb(*old(wtxn)), scope, s.model(), *ctx) == Ok::<_, StatementOpError>(
            (wdb(*final(wtxn)), id),
        ),
        r matches Err(e) ==> e is Storage || created(wdb(*old(wtxn)), scope, s.model(), *ctx) == Err::<
            (Db, StatementId),
            _,
        >(e),
        checked_unread(s.model()) matches Err(e) ==> r == Err::<StatementId, _>(e),
        admitted(wdb(*old(wtxn)), s.model()) is Err ==> wdb(*final(wtxn)) == wdb(*old(wtxn)),
{
    let p = check_create(wtxn, s)?;
    if let SubjectRef::Entity(subject) = s.subject {
        if (s.kind == StatementKind::Preference || p.is_stateful) && s.kind != StatementKind::Event {
            if let Some(prior) = find_current_statement(wtxn, scope, subject, s.predicate, s.kind)? {
                return statement_supersede(wtxn, scope, prior, s, ctx);
            }
        }
    }
    probe(wtxn, scope, s, ctx)?;
    let mut to_insert = s.copy();
    recompute_confidence_from_evidence(wtxn, &mut to_insert, ctx.aggregated_now)?;
    insert_new_statement(wtxn, scope, &to_insert)?;
    Ok(to_insert.id)
}

} // verus!
