//! What holds of the statement tables as a whole.

use vstd::prelude::*;

use crate::bytes::{be, lemma_be_injective, lemma_be_len, lemma_be_order, lemma_lex_join, lemma_pow256_values};
use crate::catalog::Table;
use crate::order::{has_prefix, lex_lt};
use crate::row::{fits, image, lemma_parsed, parsed, slot, Row, Slot};
use crate::statement::contradiction::{
    disagree, lemma_union_ids, live_ids, live_object, live_objects, pending_pass, recorded, union_ids,
};
use crate::statement::crud::{
    admitted, appended, created, current_statement, evidence_indexed, inserted, lemma_id_in, memories_of, probed,
    resolved, shape_checked, single_valued, statement_at, stored_confidence,
};
use crate::statement::supersede::{
    deactivated, next_version, outdated, root_of, successor, supersede_checked, superseded,
};
use crate::statement::tombstone::{buried, tombstoned};
use crate::statement::{StatementOpError, WriteContext};
use crate::store::{lemma_scan_exists, lookup, scan, Db};
use crate::tables::contradiction::{contradiction_key, contradiction_outcome, ContradictionAudit, ContradictionModel};
use crate::tables::statement::{
    bucket_of, by_event_key, by_evidence_key, by_object_key, by_predicate_key, by_subject_key, by_subject_prefix,
    chain_key, lemma_statement_of_row, row_of, scope_of, Statement, StatementMetadata, StatementModel, StatementObject,
    StatementRowModel, TombstoneReason,
};
use crate::types::{scope_key, AuditId, EntityId, PredicateId, RowScope, StatementId, StatementKind, F32};

pub mod admission;
pub mod chains;
pub mod citing;
pub mod deciding;
pub mod disagreements;
pub mod facts;
pub mod indexing;
pub mod listing;
pub mod writing;

verus! {

// Keys.

/// A scope's key has 20 bytes.
pub proof fn lemma_scope_key_len(s: RowScope)
    ensures
        scope_key(s).len() == 20,
{
    lemma_be_len(s.namespace_id as nat, 4);
}

/// No key belongs to two scopes: scopes whose bytes begin one key are the same.
pub proof fn lemma_scopes_apart(a: RowScope, b: RowScope, key: Seq<u8>)
    requires
        has_prefix(key, scope_key(a)),
        has_prefix(key, scope_key(b)),
    ensures
        a == b,
{
    lemma_scope_key_len(a);
    lemma_scope_key_len(b);
    let x = scope_key(a);
    let y = scope_key(b);
    assert(x == y);
    lemma_pow256_values();
    lemma_be_len(a.namespace_id as nat, 4);
    lemma_be_len(b.namespace_id as nat, 4);
    assert(x.subrange(0, 4) =~= be(a.namespace_id as nat, 4));
    assert(y.subrange(0, 4) =~= be(b.namespace_id as nat, 4));
    lemma_be_injective(a.namespace_id as nat, b.namespace_id as nat, 4);
    assert(x.subrange(4, 20) =~= a.agent_id_bytes@);
    assert(y.subrange(4, 20) =~= b.agent_id_bytes@);
    assert(a.agent_id_bytes =~= b.agent_id_bytes);
}

/// Every key of an index begins with its scope, so what is read by the head of
/// one scope is of that scope alone.
pub proof fn lemma_keys_begin_with_scope(
    scope: RowScope,
    a: [u8; 16],
    id: [u8; 16],
    predicate: u32,
    kind: u8,
    small: u8,
    version: u32,
    at: u64,
)
    ensures
        has_prefix(by_subject_key(scope, a, kind, predicate, small, id), scope_key(scope)),
        has_prefix(by_predicate_key(scope, predicate, kind, small, id), scope_key(scope)),
        has_prefix(by_object_key(scope, a, kind, id), scope_key(scope)),
        has_prefix(by_event_key(scope, at, a, id), scope_key(scope)),
        has_prefix(by_evidence_key(scope, a, id), scope_key(scope)),
        has_prefix(chain_key(scope, a, version), scope_key(scope)),
{
    lemma_scope_key_len(scope);
    let p = scope_key(scope);
    assert(by_subject_key(scope, a, kind, predicate, small, id).take(20) =~= p);
    assert(by_predicate_key(scope, predicate, kind, small, id).take(20) =~= p);
    assert(by_object_key(scope, a, kind, id).take(20) =~= p);
    assert(by_event_key(scope, at, a, id).take(20) =~= p);
    assert(by_evidence_key(scope, a, id).take(20) =~= p);
    assert(chain_key(scope, a, version).take(20) =~= p);
}

/// In a chain the later version has the later key, so a history is in the order
/// of the versions.
pub proof fn lemma_chain_in_version_order(scope: RowScope, root: [u8; 16], a: u32, b: u32)
    requires
        a < b,
    ensures
        lex_lt(chain_key(scope, root, a), chain_key(scope, root, b)),
{
    let p = scope_key(scope) + root@;
    lemma_pow256_values();
    lemma_be_order(a as nat, b as nat, 4);
    lemma_lex_join(p, p, be(a as nat, 4), be(b as nat, 4));
}

/// Among the events of a scope the later has the later key.
pub proof fn lemma_events_in_time_order(
    scope: RowScope,
    a_at: u64,
    a_subject: [u8; 16],
    a: [u8; 16],
    b_at: u64,
    b_subject: [u8; 16],
    b: [u8; 16],
)
    requires
        a_at < b_at,
    ensures
        lex_lt(by_event_key(scope, a_at, a_subject, a), by_event_key(scope, b_at, b_subject, b)),
{
    let p = scope_key(scope);
    lemma_pow256_values();
    lemma_be_len(a_at as nat, 8);
    lemma_be_len(b_at as nat, 8);
    lemma_be_order(a_at as nat, b_at as nat, 8);
    let x = a_subject@ + a@;
    let y = b_subject@ + b@;
    lemma_lex_join(be(a_at as nat, 8), be(b_at as nat, 8), x, y);
    lemma_lex_join(p, p, be(a_at as nat, 8) + x, be(b_at as nat, 8) + y);
    assert(by_event_key(scope, a_at, a_subject, a) =~= p + (be(a_at as nat, 8) + x));
    assert(by_event_key(scope, b_at, b_subject, b) =~= p + (be(b_at as nat, 8) + y));
}

/// The key of a row in the index by subject.
pub open spec fn subject_key(m: StatementRowModel) -> Seq<u8> {
    by_subject_key(scope_of(m), m.subject_entity_bytes, m.kind, m.predicate_id, m.is_current, m.statement_id_bytes)
}

/// The key of a row in the index by predicate.
pub open spec fn predicate_key_of(m: StatementRowModel) -> Seq<u8> {
    by_predicate_key(scope_of(m), m.predicate_id, m.kind, bucket_of(m.confidence), m.statement_id_bytes)
}

proof fn lemma_subject_key_names_row(a: StatementRowModel, b: StatementRowModel)
    requires
        subject_key(a) == subject_key(b),
    ensures
        a.statement_id_bytes == b.statement_id_bytes,
        a.is_current == b.is_current,
        a.kind == b.kind,
        a.predicate_id == b.predicate_id,
        a.subject_entity_bytes == b.subject_entity_bytes,
        scope_of(a) == scope_of(b),
{
    let x = subject_key(a);
    let y = subject_key(b);
    lemma_scope_key_len(scope_of(a));
    lemma_scope_key_len(scope_of(b));
    lemma_be_len(a.predicate_id as nat, 4);
    lemma_be_len(b.predicate_id as nat, 4);
    lemma_pow256_values();
    assert(x.take(20) =~= scope_key(scope_of(a)));
    assert(y.take(20) =~= scope_key(scope_of(b)));
    lemma_scopes_apart(scope_of(a), scope_of(b), x);
    assert(x.subrange(20, 36) =~= a.subject_entity_bytes@);
    assert(y.subrange(20, 36) =~= b.subject_entity_bytes@);
    assert(a.subject_entity_bytes =~= b.subject_entity_bytes);
    assert(x[36] == a.kind && y[36] == b.kind);
    assert(x.subrange(37, 41) =~= be(a.predicate_id as nat, 4));
    assert(y.subrange(37, 41) =~= be(b.predicate_id as nat, 4));
    lemma_be_injective(a.predicate_id as nat, b.predicate_id as nat, 4);
    assert(x[41] == a.is_current && y[41] == b.is_current);
    assert(x.subrange(42, 58) =~= a.statement_id_bytes@);
    assert(y.subrange(42, 58) =~= b.statement_id_bytes@);
    assert(a.statement_id_bytes =~= b.statement_id_bytes);
}

proof fn lemma_predicate_key_names_row(a: StatementRowModel, b: StatementRowModel)
    requires
        predicate_key_of(a) == predicate_key_of(b),
    ensures
        a.statement_id_bytes == b.statement_id_bytes,
{
    let x = predicate_key_of(a);
    let y = predicate_key_of(b);
    lemma_scope_key_len(scope_of(a));
    lemma_scope_key_len(scope_of(b));
    lemma_be_len(a.predicate_id as nat, 4);
    lemma_be_len(b.predicate_id as nat, 4);
    assert(x.subrange(26, 42) =~= a.statement_id_bytes@);
    assert(y.subrange(26, 42) =~= b.statement_id_bytes@);
    assert(a.statement_id_bytes =~= b.statement_id_bytes);
}

// The tables agree with each other.

/// The row under a key is a row of that identifier, and the indexes lead to it:
/// the one by subject in any case, the one by predicate while it is current.
pub open spec fn row_sound(db: Db, k: Seq<u8>) -> bool {
    &&& slot::<StatementMetadata>(db, Table::Statements, k) matches Slot::Row(m)
    &&& m.statement_id_bytes@ == k
    &&& m.is_current <= 1
    &&& m.subject_kind != 1
    &&& lookup(db, Table::StatementsBySubject, subject_key(m)) == Some(k)
    &&& m.is_current != 0 ==> lookup(db, Table::StatementsByPredicate, predicate_key_of(m)) == Some(k)
}

/// The entry under a key of the index by subject leads to a row with that key.
pub open spec fn subject_entry_sound(db: Db, k: Seq<u8>) -> bool {
    &&& lookup(db, Table::StatementsBySubject, k) matches Some(v)
    &&& slot::<StatementMetadata>(db, Table::Statements, v) matches Slot::Row(m)
    &&& subject_key(m) == k
}

/// The entry under a key of the index by predicate leads to a current row with
/// that key.
pub open spec fn predicate_entry_sound(db: Db, k: Seq<u8>) -> bool {
    &&& lookup(db, Table::StatementsByPredicate, k) matches Some(v)
    &&& slot::<StatementMetadata>(db, Table::Statements, v) matches Slot::Row(m)
    &&& m.is_current != 0
    &&& predicate_key_of(m) == k
}

/// The rows and the indexes by subject and by predicate agree: the index by
/// subject holds every row, with its current flag, and the index by predicate
/// holds the current rows and no others.
pub open spec fn sound(db: Db) -> bool {
    &&& forall|k: Seq<u8>| lookup(db, Table::Statements, k) is Some ==> #[trigger] row_sound(db, k)
    &&& forall|k: Seq<u8>|
        lookup(db, Table::StatementsBySubject, k) is Some ==> #[trigger] subject_entry_sound(db, k)
    &&& forall|k: Seq<u8>|
        lookup(db, Table::StatementsByPredicate, k) is Some ==> #[trigger] predicate_entry_sound(db, k)
}

/// An empty database is sound.
pub proof fn lemma_empty_is_sound(db: Db)
    requires
        db.rows == Map::<(Table, Seq<u8>), Seq<u8>>::empty(),
    ensures
        sound(db),
{
}

/// Soundness is a matter of three tables alone.
proof fn lemma_sound_frame(a: Db, b: Db)
    requires
        sound(a),
        forall|k: Seq<u8>| #[trigger] lookup(b, Table::Statements, k) == lookup(a, Table::Statements, k),
        forall|k: Seq<u8>| #[trigger]
            lookup(b, Table::StatementsBySubject, k) == lookup(a, Table::StatementsBySubject, k),
        forall|k: Seq<u8>| #[trigger]
            lookup(b, Table::StatementsByPredicate, k) == lookup(a, Table::StatementsByPredicate, k),
    ensures
        sound(b),
{
    assert forall|k: Seq<u8>| lookup(b, Table::Statements, k) is Some implies #[trigger] row_sound(b, k) by {
        assert(row_sound(a, k));
    }
    assert forall|k: Seq<u8>| lookup(b, Table::StatementsBySubject, k) is Some implies #[trigger] subject_entry_sound(
        b,
        k,
    ) by {
        assert(subject_entry_sound(a, k));
    }
    assert forall|k: Seq<u8>|
        lookup(b, Table::StatementsByPredicate, k) is Some implies #[trigger] predicate_entry_sound(b, k) by {
        assert(predicate_entry_sound(a, k));
    }
}

/// One row changes from `was` to `now`, and its entries with it.
proof fn lemma_one_row_changes(db: Db, d: Db, was: Option<StatementRowModel>, now: StatementRowModel)
    requires
        sound(db),
        fits::<StatementMetadata>(now),
        now.is_current <= 1,
        now.subject_kind != 1,
        match was {
            Some(m) => m.statement_id_bytes == now.statement_id_bytes && slot::<StatementMetadata>(
                db,
                Table::Statements,
                m.statement_id_bytes@,
            ) == Slot::Row(m),
            None => lookup(db, Table::Statements, now.statement_id_bytes@) is None,
        },
        forall|k: Seq<u8>| #[trigger]
            lookup(d, Table::Statements, k) == if k == now.statement_id_bytes@ {
                Some(image::<StatementMetadata>(now))
            } else {
                lookup(db, Table::Statements, k)
            },
        forall|k: Seq<u8>| #[trigger]
            lookup(d, Table::StatementsBySubject, k) == if k == subject_key(now) {
                Some(now.statement_id_bytes@)
            } else if was is Some && k == subject_key(was->Some_0) {
                None
            } else {
                lookup(db, Table::StatementsBySubject, k)
            },
        forall|k: Seq<u8>| #[trigger]
            lookup(d, Table::StatementsByPredicate, k) == if now.is_current != 0 && k == predicate_key_of(now) {
                Some(now.statement_id_bytes@)
            } else if was is Some && k == predicate_key_of(was->Some_0) {
                None
            } else {
                lookup(db, Table::StatementsByPredicate, k)
            },
    ensures
        sound(d),
{
    let id = now.statement_id_bytes@;
    lemma_parsed::<StatementMetadata>(now);
    assert forall|k: Seq<u8>| lookup(d, Table::Statements, k) is Some implies #[trigger] row_sound(d, k) by {
        if k != id {
            assert(row_sound(db, k));
            let m = slot::<StatementMetadata>(db, Table::Statements, k)->Row_0;
            if subject_key(m) == subject_key(now) {
                lemma_subject_key_names_row(m, now);
            }
            if predicate_key_of(m) == predicate_key_of(now) {
                lemma_predicate_key_names_row(m, now);
            }
            if let Some(w) = was {
                if subject_key(m) == subject_key(w) {
                    lemma_subject_key_names_row(m, w);
                }
                if predicate_key_of(m) == predicate_key_of(w) {
                    lemma_predicate_key_names_row(m, w);
                }
            }
        }
    }
    assert forall|k: Seq<u8>| lookup(d, Table::StatementsBySubject, k) is Some implies #[trigger] subject_entry_sound(
        d,
        k,
    ) by {
        if k != subject_key(now) {
            assert(subject_entry_sound(db, k));
            let v = lookup(db, Table::StatementsBySubject, k)->Some_0;
        }
    }
    assert forall|k: Seq<u8>|
        lookup(d, Table::StatementsByPredicate, k) is Some implies #[trigger] predicate_entry_sound(d, k) by {
        if !(now.is_current != 0 && k == predicate_key_of(now)) {
            assert(predicate_entry_sound(db, k));
            let v = lookup(db, Table::StatementsByPredicate, k)->Some_0;
        }
    }
}

proof fn lemma_evidence_indexed_frame(db: Db, scope: RowScope, memories: Seq<[u8; 16]>, id: [u8; 16], t: Table, k: Seq<u8>)
    requires
        !(t is StatementsByEvidence),
    ensures
        lookup(evidence_indexed(db, scope, memories, id), t, k) == lookup(db, t, k),
        evidence_indexed(db, scope, memories, id).home == db.home,
    decreases memories.len(),
{
    if memories.len() > 0 {
        lemma_evidence_indexed_frame(db, scope, memories.drop_last(), id, t, k);
    }
}

proof fn lemma_inserted_lookups(db: Db, scope: RowScope, s: StatementModel, memories: Seq<[u8; 16]>)
    requires
        !(s.subject is Pending),
        s.superseded_by is None,
        !s.tombstoned,
    ensures
        ({
            let d = inserted(db, scope, s, memories);
            let m = row_of(s, scope);
            &&& forall|k: Seq<u8>| #[trigger]
                lookup(d, Table::Statements, k) == if k == s.id.0@ {
                    Some(image::<StatementMetadata>(m))
                } else {
                    lookup(db, Table::Statements, k)
                }
            &&& forall|k: Seq<u8>| #[trigger]
                lookup(d, Table::StatementsBySubject, k) == if k == subject_key(m) {
                    Some(s.id.0@)
                } else {
                    lookup(db, Table::StatementsBySubject, k)
                }
            &&& forall|k: Seq<u8>| #[trigger]
                lookup(d, Table::StatementsByPredicate, k) == if k == predicate_key_of(m) {
                    Some(s.id.0@)
                } else {
                    lookup(db, Table::StatementsByPredicate, k)
                }
        }),
{
    let d = inserted(db, scope, s, memories);
    let m = row_of(s, scope);
    let id = s.id.0;
    let d1 = db.insert((Table::Statements, id@), image::<StatementMetadata>(m));
    let d2 = d1.insert(
        (
            Table::StatementsBySubject,
            by_subject_key(scope, m.subject_entity_bytes, m.kind, m.predicate_id, m.is_current, id),
        ),
        id@,
    );
    let d3 = d2.insert(
        (
            Table::StatementsByPredicate,
            by_predicate_key(scope, m.predicate_id, m.kind, bucket_of(m.confidence), id),
        ),
        id@,
    );
    let d4 = match s.object {
        StatementObject::Entity(e) => d3.insert(
            (Table::StatementsByObjectEntity, by_object_key(scope, e.0, m.kind, id)),
            id@,
        ),
        _ => d3,
    };
    let d5 = match (s.kind, s.event_at_unix_nanos) {
        (StatementKind::Event, Some(at)) => d4.insert(
            (Table::StatementsByEventTime, by_event_key(scope, at, m.subject_entity_bytes, id)),
            id@,
        ),
        _ => d4,
    };
    assert(scope_of(m) == scope);
    assert forall|t: Table, k: Seq<u8>|
        t is Statements || t is StatementsBySubject || t is StatementsByPredicate implies #[trigger] lookup(d, t, k)
        == lookup(d3, t, k) by {
        lemma_evidence_indexed_frame(d5, scope, memories, id, t, k);
    }
}

/// Inserting a statement that is neither superseded nor tombstoned, under an
/// identifier that is free, keeps the tables in agreement.
pub proof fn lemma_insert_keeps_sound(db: Db, scope: RowScope, s: StatementModel, memories: Seq<[u8; 16]>)
    requires
        sound(db),
        lookup(db, Table::Statements, s.id.0@) is None,
        fits::<StatementMetadata>(row_of(s, scope)),
        !(s.subject is Pending),
        s.superseded_by is None,
        !s.tombstoned,
    ensures
        sound(inserted(db, scope, s, memories)),
{
    lemma_inserted_lookups(db, scope, s, memories);
    lemma_one_row_changes(db, inserted(db, scope, s, memories), None, row_of(s, scope));
}

/// A current row that gives way, or one that did before, leaves the tables in
/// agreement.
proof fn lemma_deactivation_keeps_sound(db: Db, m: StatementRowModel, now: StatementRowModel)
    requires
        sound(db),
        slot::<StatementMetadata>(db, Table::Statements, m.statement_id_bytes@) == Slot::Row(m),
        fits::<StatementMetadata>(now),
        now == (StatementMetadata {
            statement_id_bytes: m.statement_id_bytes,
            namespace_id: m.namespace_id,
            agent_id_bytes: m.agent_id_bytes,
            kind: m.kind,
            subject_kind: m.subject_kind,
            subject_entity_bytes: m.subject_entity_bytes,
            predicate_id: m.predicate_id,
            confidence: m.confidence,
            is_current: 0,
            ..now
        }),
    ensures
        sound(
            deactivated(
                db.insert((Table::Statements, m.statement_id_bytes@), image::<StatementMetadata>(now)),
                m,
            ),
        ),
{
    let id = m.statement_id_bytes@;
    let d1 = db.insert((Table::Statements, id), image::<StatementMetadata>(now));
    let d = deactivated(d1, m);
    assert(row_sound(db, id));
    if m.is_current == 0 {
        if lookup(db, Table::StatementsByPredicate, predicate_key_of(m)) is Some {
            assert(predicate_entry_sound(db, predicate_key_of(m)));
            let v = lookup(db, Table::StatementsByPredicate, predicate_key_of(m))->Some_0;
            let other = slot::<StatementMetadata>(db, Table::Statements, v)->Row_0;
            lemma_predicate_key_names_row(other, m);
            assert(row_sound(db, v));
        }
    } else {
        assert(lookup(d1, Table::StatementsByPredicate, predicate_key_of(m)) == Some(id));
    }
    lemma_one_row_changes(db, d, Some(m), now);
}

/// Tombstoning keeps the tables in agreement.
pub proof fn lemma_tombstone_keeps_sound(db: Db, id: StatementId, reason: TombstoneReason, now_unix_nanos: u64)
    requires
        sound(db),
        tombstoned(db, id, reason, now_unix_nanos) is Ok,
        slot::<StatementMetadata>(db, Table::Statements, id.0@) matches Slot::Row(m) ==> fits::<StatementMetadata>(
            buried(m, reason, now_unix_nanos),
        ),
    ensures
        sound(tombstoned(db, id, reason, now_unix_nanos)->Ok_0),
{
    let m = slot::<StatementMetadata>(db, Table::Statements, id.0@)->Row_0;
    assert(row_sound(db, id.0@));
    if m.tombstoned == 0 {
        let now = buried(m, reason, now_unix_nanos);
        lemma_deactivation_keeps_sound(db, m, now);
        let d = deactivated(
            db.insert((Table::Statements, m.statement_id_bytes@), image::<StatementMetadata>(now)),
            m,
        );
        lemma_sound_frame(d, d.remove((Table::StatementEmbedQueue, m.statement_id_bytes@)));
    }
}

/// Superseding keeps the tables in agreement.
pub proof fn lemma_supersede_keeps_sound(db: Db, scope: RowScope, old_id: StatementId, s: StatementModel, ctx: WriteContext)
    requires
        sound(db),
        superseded(db, scope, old_id, s, ctx) is Ok,
        !(s.subject is Pending),
        !s.tombstoned,
        rows_fit(db, scope, old_id, s, ctx),
    ensures
        sound(superseded(db, scope, old_id, s, ctx)->Ok_0.0),
{
    let m = supersede_checked(db, old_id, s)->Ok_0;
    let c = stored_confidence(db, s, ctx.aggregated_at_extraction)->Ok_0;
    assert(row_sound(db, old_id.0@));
    assert(m.statement_id_bytes =~= old_id.0);
    let now = outdated(m, s, ctx.now_unix_nanos);
    lemma_deactivation_keeps_sound(db, m, now);
    let d1 = db.insert((Table::Statements, m.statement_id_bytes@), image::<StatementMetadata>(now));
    let mid = deactivated(d1, m);
    let new = Statement { confidence: c, ..successor(m, old_id, s) };
    assert(lookup(mid, Table::Statements, s.id.0@) is None);
    let entries = resolved(mid, new.evidence)->Ok_0;
    lemma_insert_keeps_sound(mid, scope, new, memories_of(entries));
}

/// The two rows that superseding writes can be held.
pub open spec fn rows_fit(db: Db, scope: RowScope, old_id: StatementId, s: StatementModel, ctx: WriteContext) -> bool {
    match (supersede_checked(db, old_id, s), stored_confidence(db, s, ctx.aggregated_at_extraction)) {
        (Ok(m), Ok(c)) => fits::<StatementMetadata>(outdated(m, s, ctx.now_unix_nanos)) && fits::<StatementMetadata>(
            row_of(Statement { confidence: c, ..successor(m, old_id, s) }, scope),
        ),
        _ => true,
    }
}

proof fn lemma_probed_frame(db: Db, scope: RowScope, s: StatementModel, ctx: WriteContext, t: Table, k: Seq<u8>)
    requires
        !(t is StatementContradictionAudit),
    ensures
        probed(db, scope, s, ctx) matches Ok(d) ==> lookup(d, t, k) == lookup(db, t, k),
{
}

/// Every row that creating a statement writes can be held.
pub open spec fn creation_fits(db: Db, scope: RowScope, s: StatementModel, ctx: WriteContext) -> bool {
    &&& forall|old_id: StatementId| #[trigger] rows_fit(db, scope, old_id, s, ctx)
    &&& forall|c: F32|
        fits::<StatementMetadata>(#[trigger] row_of(Statement { confidence: c, ..s }, scope))
}

/// Creating a statement that is neither superseded nor tombstoned keeps the
/// tables in agreement.
pub proof fn lemma_create_keeps_sound(db: Db, scope: RowScope, s: StatementModel, ctx: WriteContext)
    requires
        sound(db),
        created(db, scope, s, ctx) is Ok,
        s.superseded_by is None,
        !s.tombstoned,
        creation_fits(db, scope, s, ctx),
    ensures
        sound(created(db, scope, s, ctx)->Ok_0.0),
{
    let p = admitted(db, s)->Ok_0;
    let replaces = s.subject is Entity && (single_valued(s.kind) || p.is_stateful) && s.kind != StatementKind::Event;
    if replaces && current_statement(db, scope, s.subject->Entity_0, s.predicate, s.kind) matches Ok(Some(prior)) {
        let prior = current_statement(db, scope, s.subject->Entity_0, s.predicate, s.kind)->Ok_0->Some_0;
        assert(rows_fit(db, scope, prior, s, ctx));
        lemma_supersede_keeps_sound(db, scope, prior, s, ctx);
    } else {
        let d = probed(db, scope, s, ctx)->Ok_0;
        assert forall|t: Table, k: Seq<u8>| !(t is StatementContradictionAudit) implies #[trigger] lookup(d, t, k)
            == lookup(db, t, k) by {
            lemma_probed_frame(db, scope, s, ctx, t, k);
        }
        lemma_sound_frame(db, d);
        let c = stored_confidence(d, s, ctx.aggregated_now)->Ok_0;
        let new = Statement { confidence: c, ..s };
        let entries = resolved(d, new.evidence)->Ok_0;
        lemma_insert_keeps_sound(d, scope, new, memories_of(entries));
    }
}

// What one call leaves for the next.

/// A created statement that supersedes nothing is read back as it was given,
/// with the confidence that it is stored with.
pub proof fn lemma_created_is_read_back(db: Db, scope: RowScope, s: StatementModel, ctx: WriteContext)
    requires
        appended(db, scope, s, ctx) is Ok,
        !(s.subject is Pending),
        s.superseded_by is None,
        !s.tombstoned,
        creation_fits(db, scope, s, ctx),
    ensures
        ({
            let d = probed(db, scope, s, ctx)->Ok_0;
            let c = stored_confidence(d, s, ctx.aggregated_now);
            &&& c is Ok
            &&& statement_at(appended(db, scope, s, ctx)->Ok_0.0, s.id.0) == Ok::<_, StatementOpError>(
                Some(Statement { confidence: c->Ok_0, ..s }),
            )
        }),
{
    let d = probed(db, scope, s, ctx)->Ok_0;
    let c = stored_confidence(d, s, ctx.aggregated_now)->Ok_0;
    let new = Statement { confidence: c, ..s };
    let entries = resolved(d, new.evidence)->Ok_0;
    lemma_inserted_lookups(d, scope, new, memories_of(entries));
    lemma_parsed::<StatementMetadata>(row_of(new, scope));
    lemma_statement_of_row(new, scope);
}

/// After superseding, the old statement names the new one as its successor and
/// is no longer current; the new one follows it in version and chain, and is
/// current. The old one cannot be superseded again.
pub proof fn lemma_superseded_chain(
    db: Db,
    scope: RowScope,
    old_id: StatementId,
    s: StatementModel,
    ctx: WriteContext,
    again: StatementModel,
)
    requires
        sound(db),
        superseded(db, scope, old_id, s, ctx) is Ok,
        !(s.subject is Pending),
        !s.tombstoned,
        rows_fit(db, scope, old_id, s, ctx),
    ensures
        ({
            let m = supersede_checked(db, old_id, s)->Ok_0;
            let c = stored_confidence(db, s, ctx.aggregated_at_extraction)->Ok_0;
            let after = superseded(db, scope, old_id, s, ctx)->Ok_0.0;
            let new = Statement { confidence: c, ..successor(m, old_id, s) };
            &&& slot::<StatementMetadata>(after, Table::Statements, old_id.0@) == Slot::Row(
                outdated(m, s, ctx.now_unix_nanos),
            )
            &&& outdated(m, s, ctx.now_unix_nanos).is_current == 0
            &&& statement_at(after, s.id.0) == Ok::<_, StatementOpError>(Some(new))
            &&& new.version == next_version(m.version)
            &&& new.supersedes == Some(old_id)
            &&& new.chain_root.0 == root_of(m)
            &&& shape_checked(again) is Ok ==> supersede_checked(after, old_id, again) == Err::<StatementRowModel, _>(
                StatementOpError::AlreadySuperseded(old_id, s.id),
            )
        }),
{
    let m = supersede_checked(db, old_id, s)->Ok_0;
    let c = stored_confidence(db, s, ctx.aggregated_at_extraction)->Ok_0;
    assert(row_sound(db, old_id.0@));
    assert(m.statement_id_bytes =~= old_id.0);
    let now = outdated(m, s, ctx.now_unix_nanos);
    let d1 = db.insert((Table::Statements, m.statement_id_bytes@), image::<StatementMetadata>(now));
    let mid = deactivated(d1, m);
    let new = Statement { confidence: c, ..successor(m, old_id, s) };
    let entries = resolved(mid, new.evidence)->Ok_0;
    lemma_inserted_lookups(mid, scope, new, memories_of(entries));
    lemma_parsed::<StatementMetadata>(now);
    lemma_parsed::<StatementMetadata>(row_of(new, scope));
    lemma_statement_of_row(new, scope);
    assert(old_id.0@ != s.id.0@);
    assert(lookup(mid, Table::Statements, old_id.0@) == Some(image::<StatementMetadata>(now)));
}

/// A statement that was tombstoned keeps its reason and its time when it is
/// tombstoned again, and nothing changes. It no longer waits for an embedding; its
/// evidence, its chain, its object and its time stay in their indexes. Where rows
/// and indexes agree, no entry of the index by predicate leads to it, and the one
/// of the index by subject says that it is not current.
pub proof fn lemma_tombstone_is_final(
    db: Db,
    id: StatementId,
    reason: TombstoneReason,
    at: u64,
    later_reason: TombstoneReason,
    later: u64,
    k: Seq<u8>,
)
    requires
        tombstoned(db, id, reason, at) is Ok,
        slot::<StatementMetadata>(db, Table::Statements, id.0@) matches Slot::Row(m) ==> m.tombstoned == 0
            && m.statement_id_bytes == id.0 && fits::<StatementMetadata>(buried(m, reason, at)),
    ensures
        ({
            let m = slot::<StatementMetadata>(db, Table::Statements, id.0@)->Row_0;
            let row = buried(m, reason, at);
            let after = tombstoned(db, id, reason, at)->Ok_0;
            &&& slot::<StatementMetadata>(after, Table::Statements, id.0@) == Slot::Row(row)
            &&& row.tombstoned == 1 && row.is_current == 0 && row.tombstone_reason == reason.byte()
            &&& row.tombstoned_at_unix_nanos == Some(at) && row.record_invalidated_at_unix_nanos == Some(at)
            &&& tombstoned(after, id, later_reason, later) == Ok::<_, StatementOpError>(after)
            &&& lookup(after, Table::StatementEmbedQueue, id.0@) is None
            &&& lookup(after, Table::StatementsByEvidence, k) == lookup(db, Table::StatementsByEvidence, k)
            &&& lookup(after, Table::StatementChain, k) == lookup(db, Table::StatementChain, k)
            &&& lookup(after, Table::StatementsByObjectEntity, k) == lookup(db, Table::StatementsByObjectEntity, k)
            &&& lookup(after, Table::StatementsByEventTime, k) == lookup(db, Table::StatementsByEventTime, k)
            &&& lookup(after, Table::EvidenceOverflow, k) == lookup(db, Table::EvidenceOverflow, k)
            &&& sound(db) ==> lookup(after, Table::StatementsByPredicate, k) != Some(id.0@)
            &&& sound(db) ==> (lookup(after, Table::StatementsBySubject, k) == Some(id.0@) ==> k == subject_key(row))
        }),
{
    let m = slot::<StatementMetadata>(db, Table::Statements, id.0@)->Row_0;
    let now = buried(m, reason, at);
    lemma_parsed::<StatementMetadata>(now);
    let after = tombstoned(db, id, reason, at)->Ok_0;
    assert(lookup(after, Table::Statements, id.0@) == Some(image::<StatementMetadata>(now)));
    if sound(db) {
        lemma_tombstone_keeps_sound(db, id, reason, at);
        if lookup(after, Table::StatementsByPredicate, k) == Some(id.0@) {
            assert(predicate_entry_sound(after, k));
        }
        if lookup(after, Table::StatementsBySubject, k) == Some(id.0@) {
            assert(subject_entry_sound(after, k));
        }
    }
}

/// Two rows are current values of one thing: of one scope, subject and
/// predicate, and of the single-valued kind.
pub open spec fn rivals(a: StatementRowModel, b: StatementRowModel) -> bool {
    &&& a.is_current != 0
    &&& b.is_current != 0
    &&& a.kind == StatementKind::Preference.byte()
    &&& b.kind == StatementKind::Preference.byte()
    &&& scope_of(a) == scope_of(b)
    &&& a.subject_entity_bytes == b.subject_entity_bytes
    &&& a.predicate_id == b.predicate_id
}

/// The current values under two keys are of different things.
pub open spec fn no_rivals(db: Db, a: Seq<u8>, b: Seq<u8>) -> bool {
    match (
        slot::<StatementMetadata>(db, Table::Statements, a),
        slot::<StatementMetadata>(db, Table::Statements, b),
    ) {
        (Slot::Row(x), Slot::Row(y)) => a == b || !rivals(x, y),
        _ => true,
    }
}

/// No subject has two current preferences of one predicate.
pub open spec fn one_value(db: Db) -> bool {
    forall|a: Seq<u8>, b: Seq<u8>| #[trigger] no_rivals(db, a, b)
}

proof fn lemma_current_is_listed(db: Db, m: StatementRowModel, k: Seq<u8>)
    requires
        sound(db),
        db.rows.dom().finite(),
        slot::<StatementMetadata>(db, Table::Statements, k) == Slot::Row(m),
        m.is_current != 0,
    ensures
        ({
            let found = scan(
                db,
                Table::StatementsBySubject,
                by_subject_prefix(scope_of(m), m.subject_entity_bytes, m.kind, m.predicate_id, 1),
            );
            exists|i: int| 0 <= i < found.len() && (#[trigger] found[i]).1 == k
        }),
{
    assert(row_sound(db, k));
    let prefix = by_subject_prefix(scope_of(m), m.subject_entity_bytes, m.kind, m.predicate_id, 1);
    let key = subject_key(m);
    lemma_scan_exists(db, Table::StatementsBySubject, prefix);
    assert(key.take(prefix.len() as int) =~= prefix);
    assert(db.dom().contains((Table::StatementsBySubject, key)));
    let found = scan(db, Table::StatementsBySubject, prefix);
    let i = choose|i: int| 0 <= i < found.len() && (#[trigger] found[i]).0 == key;
    assert(lookup(db, Table::StatementsBySubject, found[i].0) == Some(found[i].1));
}

/// A row is what the head of its key in the index by subject says.
proof fn lemma_head_names_row(m: StatementRowModel, scope: RowScope, subject: [u8; 16], kind: u8, predicate: u32)
    requires
        has_prefix(subject_key(m), by_subject_prefix(scope, subject, kind, predicate, 1)),
    ensures
        m.is_current == 1,
        m.kind == kind,
        scope_of(m) == scope,
        m.subject_entity_bytes == subject,
        m.predicate_id == predicate,
{
    let prefix = by_subject_prefix(scope, subject, kind, predicate, 1);
    let x = subject_key(m);
    lemma_scope_key_len(scope_of(m));
    lemma_scope_key_len(scope);
    lemma_be_len(m.predicate_id as nat, 4);
    lemma_be_len(predicate as nat, 4);
    lemma_pow256_values();
    assert(prefix.len() == 42);
    assert(x.take(42) == prefix);
    assert(x.take(20) =~= scope_key(scope_of(m)));
    assert(x.take(20) =~= prefix.take(20));
    assert(prefix.take(20) =~= scope_key(scope));
    lemma_scopes_apart(scope_of(m), scope, x);
    assert(x.subrange(20, 36) =~= m.subject_entity_bytes@);
    assert(prefix.subrange(20, 36) =~= subject@);
    assert(x.subrange(20, 36) =~= prefix.subrange(20, 36));
    assert(m.subject_entity_bytes =~= subject);
    assert(x[36] == m.kind && prefix[36] == kind && x.take(42)[36] == x[36]);
    assert(x.subrange(37, 41) =~= be(m.predicate_id as nat, 4));
    assert(prefix.subrange(37, 41) =~= be(predicate as nat, 4));
    assert(x.subrange(37, 41) =~= prefix.subrange(37, 41));
    lemma_be_injective(m.predicate_id as nat, predicate as nat, 4);
    assert(x[41] == m.is_current && prefix[41] == 1 && x.take(42)[41] == x[41]);
}

/// The first entry under a head of the index by subject leads to a row with what
/// the head says.
proof fn lemma_listed_is_current(db: Db, scope: RowScope, subject: [u8; 16], kind: u8, predicate: u32)
    requires
        sound(db),
        db.rows.dom().finite(),
        scan(db, Table::StatementsBySubject, by_subject_prefix(scope, subject, kind, predicate, 1)).len() > 0,
    ensures
        ({
            let v = scan(db, Table::StatementsBySubject, by_subject_prefix(scope, subject, kind, predicate, 1))[0].1;
            &&& slot::<StatementMetadata>(db, Table::Statements, v) matches Slot::Row(m)
            &&& m.statement_id_bytes@ == v
            &&& m.is_current != 0
            &&& m.kind == kind
            &&& scope_of(m) == scope
            &&& m.subject_entity_bytes == subject
            &&& m.predicate_id == predicate
        }),
{
    let prefix = by_subject_prefix(scope, subject, kind, predicate, 1);
    lemma_scan_exists(db, Table::StatementsBySubject, prefix);
    let found = scan(db, Table::StatementsBySubject, prefix);
    let key = found[0].0;
    let v = found[0].1;
    assert(lookup(db, Table::StatementsBySubject, key) == Some(v));
    assert(subject_entry_sound(db, key));
    let m = slot::<StatementMetadata>(db, Table::Statements, v)->Row_0;
    assert(row_sound(db, v));
    lemma_head_names_row(m, scope, subject, kind, predicate);
}

/// Creating a statement leaves no subject with two current preferences of one
/// predicate: a new preference takes the place of the current one. A preference
/// about a memory takes no one's place and is left out.
pub proof fn lemma_create_keeps_one_value(db: Db, scope: RowScope, s: StatementModel, ctx: WriteContext)
    requires
        sound(db),
        one_value(db),
        db.rows.dom().finite(),
        created(db, scope, s, ctx) is Ok,
        s.subject is Entity || s.kind != StatementKind::Preference,
        s.superseded_by is None,
        !s.tombstoned,
        creation_fits(db, scope, s, ctx),
    ensures
        one_value(created(db, scope, s, ctx)->Ok_0.0),
{
    let after = created(db, scope, s, ctx)->Ok_0.0;
    let p = admitted(db, s)->Ok_0;
    let replaces = s.subject is Entity && (single_valued(s.kind) || p.is_stateful) && s.kind != StatementKind::Event;
    let found = scan(
        db,
        Table::StatementsBySubject,
        by_subject_prefix(scope, s.subject.id_bytes(), s.kind.byte(), s.predicate.0, 1),
    );
    if replaces && found.len() > 0 {
        lemma_listed_is_current(db, scope, s.subject.id_bytes(), s.kind.byte(), s.predicate.0);
        let v = found[0].1;
        let m = slot::<StatementMetadata>(db, Table::Statements, v)->Row_0;
        lemma_id_in(m.statement_id_bytes);
        let prior = StatementId(m.statement_id_bytes);
        assert(current_statement(db, scope, s.subject->Entity_0, s.predicate, s.kind) == Ok::<_, StatementOpError>(
            Some(prior),
        ));
        assert(rows_fit(db, scope, prior, s, ctx));
        lemma_superseded_chain(db, scope, prior, s, ctx, s);
        lemma_superseded_rows(db, scope, prior, s, ctx);
        assert forall|a: Seq<u8>, b: Seq<u8>| #[trigger] no_rivals(after, a, b) by {
            assert(no_rivals(db, a, b));
            assert(no_rivals(db, a, v));
            assert(no_rivals(db, b, v));
        }
    } else {
        let d = probed(db, scope, s, ctx)->Ok_0;
        assert forall|t: Table, k: Seq<u8>| !(t is StatementContradictionAudit) implies #[trigger] lookup(d, t, k)
            == lookup(db, t, k) by {
            lemma_probed_frame(db, scope, s, ctx, t, k);
        }
        let c = stored_confidence(d, s, ctx.aggregated_now)->Ok_0;
        let new = Statement { confidence: c, ..s };
        let entries = resolved(d, new.evidence)->Ok_0;
        lemma_inserted_lookups(d, scope, new, memories_of(entries));
        lemma_parsed::<StatementMetadata>(row_of(new, scope));
        let own = row_of(new, scope);
        assert(scope_of(own) == scope);
        assert forall|a: Seq<u8>, b: Seq<u8>| #[trigger] no_rivals(after, a, b) by {
            assert(no_rivals(db, a, b));
            if a != b {
                if a == s.id.0@ && slot::<StatementMetadata>(db, Table::Statements, b) is Row {
                    let y = slot::<StatementMetadata>(db, Table::Statements, b)->Row_0;
                    if rivals(own, y) {
                        lemma_current_is_listed(db, y, b);
                    }
                }
                if b == s.id.0@ && slot::<StatementMetadata>(db, Table::Statements, a) is Row {
                    let x = slot::<StatementMetadata>(db, Table::Statements, a)->Row_0;
                    if rivals(x, own) {
                        lemma_current_is_listed(db, x, a);
                    }
                }
            }
        }
    }
}

/// Superseding changes two rows and no others.
proof fn lemma_superseded_rows(db: Db, scope: RowScope, old_id: StatementId, s: StatementModel, ctx: WriteContext)
    requires
        sound(db),
        superseded(db, scope, old_id, s, ctx) is Ok,
        !(s.subject is Pending),
        !s.tombstoned,
        rows_fit(db, scope, old_id, s, ctx),
    ensures
        ({
            let after = superseded(db, scope, old_id, s, ctx)->Ok_0.0;
            let m = supersede_checked(db, old_id, s)->Ok_0;
            let c = stored_confidence(db, s, ctx.aggregated_at_extraction)->Ok_0;
            &&& forall|k: Seq<u8>|
                k != old_id.0@ && k != s.id.0@ ==> #[trigger] lookup(after, Table::Statements, k) == lookup(
                    db,
                    Table::Statements,
                    k,
                )
            &&& slot::<StatementMetadata>(after, Table::Statements, s.id.0@) == Slot::Row(
                row_of(Statement { confidence: c, ..successor(m, old_id, s) }, scope),
            )
        }),
{
    let m = supersede_checked(db, old_id, s)->Ok_0;
    let c = stored_confidence(db, s, ctx.aggregated_at_extraction)->Ok_0;
    assert(row_sound(db, old_id.0@));
    assert(m.statement_id_bytes =~= old_id.0);
    let now = outdated(m, s, ctx.now_unix_nanos);
    let d1 = db.insert((Table::Statements, m.statement_id_bytes@), image::<StatementMetadata>(now));
    let mid = deactivated(d1, m);
    let new = Statement { confidence: c, ..successor(m, old_id, s) };
    let entries = resolved(mid, new.evidence)->Ok_0;
    lemma_inserted_lookups(mid, scope, new, memories_of(entries));
    lemma_parsed::<StatementMetadata>(row_of(new, scope));
}

// Disagreements.

/// A listed disagreement is open, and two of the statements that it names are
/// current and differ. There are at most `limit`.
pub proof fn lemma_listed_disagree(db: Db, entries: Seq<(Seq<u8>, Seq<u8>)>, limit: nat, now: u64, i: int)
    requires
        pending_pass(db, entries, limit, now) is Ok,
        0 <= i < pending_pass(db, entries, limit, now)->Ok_0.0.len(),
    ensures
        ({
            let listed = pending_pass(db, entries, limit, now)->Ok_0.0;
            &&& listed.len() <= limit
            &&& listed[i].outcome == contradiction_outcome::PENDING
            &&& exists|live: Seq<([u8; 16], StatementObject<Seq<char>>)>|
                listed[i].contradicting_statement_ids == #[trigger] live_ids(live) && disagree(live) && all_live(db, live)
        }),
    decreases entries.len(),
{
    if entries.len() > 0 {
        let (before, rewrites) = pending_pass(db, entries.drop_last(), limit, now)->Ok_0;
        if i < before.len() {
            lemma_listed_disagree(db, entries.drop_last(), limit, now, i);
        } else {
            if before.len() > 0 {
                lemma_listed_disagree(db, entries.drop_last(), limit, now, 0);
            }
            let m = parsed::<ContradictionAudit>(entries.last().1)->Row_0;
            let live = live_objects(db, m.contradicting_statement_ids)->Ok_0;
            lemma_live_objects(db, m.contradicting_statement_ids);
            let listed = pending_pass(db, entries, limit, now)->Ok_0.0;
            assert(listed[i].contradicting_statement_ids == live_ids(live));
        }
    }
}

/// Every statement of a list is current, and has the object that stands with it.
pub open spec fn all_live(db: Db, live: Seq<([u8; 16], StatementObject<Seq<char>>)>) -> bool {
    forall|i: int|
        0 <= i < live.len() ==> live_object(db, (#[trigger] live[i]).0) == Ok::<_, StatementOpError>(Some(live[i]))
}

proof fn lemma_live_objects(db: Db, ids: Seq<[u8; 16]>)
    ensures
        live_objects(db, ids) matches Ok(live) ==> all_live(db, live),
    decreases ids.len(),
{
    if ids.len() > 0 {
        lemma_live_objects(db, ids.drop_last());
    }
}

/// A recorded disagreement is open and names every new statement. One that was
/// open keeps its identifier and the statements that it named.
pub proof fn lemma_recorded_is_open(
    db: Db,
    subject: EntityId,
    predicate: PredicateId,
    more: Seq<[u8; 16]>,
    fresh: AuditId,
    at: u64,
    id: [u8; 16],
)
    requires
        recorded(db, subject, predicate, more, fresh, at) is Ok,
        fits::<ContradictionAudit>(open_row(db, subject, predicate, more, fresh, at)),
    ensures
        ({
            let key = contradiction_key(subject.0, predicate.0);
            let after = recorded(db, subject, predicate, more, fresh, at)->Ok_0;
            &&& slot::<ContradictionAudit>(after, Table::StatementContradictionAudit, key) matches Slot::Row(m)
            &&& m.outcome == contradiction_outcome::PENDING
            &&& more.contains(id) ==> m.contradicting_statement_ids.contains(id)
            &&& match slot::<ContradictionAudit>(db, Table::StatementContradictionAudit, key) {
                Slot::Row(before) => before.outcome == contradiction_outcome::PENDING ==> {
                    &&& m.audit_id_bytes == before.audit_id_bytes
                    &&& before.contradicting_statement_ids.contains(id) ==> m.contradicting_statement_ids.contains(id)
                },
                _ => true,
            }
        }),
{
    let key = contradiction_key(subject.0, predicate.0);
    let row = open_row(db, subject, predicate, more, fresh, at);
    lemma_parsed::<ContradictionAudit>(row);
    lemma_union_ids(kept_ids(db, subject, predicate), more, id);
}

/// The statements that an open disagreement names already.
pub open spec fn kept_ids(db: Db, subject: EntityId, predicate: PredicateId) -> Seq<[u8; 16]> {
    match slot::<ContradictionAudit>(
        db,
        Table::StatementContradictionAudit,
        contradiction_key(subject.0, predicate.0),
    ) {
        Slot::Row(m) => if m.outcome == contradiction_outcome::PENDING {
            m.contradicting_statement_ids
        } else {
            Seq::empty()
        },
        _ => Seq::empty(),
    }
}

/// The row of a disagreement once it was recorded.
pub open spec fn open_row(
    db: Db,
    subject: EntityId,
    predicate: PredicateId,
    more: Seq<[u8; 16]>,
    fresh: AuditId,
    at: u64,
) -> ContradictionModel {
    ContradictionAudit {
        audit_id_bytes: match slot::<ContradictionAudit>(
            db,
            Table::StatementContradictionAudit,
            contradiction_key(subject.0, predicate.0),
        ) {
            Slot::Row(m) => if m.outcome == contradiction_outcome::PENDING {
                m.audit_id_bytes
            } else {
                fresh.0
            },
            _ => fresh.0,
        },
        subject_bytes: subject.0,
        predicate_id: predicate.0,
        contradicting_statement_ids: union_ids(kept_ids(db, subject, predicate), more),
        detected_at_unix_nanos: at,
        resolved_at_unix_nanos: None,
        outcome: contradiction_outcome::PENDING,
    }
}

} // verus!
