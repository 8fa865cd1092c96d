//! Which index entries lead to a statement.

use vstd::prelude::*;

use crate::bytes::be;
use crate::catalog::Table;
use crate::row::{image, slot, Slot};
use crate::statement::crud::{
    appended, created, evidence_indexed, inserted, memories_of, probed, rekeyed, resolved, stored_confidence,
};
use crate::statement::laws::writing::evidence_of;
use crate::statement::laws::{lemma_evidence_indexed_frame, lemma_probed_frame, row_sound, sound};
use crate::statement::supersede::{deactivated, outdated, successor, supersede_checked, superseded};
use crate::statement::WriteContext;
use crate::store::{lookup, Db};
use crate::tables::predicate::PredicateDefinition;
use crate::tables::statement::{
    bucket_of, by_event_key, by_evidence_key, by_object_key, by_predicate_key, by_subject_key, row_of, EvidenceEntry,
    Statement, StatementMetadata, StatementModel, StatementObject,
};
use crate::types::{RowScope, StatementId, StatementKind, F32};

verus! {

/// The bytes that every key of a scope begins with.
pub open spec fn scope_bytes(scope: RowScope) -> Seq<u8> {
    be(scope.namespace_id as nat, 4) + scope.agent_id_bytes@
}

/// An entry leads to a statement that refers to an entity: under the entity and kind.
pub open spec fn object_entry(scope: RowScope, s: StatementModel, k: Seq<u8>) -> bool {
    s.object matches StatementObject::Entity(e) && k == scope_bytes(scope) + e.0@.push(
        match s.kind {
            StatementKind::Fact => 0u8,
            StatementKind::Preference => 1u8,
            StatementKind::Event => 2u8,
        },
    ) + s.id.0@
}

/// An entry leads to an event: under its time and subject.
pub open spec fn event_entry(scope: RowScope, s: StatementModel, k: Seq<u8>) -> bool {
    s.kind == StatementKind::Event && s.event_at_unix_nanos is Some && k == scope_bytes(scope) + be(
        s.event_at_unix_nanos->Some_0 as nat,
        8,
    ) + s.subject.id_bytes()@ + s.id.0@
}

/// An entry leads to a statement that rests on a memory: under the memory.
pub open spec fn evidence_entry(scope: RowScope, v: Seq<EvidenceEntry>, id: StatementId, k: Seq<u8>) -> bool {
    exists|i: int| 0 <= i < v.len() && k == scope_bytes(scope) + (#[trigger] v[i]).memory_id.0@ + id.0@
}

/// The indexes by object, time and evidence after a statement was added: each has the
/// entries that lead to it, and every other entry as before.
pub open spec fn is_indexed(before: Db, after: Db, scope: RowScope, s: StatementModel, v: Seq<EvidenceEntry>, k: Seq<u8>) -> bool {
    &&& lookup(after, Table::StatementsByObjectEntity, k) == if object_entry(scope, s, k) {
        Some(s.id.0@)
    } else {
        lookup(before, Table::StatementsByObjectEntity, k)
    }
    &&& lookup(after, Table::StatementsByEventTime, k) == if event_entry(scope, s, k) {
        Some(s.id.0@)
    } else {
        lookup(before, Table::StatementsByEventTime, k)
    }
    &&& lookup(after, Table::StatementsByEvidence, k) == if evidence_entry(scope, v, s.id, k) {
        Some(Seq::<u8>::empty())
    } else {
        lookup(before, Table::StatementsByEvidence, k)
    }
}

proof fn lemma_evidence_indexed(db: Db, scope: RowScope, v: Seq<EvidenceEntry>, id: StatementId, k: Seq<u8>)
    ensures
        lookup(evidence_indexed(db, scope, memories_of(v), id.0), Table::StatementsByEvidence, k) == if evidence_entry(
            scope,
            v,
            id,
            k,
        ) {
            Some(Seq::<u8>::empty())
        } else {
            lookup(db, Table::StatementsByEvidence, k)
        },
    decreases v.len(),
{
    if v.len() > 0 {
        let head = v.drop_last();
        let last = v.last();
        lemma_evidence_indexed(db, scope, head, id, k);
        assert(memories_of(v).drop_last() =~= memories_of(head));
        assert(memories_of(v).last() == last.memory_id.0);
        let key = by_evidence_key(scope, last.memory_id.0, id.0);
        assert(key =~= scope_bytes(scope) + last.memory_id.0@ + id.0@);
        if evidence_entry(scope, head, id, k) {
            let i = choose|i: int|
                0 <= i < head.len() && k == scope_bytes(scope) + (#[trigger] head[i]).memory_id.0@ + id.0@;
            assert(v[i] == head[i]);
        }
        if k == key {
            assert(v[v.len() - 1] == last);
        }
        if evidence_entry(scope, v, id, k) && k != key {
            let i = choose|i: int| 0 <= i < v.len() && k == scope_bytes(scope) + (#[trigger] v[i]).memory_id.0@ + id.0@;
            assert(head[i] == v[i]);
        }
    }
}

proof fn lemma_inserted_is_indexed(db: Db, scope: RowScope, s: StatementModel, v: Seq<EvidenceEntry>, k: Seq<u8>)
    ensures
        is_indexed(db, inserted(db, scope, s, memories_of(v)), scope, s, v, k),
{
    let memories = memories_of(v);
    let id = s.id.0;
    let m = row_of(s, scope);
    let d1 = db.insert((Table::Statements, id@), image::<StatementMetadata>(m));
    let d2 = if m.subject_kind != 1 {
        d1.insert(
            (
                Table::StatementsBySubject,
                by_subject_key(scope, m.subject_entity_bytes, m.kind, m.predicate_id, m.is_current, id),
            ),
            id@,
        )
    } else {
        d1
    };
    let d3 = d2.insert(
        (Table::StatementsByPredicate, by_predicate_key(scope, m.predicate_id, m.kind, bucket_of(m.confidence), id)),
        id@,
    );
    let d4 = match s.object {
        StatementObject::Entity(e) => d3.insert(
            (Table::StatementsByObjectEntity, by_object_key(scope, e.0, m.kind, id)),
            id@,
        ),
        _ => d3,
    };
    let d5 = match (s.kind, s.event_at_unix_nanos) {
        (StatementKind::Event, Some(at)) => d4.insert(
            (Table::StatementsByEventTime, by_event_key(scope, at, m.subject_entity_bytes, id)),
            id@,
        ),
        _ => d4,
    };
    lemma_evidence_indexed_frame(d5, scope, memories, id, Table::StatementsByObjectEntity, k);
    lemma_evidence_indexed_frame(d5, scope, memories, id, Table::StatementsByEventTime, k);
    lemma_evidence_indexed(d5, scope, v, s.id, k);
    if let StatementObject::Entity(e) = s.object {
        assert(by_object_key(scope, e.0, s.kind.byte(), s.id.0) =~= scope_bytes(scope)
            + e.0@.push(s.kind.byte()) + s.id.0@);
    }
    if let Some(at) = s.event_at_unix_nanos {
        assert(by_event_key(scope, at, s.subject.id_bytes(), s.id.0) =~= scope_bytes(scope)
            + be(at as nat, 8) + s.subject.id_bytes()@ + s.id.0@);
    }
}

/// A statement that takes no one's place is found by the entity that it refers to, by
/// the time of its event, and by each memory that it rests on. No other entry of these
/// indexes changes.
pub proof fn lemma_created_is_indexed(db: Db, scope: RowScope, s: StatementModel, ctx: WriteContext, k: Seq<u8>)
    requires
        created(db, scope, s, ctx) is Ok,
        s.kind == StatementKind::Event || !(s.subject is Entity) || s.kind == StatementKind::Fact && (slot::<
            PredicateDefinition,
        >(db, Table::Predicates, be(s.predicate.0 as nat, 4)) matches Slot::Row(p) && !p.is_stateful),
    ensures
        is_indexed(db, created(db, scope, s, ctx)->Ok_0.0, scope, s, evidence_of(db, s), k),
{
    lemma_appended_is_indexed(db, scope, s, ctx, k);
}

proof fn lemma_appended_is_indexed(db: Db, scope: RowScope, s: StatementModel, ctx: WriteContext, k: Seq<u8>)
    requires
        appended(db, scope, s, ctx) is Ok,
    ensures
        is_indexed(db, appended(db, scope, s, ctx)->Ok_0.0, scope, s, evidence_of(db, s), k),
{
    let d = probed(db, scope, s, ctx)->Ok_0;
    assert forall|t: Table, x: Seq<u8>| !(t is StatementContradictionAudit) implies #[trigger] lookup(d, t, x) == lookup(
        db,
        t,
        x,
    ) by {
        lemma_probed_frame(db, scope, s, ctx, t, x);
    }
    let c = stored_confidence(d, s, ctx.aggregated_now)->Ok_0;
    let new = Statement { confidence: c, ..s };
    let v = resolved(d, new.evidence)->Ok_0;
    assert(v == evidence_of(db, s));
    lemma_inserted_is_indexed(d, scope, new, v, k);
    let after = inserted(d, scope, new, memories_of(v));
    assert(is_indexed(d, after, scope, new, v, k));
    assert(object_entry(scope, new, k) == object_entry(scope, s, k));
    assert(event_entry(scope, new, k) == event_entry(scope, s, k));
}

/// A statement that supersedes another is found in the same way, and the entries of the
/// old one in these indexes stay.
pub proof fn lemma_superseding_is_indexed(
    db: Db,
    scope: RowScope,
    old_id: StatementId,
    s: StatementModel,
    ctx: WriteContext,
    k: Seq<u8>,
)
    requires
        sound(db),
        superseded(db, scope, old_id, s, ctx) is Ok,
    ensures
        is_indexed(db, superseded(db, scope, old_id, s, ctx)->Ok_0.0, scope, s, evidence_of(db, s), k),
{
    let m = supersede_checked(db, old_id, s)->Ok_0;
    assert(row_sound(db, old_id.0@));
    let c = stored_confidence(db, s, ctx.aggregated_at_extraction)->Ok_0;
    let d1 = db.insert(
        (Table::Statements, m.statement_id_bytes@),
        image::<StatementMetadata>(outdated(m, s, ctx.now_unix_nanos)),
    );
    let mid = deactivated(d1, m);
    let new = Statement { confidence: c, ..successor(m, old_id, s) };
    let v = resolved(mid, new.evidence)->Ok_0;
    assert(forall|x: Seq<u8>| lookup(mid, Table::EvidenceOverflow, x) == lookup(db, Table::EvidenceOverflow, x));
    assert(v == evidence_of(db, s));
    lemma_inserted_is_indexed(mid, scope, new, v, k);
}

/// A statement whose confidence changes stays under its bucket while it is in it, and
/// moves to the other one else. No other entry of the index by predicate changes, and no
/// other table does.
pub proof fn lemma_rekeyed(
    db: Db,
    scope: RowScope,
    predicate_id: u32,
    kind: u8,
    before: F32,
    now: F32,
    id: StatementId,
    t: Table,
    k: Seq<u8>,
)
    ensures
        ({
            let after = rekeyed(db, scope, predicate_id, kind, before, now, id.0);
            let head = scope_bytes(scope) + be(predicate_id as nat, 4);
            let old_key = head.push(kind).push(bucket_of(before)) + id.0@;
            let new_key = head.push(kind).push(bucket_of(now)) + id.0@;
            &&& bucket_of(before) == bucket_of(now) ==> after == db
            &&& bucket_of(before) != bucket_of(now) ==> {
                &&& lookup(after, Table::StatementsByPredicate, new_key) == Some(id.0@)
                &&& lookup(db, Table::StatementsByPredicate, old_key) == Some(id.0@) ==> lookup(
                    after,
                    Table::StatementsByPredicate,
                    old_key,
                ) is None
                &&& !(t is StatementsByPredicate && (k == old_key || k == new_key)) ==> lookup(after, t, k) == lookup(
                    db,
                    t,
                    k,
                )
            }
        }),
{
    let head = scope_bytes(scope) + be(predicate_id as nat, 4);
    let old_key = head.push(kind).push(bucket_of(before)) + id.0@;
    let new_key = head.push(kind).push(bucket_of(now)) + id.0@;
    assert(by_predicate_key(scope, predicate_id, kind, bucket_of(before), id.0) =~= old_key);
    assert(by_predicate_key(scope, predicate_id, kind, bucket_of(now), id.0) =~= new_key);
    if bucket_of(before) != bucket_of(now) {
        let n = head.len() as int + 1;
        assert(old_key[n] == bucket_of(before));
        assert(new_key[n] == bucket_of(now));
    }
}

} // verus!
