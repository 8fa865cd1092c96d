//! Which facts disagree, what is recorded of it, and when that is settled.

use vstd::prelude::*;

use crate::bytes::be;
use crate::catalog::Table;
use crate::collect::lemma_collect_members;
use crate::row::{image, parsed, slot, Slot};
use crate::statement::contradiction::{
    disagree, lemma_union_ids, live_ids, live_object, live_objects, pending_listed, pending_pass, rechecked, rewritten,
};
use crate::statement::crud::{
    active_facts, contradicting, contradicts, created, lemma_id_in, memories_of, probed, resolved,
    statement_behind, stored_confidence,
};
use crate::statement::laws::facts::lemma_inserted_frame;
use crate::statement::laws::{
    kept_ids, lemma_current_is_listed, lemma_head_names_row, open_row, row_sound, sound, subject_entry_sound,
};
use crate::statement::list::contradictions;
use crate::statement::{StatementOpError, WriteContext};
use crate::store::{lemma_scan_exists, lookup, scan, Db};
use crate::tables::contradiction::{ContradictionAudit, ContradictionModel};
use crate::tables::predicate::PredicateDefinition;
use crate::tables::statement::{
    by_subject_prefix, statement_of, Statement, StatementMetadata, StatementModel, StatementObject, StatementRowModel,
    SubjectRef,
};
use crate::types::{EntityId, PredicateId, RowScope, StatementKind};

verus! {

/// A row is a current fact about a subject and predicate.
pub open spec fn is_current_fact(m: StatementRowModel, scope: RowScope, subject: EntityId, predicate: PredicateId) -> bool {
    &&& m.namespace_id == scope.namespace_id
    &&& m.agent_id_bytes == scope.agent_id_bytes
    &&& m.subject_kind == 0 || m.subject_kind == 2
    &&& m.subject_entity_bytes == subject.0
    &&& m.predicate_id == predicate.0
    &&& m.kind == 0
    &&& m.is_current == 1
}

/// A statement is a current fact about a subject and predicate.
pub open spec fn fact_stands(
    db: Db,
    scope: RowScope,
    subject: EntityId,
    predicate: PredicateId,
    id: [u8; 16],
) -> bool {
    slot::<StatementMetadata>(db, Table::Statements, id@) matches Slot::Row(m) && is_current_fact(
        m,
        scope,
        subject,
        predicate,
    )
}

/// What a stored statement says.
pub open spec fn object_of(db: Db, id: [u8; 16]) -> StatementObject<Seq<char>> {
    slot::<StatementMetadata>(db, Table::Statements, id@)->Row_0.object
}

proof fn lemma_active_fact(db: Db, scope: RowScope, subject: EntityId, predicate: PredicateId)
    requires
        sound(db),
        db.rows.dom().finite(),
        active_facts(db, scope, subject, predicate) is Ok,
    ensures
        ({
            let facts = active_facts(db, scope, subject, predicate)->Ok_0;
            &&& forall|i: int|
                0 <= i < facts.len() ==> fact_stands(db, scope, subject, predicate, (#[trigger] facts[i]).id.0)
                    && facts[i].object == object_of(db, facts[i].id.0)
            &&& forall|id: [u8; 16]| #[trigger]
                fact_stands(db, scope, subject, predicate, id) ==> exists|i: int|
                    0 <= i < facts.len() && (#[trigger] facts[i]).id.0 == id
        }),
{
    let prefix = by_subject_prefix(scope, subject.0, StatementKind::Fact.byte(), predicate.0, 1);
    let found = scan(db, Table::StatementsBySubject, prefix);
    lemma_scan_exists(db, Table::StatementsBySubject, prefix);
    let f = |kv: (Seq<u8>, Seq<u8>)| statement_behind(db, kv.1);
    let facts = active_facts(db, scope, subject, predicate)->Ok_0;
    assert forall|i: int| 0 <= i < facts.len() implies fact_stands(db, scope, subject, predicate, (#[trigger] facts[i]).id.0)
        && facts[i].object == object_of(db, facts[i].id.0) by {
        assert(facts.contains(facts[i]));
        lemma_collect_members(found, f, facts[i]);
        let j = choose|j: int| 0 <= j < found.len() && f(#[trigger] found[j]) == Ok::<_, StatementOpError>(Some(facts[i]));
        let (key, v) = found[j];
        assert(lookup(db, Table::StatementsBySubject, key) == Some(v));
        assert(subject_entry_sound(db, key));
        assert(row_sound(db, v));
        let m = slot::<StatementMetadata>(db, Table::Statements, v)->Row_0;
        lemma_head_names_row(m, scope, subject.0, StatementKind::Fact.byte(), predicate.0);
        lemma_id_in(m.statement_id_bytes);
    }
    assert forall|id: [u8; 16]| #[trigger] fact_stands(db, scope, subject, predicate, id) implies exists|i: int|
        0 <= i < facts.len() && (#[trigger] facts[i]).id.0 == id by {
        let m = slot::<StatementMetadata>(db, Table::Statements, id@)->Row_0;
        assert(row_sound(db, id@));
        lemma_current_is_listed(db, m, id@);
        let j = choose|j: int| 0 <= j < found.len() && (#[trigger] found[j]).1 == id@;
        lemma_id_in(id);
        let s = statement_of(m)->Some_0;
        assert(m.statement_id_bytes =~= id);
        assert(f(found[j]) == Ok::<_, StatementOpError>(Some(s)));
        lemma_collect_members(found, f, s);
        let i = facts.index_of(s);
        assert(facts[i].id.0 == id);
    }
}

/// The list of contradictions of a subject and predicate holds exactly their current
/// facts, with what they say, where two of these differ, and is empty where none do.
pub proof fn lemma_contradictions(db: Db, scope: RowScope, subject: EntityId, predicate: PredicateId, id: [u8; 16])
    requires
        sound(db),
        db.rows.dom().finite(),
        contradictions(db, scope, subject, predicate) is Ok,
    ensures
        ({
            let found = contradictions(db, scope, subject, predicate)->Ok_0;
            if exists|a: [u8; 16], b: [u8; 16]| #[trigger]
                fact_stands(db, scope, subject, predicate, a) && #[trigger] fact_stands(
                    db,
                    scope,
                    subject,
                    predicate,
                    b,
                ) && object_of(db, a) != object_of(db, b) {
                &&& fact_stands(db, scope, subject, predicate, id) <==> exists|i: int|
                    0 <= i < found.len() && (#[trigger] found[i]).id.0 == id
                &&& forall|i: int| 0 <= i < found.len() ==> (#[trigger] found[i]).object == object_of(db, found[i].id.0)
            } else {
                found.len() == 0
            }
        }),
{
    lemma_active_fact(db, scope, subject, predicate);
    let facts = active_facts(db, scope, subject, predicate)->Ok_0;
    if exists|a: [u8; 16], b: [u8; 16]| #[trigger]
        fact_stands(db, scope, subject, predicate, a) && #[trigger] fact_stands(db, scope, subject, predicate, b)
            && object_of(db, a) != object_of(db, b) {
        let (a, b) = choose|a: [u8; 16], b: [u8; 16]| #[trigger]
            fact_stands(db, scope, subject, predicate, a) && #[trigger] fact_stands(db, scope, subject, predicate, b)
                && object_of(db, a) != object_of(db, b);
        let i = choose|i: int| 0 <= i < facts.len() && (#[trigger] facts[i]).id.0 == a;
        let j = choose|j: int| 0 <= j < facts.len() && (#[trigger] facts[j]).id.0 == b;
        assert(facts[i].object != facts[j].object);
        assert(contradictions(db, scope, subject, predicate)->Ok_0 == facts);
    } else if exists|i: int, j: int|
        0 <= i < facts.len() && 0 <= j < facts.len() && (#[trigger] facts[i]).object != (#[trigger] facts[j]).object {
        let (i, j) = choose|i: int, j: int|
            0 <= i < facts.len() && 0 <= j < facts.len() && (#[trigger] facts[i]).object != (#[trigger] facts[j]).object;
        assert(fact_stands(db, scope, subject, predicate, facts[i].id.0));
        assert(fact_stands(db, scope, subject, predicate, facts[j].id.0));
    }
}

/// A fact is created beside the current ones. Where it differs from one of them the
/// disagreement is recorded under the subject and predicate: it is open, it was found
/// now, and it names the new fact, the current ones and those that it named while it
/// was open, and no others. Open before, it keeps its identifier; else it has the fresh
/// one. Where the new fact differs from none, nothing is recorded. No other
/// disagreement changes.
pub proof fn lemma_new_fact_is_held_against_current(
    db: Db,
    scope: RowScope,
    subject: EntityId,
    s: StatementModel,
    ctx: WriteContext,
    k: Seq<u8>,
    id: [u8; 16],
)
    requires
        sound(db),
        db.rows.dom().finite(),
        created(db, scope, s, ctx) is Ok,
        s.kind == StatementKind::Fact,
        s.subject == SubjectRef::Entity(subject),
        slot::<PredicateDefinition>(db, Table::Predicates, be(s.predicate.0 as nat, 4)) matches Slot::Row(p)
            && !p.is_stateful,
    ensures
        ({
            let after = created(db, scope, s, ctx)->Ok_0.0;
            let key = subject.0@ + be(s.predicate.0 as nat, 4);
            let before = slot::<ContradictionAudit>(db, Table::StatementContradictionAudit, key);
            let was_open = before matches Slot::Row(m) && m.outcome == 0;
            let differs = exists|a: [u8; 16]| #[trigger]
                fact_stands(db, scope, subject, s.predicate, a) && object_of(db, a) != s.object;
            &&& !differs || k != key ==> lookup(after, Table::StatementContradictionAudit, k) == lookup(
                db,
                Table::StatementContradictionAudit,
                k,
            )
            &&& differs ==> exists|m: ContradictionModel|
                {
                    &&& lookup(after, Table::StatementContradictionAudit, key) == Some(
                        #[trigger] image::<ContradictionAudit>(m),
                    )
                    &&& m.outcome == 0
                    &&& m.subject_bytes == subject.0
                    &&& m.predicate_id == s.predicate.0
                    &&& m.detected_at_unix_nanos == ctx.now_unix_nanos
                    &&& m.resolved_at_unix_nanos is None
                    &&& m.audit_id_bytes == if was_open {
                        before->Row_0.audit_id_bytes
                    } else {
                        ctx.fresh_audit_id.0
                    }
                    &&& m.contradicting_statement_ids.contains(id) <==> {
                        ||| id == s.id.0
                        ||| fact_stands(db, scope, subject, s.predicate, id)
                        ||| was_open && before->Row_0.contradicting_statement_ids.contains(id)
                    }
                }
        }),
{
    let key = subject.0@ + be(s.predicate.0 as nat, 4);
    assert(key =~= Seq::<u8>::empty() + subject.0@ + be(s.predicate.0 as nat, 4));
    let d = probed(db, scope, s, ctx)->Ok_0;
    let c = stored_confidence(d, s, ctx.aggregated_now)->Ok_0;
    let new = Statement { confidence: c, ..s };
    let memories = memories_of(resolved(d, new.evidence)->Ok_0);
    lemma_inserted_frame(d, scope, new, memories, Table::StatementContradictionAudit, k);
    lemma_inserted_frame(d, scope, new, memories, Table::StatementContradictionAudit, key);
    lemma_active_fact(db, scope, subject, s.predicate);
    let facts = active_facts(db, scope, subject, s.predicate)->Ok_0;
    if contradicts(facts, s) {
        let i = choose|i: int| 0 <= i < facts.len() && (#[trigger] facts[i]).object != s.object;
        assert(fact_stands(db, scope, subject, s.predicate, facts[i].id.0));
        let more = contradicting(facts, s);
        let m = open_row(db, subject, s.predicate, more, ctx.fresh_audit_id, ctx.now_unix_nanos);
        assert(lookup(d, Table::StatementContradictionAudit, key) == Some(image::<ContradictionAudit>(m)));
        lemma_union_ids(kept_ids(db, subject, s.predicate), more, id);
        if more.contains(id) {
            let j = more.index_of(id);
            if j < facts.len() {
                assert(facts[j].id.0 == id);
            }
        }
        if id == s.id.0 {
            assert(more[facts.len() as int] == id);
        }
        if fact_stands(db, scope, subject, s.predicate, id) {
            let j = choose|j: int| 0 <= j < facts.len() && (#[trigger] facts[j]).id.0 == id;
            assert(more[j] == id);
        }
        assert(lookup(created(db, scope, s, ctx)->Ok_0.0, Table::StatementContradictionAudit, key) == Some(
            image::<ContradictionAudit>(m),
        ));
    } else if exists|a: [u8; 16]| #[trigger]
        fact_stands(db, scope, subject, s.predicate, a) && object_of(db, a) != s.object {
        let a = choose|a: [u8; 16]| #[trigger]
            fact_stands(db, scope, subject, s.predicate, a) && object_of(db, a) != s.object;
        let j = choose|j: int| 0 <= j < facts.len() && (#[trigger] facts[j]).id.0 == a;
        assert(facts[j].object != s.object);
    }
}

// Disagreements that are listed.

/// A statement is current and not tombstoned.
pub open spec fn is_standing(db: Db, id: [u8; 16]) -> bool {
    slot::<StatementMetadata>(db, Table::Statements, id@) matches Slot::Row(m) && m.is_current != 0 && m.tombstoned == 0
        && m.kind <= 2 && m.subject_kind <= 2
}

/// Two of the statements that a row names are standing and differ.
pub open spec fn still_differ(db: Db, m: ContradictionModel) -> bool {
    exists|a: [u8; 16], b: [u8; 16]|
        {
            &&& #[trigger] m.contradicting_statement_ids.contains(a)
            &&& #[trigger] m.contradicting_statement_ids.contains(b)
            &&& is_standing(db, a)
            &&& is_standing(db, b)
            &&& object_of(db, a) != object_of(db, b)
        }
}

/// An open row and what looking at it makes of it: it names those of its statements
/// that are standing. It stays open while two of them differ and is settled now where
/// none do. Nothing else of it changes.
pub open spec fn is_looked_at(db: Db, m: ContradictionModel, n: ContradictionModel, now: u64) -> bool {
    &&& m.outcome == 0
    &&& n.audit_id_bytes == m.audit_id_bytes
    &&& n.subject_bytes == m.subject_bytes
    &&& n.predicate_id == m.predicate_id
    &&& n.detected_at_unix_nanos == m.detected_at_unix_nanos
    &&& forall|id: [u8; 16]| #[trigger]
        n.contradicting_statement_ids.contains(id) <==> m.contradicting_statement_ids.contains(id) && is_standing(db, id)
    &&& if still_differ(db, m) {
        n.outcome == 0 && n.resolved_at_unix_nanos == m.resolved_at_unix_nanos
    } else {
        n.outcome == 1 && n.resolved_at_unix_nanos == Some(now)
    }
}

proof fn lemma_live(db: Db, ids: Seq<[u8; 16]>)
    requires
        live_objects(db, ids) is Ok,
    ensures
        ({
            let live = live_objects(db, ids)->Ok_0;
            &&& forall|i: int|
                0 <= i < live.len() ==> ids.contains((#[trigger] live[i]).0) && is_standing(db, live[i].0) && live[i].1
                    == object_of(db, live[i].0)
            &&& forall|id: [u8; 16]|
                (#[trigger] ids.contains(id)) && is_standing(db, id) ==> live.contains((id, object_of(db, id)))
        }),
{
    let f = |id: [u8; 16]| live_object(db, id);
    let live = live_objects(db, ids)->Ok_0;
    assert forall|i: int| 0 <= i < live.len() implies ids.contains((#[trigger] live[i]).0) && is_standing(db, live[i].0)
        && live[i].1 == object_of(db, live[i].0) by {
        assert(live.contains(live[i]));
        lemma_collect_members(ids, f, live[i]);
        let j = choose|j: int| 0 <= j < ids.len() && f(#[trigger] ids[j]) == Ok::<_, StatementOpError>(Some(live[i]));
        assert(ids.contains(ids[j]));
    }
    assert forall|id: [u8; 16]| (#[trigger] ids.contains(id)) && is_standing(db, id) implies live.contains(
        (id, object_of(db, id)),
    ) by {
        let j = ids.index_of(id);
        assert(f(ids[j]) == Ok::<_, StatementOpError>(Some((id, object_of(db, id)))));
        lemma_collect_members(ids, f, (id, object_of(db, id)));
    }
}

proof fn lemma_looked_at(db: Db, value: Seq<u8>, now: u64)
    requires
        rechecked(db, value, now) is Ok,
    ensures
        parsed::<ContradictionAudit>(value) is Row,
        ({
            let m = parsed::<ContradictionAudit>(value)->Row_0;
            match rechecked(db, value, now)->Ok_0 {
                None => m.outcome != 0,
                Some((n, open)) => is_looked_at(db, m, n, now) && open == still_differ(db, m),
            }
        }),
{
    let m = parsed::<ContradictionAudit>(value)->Row_0;
    if m.outcome == 0 {
        let ids = m.contradicting_statement_ids;
        let live = live_objects(db, ids)->Ok_0;
        lemma_live(db, ids);
        let n = rechecked(db, value, now)->Ok_0->Some_0.0;
        assert forall|id: [u8; 16]| #[trigger]
            n.contradicting_statement_ids.contains(id) <==> ids.contains(id) && is_standing(db, id) by {
            if live_ids(live).contains(id) {
                let i = live_ids(live).index_of(id);
                assert(live[i].0 == id);
            }
            if ids.contains(id) && is_standing(db, id) {
                let i = live.index_of((id, object_of(db, id)));
                assert(live_ids(live)[i] == id);
            }
        }
        if disagree(live) {
            let (i, j) = choose|i: int, j: int|
                0 <= i < live.len() && 0 <= j < live.len() && (#[trigger] live[i]).1 != (#[trigger] live[j]).1;
            assert(ids.contains(live[i].0) && ids.contains(live[j].0));
            assert(still_differ(db, m));
        }
        if still_differ(db, m) {
            let (a, b) = choose|a: [u8; 16], b: [u8; 16]|
                {
                    &&& #[trigger] m.contradicting_statement_ids.contains(a)
                    &&& #[trigger] m.contradicting_statement_ids.contains(b)
                    &&& is_standing(db, a)
                    &&& is_standing(db, b)
                    &&& object_of(db, a) != object_of(db, b)
                };
            let i = live.index_of((a, object_of(db, a)));
            let j = live.index_of((b, object_of(db, b)));
            assert(live[i].1 != live[j].1);
        }
    }
}

/// An entry is an open row that looking at makes `n` of.
spec fn becomes(db: Db, entry: (Seq<u8>, Seq<u8>), n: ContradictionModel, now: u64) -> bool {
    parsed::<ContradictionAudit>(entry.1) matches Slot::Row(m) && is_looked_at(db, m, n, now)
}

/// The statements of an entry still differ.
spec fn entry_differs(db: Db, entry: (Seq<u8>, Seq<u8>)) -> bool {
    parsed::<ContradictionAudit>(entry.1) matches Slot::Row(m) && still_differ(db, m)
}

spec fn entry_is_open(entry: (Seq<u8>, Seq<u8>)) -> bool {
    parsed::<ContradictionAudit>(entry.1) matches Slot::Row(m) && m.outcome == 0
}

/// One more entry of a pass.
proof fn lemma_pass_step(db: Db, entries: Seq<(Seq<u8>, Seq<u8>)>, limit: nat, now: u64)
    requires
        entries.len() > 0,
        pending_pass(db, entries, limit, now) is Ok,
    ensures
        pending_pass(db, entries.drop_last(), limit, now) is Ok,
        ({
            let (live0, rewrites0) = pending_pass(db, entries.drop_last(), limit, now)->Ok_0;
            let (live, rewrites) = pending_pass(db, entries, limit, now)->Ok_0;
            let last = entries.last();
            ||| live == live0 && rewrites == rewrites0 && (live.len() >= limit || !entry_is_open(last))
            ||| {
                &&& live0.len() < limit
                &&& rewrites.len() == rewrites0.len() + 1
                &&& rewrites.drop_last() == rewrites0
                &&& rewrites.last().0 == last.0
                &&& becomes(db, last, rewrites.last().1, now)
                &&& if entry_differs(db, last) {
                    live == live0.push(rewrites.last().1)
                } else {
                    live == live0
                }
            }
        }),
{
    let (live0, rewrites0) = pending_pass(db, entries.drop_last(), limit, now)->Ok_0;
    if live0.len() < limit {
        lemma_looked_at(db, entries.last().1, now);
        if rechecked(db, entries.last().1, now) matches Ok(Some(x)) {
            let n = rechecked(db, entries.last().1, now)->Ok_0->Some_0.0;
            assert(rewrites0.push((entries.last().0, n)).drop_last() =~= rewrites0);
        }
    }
}

proof fn lemma_pass_rewrites(db: Db, entries: Seq<(Seq<u8>, Seq<u8>)>, limit: nat, now: u64, i: int) -> (j: int)
    requires
        pending_pass(db, entries, limit, now) is Ok,
        0 <= i < pending_pass(db, entries, limit, now)->Ok_0.1.len(),
    ensures
        0 <= j < entries.len(),
        entries[j].0 == pending_pass(db, entries, limit, now)->Ok_0.1[i].0,
        becomes(db, entries[j], pending_pass(db, entries, limit, now)->Ok_0.1[i].1, now),
    decreases entries.len(),
{
    lemma_pass_step(db, entries, limit, now);
    let rewrites0 = pending_pass(db, entries.drop_last(), limit, now)->Ok_0.1;
    let rewrites = pending_pass(db, entries, limit, now)->Ok_0.1;
    if i < rewrites0.len() {
        assert(rewrites[i] == rewrites0[i]) by {
            if rewrites.len() > rewrites0.len() {
                assert(rewrites.drop_last()[i] == rewrites[i]);
            }
        }
        lemma_pass_rewrites(db, entries.drop_last(), limit, now, i)
    } else {
        entries.len() - 1
    }
}

proof fn lemma_pass_lists(db: Db, entries: Seq<(Seq<u8>, Seq<u8>)>, limit: nat, now: u64, i: int) -> (j: int)
    requires
        pending_pass(db, entries, limit, now) is Ok,
        0 <= i < pending_pass(db, entries, limit, now)->Ok_0.0.len(),
    ensures
        pending_pass(db, entries, limit, now)->Ok_0.0.len() <= limit,
        0 <= j < entries.len(),
        becomes(db, entries[j], pending_pass(db, entries, limit, now)->Ok_0.0[i], now),
        entry_differs(db, entries[j]),
    decreases entries.len(),
{
    lemma_pass_step(db, entries, limit, now);
    let live0 = pending_pass(db, entries.drop_last(), limit, now)->Ok_0.0;
    if i < live0.len() {
        lemma_pass_lists(db, entries.drop_last(), limit, now, i)
    } else {
        entries.len() - 1
    }
}

proof fn lemma_pass_misses_none(db: Db, entries: Seq<(Seq<u8>, Seq<u8>)>, limit: nat, now: u64, j: int) -> (r: (int, int))
    requires
        pending_pass(db, entries, limit, now) is Ok,
        pending_pass(db, entries, limit, now)->Ok_0.0.len() < limit,
        0 <= j < entries.len(),
        entry_is_open(entries[j]),
    ensures
        0 <= r.0 < pending_pass(db, entries, limit, now)->Ok_0.1.len(),
        pending_pass(db, entries, limit, now)->Ok_0.1[r.0].0 == entries[j].0,
        entry_differs(db, entries[j]) ==> 0 <= r.1 < pending_pass(db, entries, limit, now)->Ok_0.0.len() && becomes(
            db,
            entries[j],
            pending_pass(db, entries, limit, now)->Ok_0.0[r.1],
            now,
        ),
    decreases entries.len(),
{
    lemma_pass_step(db, entries, limit, now);
    let (live0, rewrites0) = pending_pass(db, entries.drop_last(), limit, now)->Ok_0;
    let (live, rewrites) = pending_pass(db, entries, limit, now)->Ok_0;
    if j < entries.len() - 1 {
        let r = lemma_pass_misses_none(db, entries.drop_last(), limit, now, j);
        assert(rewrites[r.0] == rewrites0[r.0]) by {
            if rewrites.len() > rewrites0.len() {
                assert(rewrites.drop_last()[r.0] == rewrites[r.0]);
            }
        }
        r
    } else {
        (rewrites0.len() as int, live0.len() as int)
    }
}

proof fn lemma_rewritten(db: Db, rewrites: Seq<(Seq<u8>, ContradictionModel)>, t: Table, k: Seq<u8>)
    ensures
        !(t is StatementContradictionAudit) || (forall|i: int|
            0 <= i < rewrites.len() ==> (#[trigger] rewrites[i]).0 != k) ==> lookup(rewritten(db, rewrites), t, k)
            == lookup(db, t, k),
        (exists|i: int| 0 <= i < rewrites.len() && (#[trigger] rewrites[i]).0 == k) ==> exists|i: int|
            0 <= i < rewrites.len() && (#[trigger] rewrites[i]).0 == k && lookup(
                rewritten(db, rewrites),
                Table::StatementContradictionAudit,
                k,
            ) == Some(image::<ContradictionAudit>(rewrites[i].1)),
    decreases rewrites.len(),
{
    if rewrites.len() > 0 {
        let head = rewrites.drop_last();
        lemma_rewritten(db, head, t, k);
        assert(forall|i: int| 0 <= i < head.len() ==> #[trigger] rewrites[i] == head[i]);
        assert(rewrites[rewrites.len() - 1] == rewrites.last());
        if !(t is StatementContradictionAudit) || (forall|i: int|
            0 <= i < rewrites.len() ==> (#[trigger] rewrites[i]).0 != k) {
            assert(forall|i: int|
                t is StatementContradictionAudit && 0 <= i < head.len() ==> (#[trigger] head[i]).0 == rewrites[i].0);
        }
        if rewrites.last().0 != k && exists|i: int| 0 <= i < rewrites.len() && (#[trigger] rewrites[i]).0 == k {
            let i = choose|i: int| 0 <= i < rewrites.len() && (#[trigger] rewrites[i]).0 == k;
            assert(head[i].0 == k);
            let j = choose|j: int|
                0 <= j < head.len() && (#[trigger] head[j]).0 == k && lookup(
                    rewritten(db, head),
                    Table::StatementContradictionAudit,
                    k,
                ) == Some(image::<ContradictionAudit>(head[j].1));
            assert(rewrites[j].0 == k);
        }
    }
}

/// Listing the open disagreements finds at most as many as were asked for. Each is a
/// row that was open and whose statements still differ, as looking at it leaves it.
pub proof fn lemma_listed_still_differ(db: Db, limit: nat, now: u64, i: int)
    requires
        db.rows.dom().finite(),
        pending_listed(db, limit, now) is Ok,
        0 <= i < pending_listed(db, limit, now)->Ok_0.0.len(),
    ensures
        ({
            let listed = pending_listed(db, limit, now)->Ok_0.0;
            &&& listed.len() <= limit
            &&& exists|k: Seq<u8>|
                (#[trigger] slot::<ContradictionAudit>(db, Table::StatementContradictionAudit, k)) matches Slot::Row(m)
                    && is_looked_at(db, m, listed[i], now) && still_differ(db, m)
        }),
{
    let entries = scan(db, Table::StatementContradictionAudit, Seq::empty());
    lemma_scan_exists(db, Table::StatementContradictionAudit, Seq::empty());
    let j = lemma_pass_lists(db, entries, limit, now, i);
    assert(lookup(db, Table::StatementContradictionAudit, entries[j].0) == Some(entries[j].1));
    assert(slot::<ContradictionAudit>(db, Table::StatementContradictionAudit, entries[j].0) == parsed::<
        ContradictionAudit,
    >(entries[j].1));
}

/// Where fewer are found than were asked for, every row that was open has been looked
/// at, and it is listed if its statements still differ.
pub proof fn lemma_differing_are_listed(db: Db, limit: nat, now: u64, k: Seq<u8>)
    requires
        db.rows.dom().finite(),
        pending_listed(db, limit, now) is Ok,
        pending_listed(db, limit, now)->Ok_0.0.len() < limit,
        slot::<ContradictionAudit>(db, Table::StatementContradictionAudit, k) matches Slot::Row(m) && m.outcome == 0,
    ensures
        ({
            let (listed, after) = pending_listed(db, limit, now)->Ok_0;
            let m = slot::<ContradictionAudit>(db, Table::StatementContradictionAudit, k)->Row_0;
            &&& exists|n: ContradictionModel|
                lookup(after, Table::StatementContradictionAudit, k) == Some(#[trigger] image::<ContradictionAudit>(n))
                    && is_looked_at(db, m, n, now)
            &&& still_differ(db, m) ==> exists|i: int|
                0 <= i < listed.len() && is_looked_at(db, m, #[trigger] listed[i], now)
        }),
{
    let entries = scan(db, Table::StatementContradictionAudit, Seq::empty());
    lemma_scan_exists(db, Table::StatementContradictionAudit, Seq::empty());
    let (live, rewrites) = pending_pass(db, entries, limit, now)->Ok_0;
    assert(k.take(0) =~= Seq::<u8>::empty());
    assert(db.dom().contains((Table::StatementContradictionAudit, k)));
    let j = choose|j: int| 0 <= j < entries.len() && (#[trigger] entries[j]).0 == k;
    assert(lookup(db, Table::StatementContradictionAudit, entries[j].0) == Some(entries[j].1));
    let r = lemma_pass_misses_none(db, entries, limit, now, j);
    assert(rewrites[r.0].0 == k);
    lemma_rewritten(db, rewrites, Table::StatementContradictionAudit, k);
    let i = choose|i: int|
        0 <= i < rewrites.len() && (#[trigger] rewrites[i]).0 == k && lookup(
            rewritten(db, rewrites),
            Table::StatementContradictionAudit,
            k,
        ) == Some(image::<ContradictionAudit>(rewrites[i].1));
    let e = lemma_pass_rewrites(db, entries, limit, now, i);
    assert(lookup(db, Table::StatementContradictionAudit, entries[e].0) == Some(entries[e].1));
}

/// Listing changes nothing but rows that were open: such a row stays as it was or is
/// as looking at it leaves it.
pub proof fn lemma_listing_touches_open_rows(db: Db, limit: nat, now: u64, t: Table, k: Seq<u8>)
    requires
        db.rows.dom().finite(),
        pending_listed(db, limit, now) is Ok,
    ensures
        ({
            let after = pending_listed(db, limit, now)->Ok_0.1;
            ||| lookup(after, t, k) == lookup(db, t, k)
            ||| {
                &&& t is StatementContradictionAudit
                &&& slot::<ContradictionAudit>(db, Table::StatementContradictionAudit, k) matches Slot::Row(m)
                    && exists|n: ContradictionModel|
                    lookup(after, t, k) == Some(#[trigger] image::<ContradictionAudit>(n)) && is_looked_at(db, m, n, now)
            }
        }),
{
    let entries = scan(db, Table::StatementContradictionAudit, Seq::empty());
    lemma_scan_exists(db, Table::StatementContradictionAudit, Seq::empty());
    let (live, rewrites) = pending_pass(db, entries, limit, now)->Ok_0;
    lemma_rewritten(db, rewrites, t, k);
    if t is StatementContradictionAudit && exists|i: int| 0 <= i < rewrites.len() && (#[trigger] rewrites[i]).0 == k {
        let i = choose|i: int|
            0 <= i < rewrites.len() && (#[trigger] rewrites[i]).0 == k && lookup(
                rewritten(db, rewrites),
                Table::StatementContradictionAudit,
                k,
            ) == Some(image::<ContradictionAudit>(rewrites[i].1));
        let e = lemma_pass_rewrites(db, entries, limit, now, i);
        assert(lookup(db, Table::StatementContradictionAudit, entries[e].0) == Some(entries[e].1));
    }
}

} // verus!
