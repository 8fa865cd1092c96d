//! What two facts about one thing come to.

use vstd::prelude::*;

use crate::bytes::lemma_pow256_values;
use crate::catalog::Table;
use crate::cells::cell_fits;
use crate::collect::collect;
use crate::order::{has_prefix, lemma_lex_irreflexive, lemma_lex_total, lex_lt};
use crate::row::{fits, lemma_packed_len, lemma_parsed, list, slot, Row, Slot};
use crate::statement::contradiction::union_ids;
use crate::statement::crud::{
    active_facts, admitted, contradicting, contradicts, created, evidence_indexed, inserted, lemma_id_in, memories_of,
    predicate_key, probed, resolved, statement_behind, statements_behind, stored_confidence,
};
use crate::statement::laws::{
    lemma_evidence_indexed_frame, lemma_head_names_row, lemma_inserted_lookups, lemma_probed_frame, open_row, row_sound,
    sound, subject_entry_sound, subject_key,
};
use crate::statement::list::{conflicting, contradictions};
use crate::statement::{StatementOpError, WriteContext};
use crate::store::{is_scan, lemma_scan_unique, lookup, Db};
use crate::tables::contradiction::{contradiction_key, contradiction_outcome, ContradictionAudit, ContradictionModel};
use crate::tables::statement::{
    by_subject_key, by_subject_prefix, lemma_statement_of_row, opt_statement_bytes, row_of, scope_of, Statement,
    StatementMetadata, StatementModel, StatementRowModel, SubjectRef,
};
use crate::types::{EntityId, PredicateId, RowScope, StatementKind, F32};

verus! {

/// The row of a statement can be held, whatever confidence it is stored with.
pub open spec fn row_fits(scope: RowScope, s: StatementModel) -> bool {
    forall|c: F32| fits::<StatementMetadata>(#[trigger] row_of(Statement { confidence: c, ..s }, scope))
}

/// There is no current fact about a subject and predicate.
pub open spec fn no_fact(db: Db, scope: RowScope, subject: EntityId, predicate: PredicateId) -> bool {
    forall|k: Seq<u8>|
        has_prefix(k, by_subject_prefix(scope, subject.0, StatementKind::Fact.byte(), predicate.0, 1))
            ==> !#[trigger] db.dom().contains((Table::StatementsBySubject, k))
}

/// A fact about a subject and predicate that was neither superseded nor tombstoned.
pub open spec fn new_fact(s: StatementModel, scope: RowScope, subject: EntityId, predicate: PredicateId) -> bool {
    &&& s.kind == StatementKind::Fact
    &&& s.subject == SubjectRef::Entity(subject)
    &&& s.predicate == predicate
    &&& s.superseded_by is None
    &&& !s.tombstoned
    &&& row_fits(scope, s)
}

/// A statement as it is stored by its creation.
pub open spec fn stored(db: Db, s: StatementModel, ctx: WriteContext) -> StatementModel {
    Statement { confidence: stored_confidence(db, s, ctx.aggregated_now)->Ok_0, ..s }
}

/// What is recorded of a disagreement about a subject and predicate.
pub open spec fn audit_of(db: Db, subject: EntityId, predicate: PredicateId) -> Slot<ContradictionModel> {
    slot::<ContradictionAudit>(
        db,
        Table::StatementContradictionAudit,
        contradiction_key(subject.0, predicate.0),
    )
}

/// The row of a disagreement once two statements were found to disagree.
pub open spec fn recorded_row(
    db: Db,
    subject: EntityId,
    predicate: PredicateId,
    a: StatementModel,
    b: StatementModel,
    ctx: WriteContext,
) -> ContradictionModel {
    open_row(db, subject, predicate, seq![a.id.0, b.id.0], ctx.fresh_audit_id, ctx.now_unix_nanos)
}

/// An insertion touches eight tables.
pub proof fn lemma_inserted_frame(db: Db, scope: RowScope, s: StatementModel, memories: Seq<[u8; 16]>, t: Table, k: Seq<u8>)
    requires
        !(t is Statements || t is StatementsBySubject || t is StatementsByPredicate || t is StatementsByObjectEntity
            || t is StatementsByEventTime || t is StatementsByEvidence || t is StatementChain
            || t is StatementEmbedQueue),
    ensures
        lookup(inserted(db, scope, s, memories), t, k) == lookup(db, t, k),
{
    assert forall|d: Db| lookup(#[trigger] evidence_indexed(d, scope, memories, s.id.0), t, k)
        == lookup(d, t, k) by {
        lemma_evidence_indexed_frame(d, scope, memories, s.id.0, t, k);
    }
}

/// The key under which a current fact is listed.
spec fn fact_key(scope: RowScope, subject: EntityId, predicate: PredicateId, id: [u8; 16]) -> Seq<u8> {
    by_subject_key(scope, subject.0, StatementKind::Fact.byte(), predicate.0, 1, id)
}

proof fn lemma_fact_key(scope: RowScope, subject: EntityId, predicate: PredicateId, id: [u8; 16])
    ensures
        has_prefix(
            fact_key(scope, subject, predicate, id),
            by_subject_prefix(scope, subject.0, StatementKind::Fact.byte(), predicate.0, 1),
        ),
{
    let prefix = by_subject_prefix(scope, subject.0, StatementKind::Fact.byte(), predicate.0, 1);
    assert(fact_key(scope, subject, predicate, id).take(prefix.len() as int) =~= prefix);
}

proof fn lemma_fact_keys_differ(scope: RowScope, subject: EntityId, predicate: PredicateId, a: [u8; 16], b: [u8; 16])
    requires
        a != b,
    ensures
        fact_key(scope, subject, predicate, a) != fact_key(scope, subject, predicate, b),
{
    let prefix = by_subject_prefix(scope, subject.0, StatementKind::Fact.byte(), predicate.0, 1);
    let x = fact_key(scope, subject, predicate, a);
    let y = fact_key(scope, subject, predicate, b);
    if x == y {
        assert(x.skip(prefix.len() as int) =~= a@);
        assert(y.skip(prefix.len() as int) =~= b@);
        assert(a =~= b);
    }
}

/// Where there is no current fact, none is found.
proof fn lemma_none_active(db: Db, scope: RowScope, subject: EntityId, predicate: PredicateId)
    requires
        no_fact(db, scope, subject, predicate),
    ensures
        active_facts(db, scope, subject, predicate) == Ok::<_, StatementOpError>(Seq::<StatementModel>::empty()),
{
    let prefix = by_subject_prefix(scope, subject.0, StatementKind::Fact.byte(), predicate.0, 1);
    let none = Seq::<(Seq<u8>, Seq<u8>)>::empty();
    assert(is_scan(db, Table::StatementsBySubject, prefix, none));
    lemma_scan_unique(db, Table::StatementsBySubject, prefix, none);
}

/// A disagreement that was not recorded before names the two, and its row can be
/// held.
proof fn lemma_recorded_anew(
    db: Db,
    subject: EntityId,
    predicate: PredicateId,
    a: StatementModel,
    b: StatementModel,
    ctx: WriteContext,
)
    requires
        a.id != b.id,
        audit_of(db, subject, predicate) is Absent,
    ensures
        ({
            let row = recorded_row(db, subject, predicate, a, b, ctx);
            &&& fits::<ContradictionAudit>(row)
            &&& row.outcome == contradiction_outcome::PENDING
            &&& row.contradicting_statement_ids == seq![a.id.0, b.id.0]
        }),
{
    let row = recorded_row(db, subject, predicate, a, b, ctx);
    lemma_union_of_two(a.id.0, b.id.0);
    lemma_pow256_values();
    lemma_packed_len(row.contradicting_statement_ids);
    let cells = ContradictionAudit::<Vec<[u8; 16]>>::cells(row);
    assert(cells[3] == list(row.contradicting_statement_ids));
    assert forall|i: int| 0 <= i < cells.len() implies cell_fits(#[trigger] cells[i]) by {
        assert(i == 0 || i == 1 || i == 2 || i == 3 || i == 4 || i == 5 || i == 6);
    }
}

/// One current fact is listed, and no other.
spec fn lists_one(db: Db, scope: RowScope, subject: EntityId, predicate: PredicateId, id: [u8; 16]) -> bool {
    forall|k: Seq<u8>|
        has_prefix(k, by_subject_prefix(scope, subject.0, StatementKind::Fact.byte(), predicate.0, 1)) ==> (
        #[trigger] lookup(db, Table::StatementsBySubject, k) == if k == fact_key(scope, subject, predicate, id) {
            Some(id@)
        } else {
            None
        })
}

/// Two current facts are listed, and no others.
spec fn lists_two(
    db: Db,
    scope: RowScope,
    subject: EntityId,
    predicate: PredicateId,
    a: [u8; 16],
    b: [u8; 16],
) -> bool {
    forall|k: Seq<u8>|
        has_prefix(k, by_subject_prefix(scope, subject.0, StatementKind::Fact.byte(), predicate.0, 1)) ==> (
        #[trigger] lookup(db, Table::StatementsBySubject, k) == if k == fact_key(scope, subject, predicate, a) {
            Some(a@)
        } else if k == fact_key(scope, subject, predicate, b) {
            Some(b@)
        } else {
            None
        })
}

/// A current fact that is listed alone is the only one.
proof fn lemma_one_listed(db: Db, scope: RowScope, subject: EntityId, predicate: PredicateId, x: StatementModel)
    requires
        slot::<StatementMetadata>(db, Table::Statements, x.id.0@) == Slot::Row(row_of(x, scope)),
        lists_one(db, scope, subject, predicate, x.id.0),
    ensures
        active_facts(db, scope, subject, predicate) == Ok::<_, StatementOpError>(seq![x]),
{
    let prefix = by_subject_prefix(scope, subject.0, StatementKind::Fact.byte(), predicate.0, 1);
    let key = fact_key(scope, subject, predicate, x.id.0);
    lemma_fact_key(scope, subject, predicate, x.id.0);
    let listed = seq![(key, x.id.0@)];
    assert forall|k: Seq<u8>| #[trigger]
        db.dom().contains((Table::StatementsBySubject, k)) && has_prefix(k, prefix) implies exists|i: int|
        0 <= i < listed.len() && (#[trigger] listed[i]).0 == k by {
        assert(lookup(db, Table::StatementsBySubject, k) is Some);
        assert(listed[0].0 == k);
    }
    assert(lookup(db, Table::StatementsBySubject, key) == Some(x.id.0@));
    assert(is_scan(db, Table::StatementsBySubject, prefix, listed));
    lemma_scan_unique(db, Table::StatementsBySubject, prefix, listed);
    lemma_id_in(x.id.0);
    lemma_statement_of_row(x, scope);
    let f = |kv: (Seq<u8>, Seq<u8>)| statement_behind(db, kv.1);
    assert(listed.drop_last() =~= Seq::<(Seq<u8>, Seq<u8>)>::empty());
    assert(collect(listed.drop_last(), f) == Ok::<_, StatementOpError>(Seq::<StatementModel>::empty()));
    assert(collect(listed, f) == Ok::<_, StatementOpError>(Seq::<StatementModel>::empty().push(x)));
    assert(Seq::<StatementModel>::empty().push(x) =~= seq![x]);
    assert(statements_behind(db, listed) == collect(listed, f));
}

/// The first fact about a subject and predicate is stored as it is, and nothing
/// disagrees with it.
proof fn lemma_first_fact(
    db: Db,
    scope: RowScope,
    subject: EntityId,
    predicate: PredicateId,
    a: StatementModel,
    ctx: WriteContext,
)
    requires
        no_fact(db, scope, subject, predicate),
        new_fact(a, scope, subject, predicate),
        admitted(db, a) matches Ok(p) && !p.is_stateful,
        created(db, scope, a, ctx) is Ok,
    ensures
        ({
            let d = created(db, scope, a, ctx)->Ok_0.0;
            let m = row_of(stored(db, a, ctx), scope);
            &&& resolved(db, a.evidence) is Ok
            &&& d == inserted(db, scope, stored(db, a, ctx), memories_of(resolved(db, a.evidence)->Ok_0))
            &&& slot::<StatementMetadata>(d, Table::Statements, a.id.0@) == Slot::Row(m)
            &&& active_facts(d, scope, subject, predicate) == Ok::<_, StatementOpError>(seq![stored(db, a, ctx)])
            &&& lists_one(d, scope, subject, predicate, a.id.0)
        }),
{
    lemma_none_active(db, scope, subject, predicate);
    let new = stored(db, a, ctx);
    let memories = memories_of(resolved(db, a.evidence)->Ok_0);
    let d = inserted(db, scope, new, memories);
    assert(!contradicts(Seq::<StatementModel>::empty(), a));
    assert(probed(db, scope, a, ctx) == Ok::<_, StatementOpError>(db));
    lemma_inserted_lookups(db, scope, new, memories);
    lemma_parsed::<StatementMetadata>(row_of(new, scope));
    let key = fact_key(scope, subject, predicate, a.id.0);
    assert(subject_key(row_of(new, scope)) == key);
    assert(lists_one(d, scope, subject, predicate, a.id.0)) by {
        assert forall|k: Seq<u8>|
            has_prefix(k, by_subject_prefix(scope, subject.0, StatementKind::Fact.byte(), predicate.0, 1)) implies (
        #[trigger] lookup(d, Table::StatementsBySubject, k) == if k == key {
            Some(a.id.0@)
        } else {
            None
        }) by {
            assert(!db.dom().contains((Table::StatementsBySubject, k)));
        }
    }
    lemma_one_listed(d, scope, subject, predicate, new);
}

/// Two facts about one subject and predicate, which may have many values, both
/// stay: neither is superseded, and both are current, with the link to a
/// predecessor that each was given. Where their objects differ, the disagreement is
/// open and names the two, beside those that it named if it was open before; where
/// they agree, nothing is recorded.
pub proof fn lemma_two_facts(
    db: Db,
    scope: RowScope,
    subject: EntityId,
    predicate: PredicateId,
    a: StatementModel,
    b: StatementModel,
    ctx_a: WriteContext,
    ctx_b: WriteContext,
)
    requires
        no_fact(db, scope, subject, predicate),
        new_fact(a, scope, subject, predicate),
        new_fact(b, scope, subject, predicate),
        admitted(db, a) matches Ok(p) && !p.is_stateful,
        created(db, scope, a, ctx_a) is Ok,
        created(created(db, scope, a, ctx_a)->Ok_0.0, scope, b, ctx_b) is Ok,
    ensures
        ({
            let d1 = created(db, scope, a, ctx_a)->Ok_0.0;
            let d2 = created(d1, scope, b, ctx_b)->Ok_0.0;
            let x = row_of(stored(db, a, ctx_a), scope);
            let y = row_of(stored(d1, b, ctx_b), scope);
            let audit = audit_of(d2, subject, predicate);
            let recorded = recorded_row(db, subject, predicate, a, b, ctx_b);
            &&& a.id != b.id
            &&& slot::<StatementMetadata>(d2, Table::Statements, a.id.0@) == Slot::Row(x)
            &&& slot::<StatementMetadata>(d2, Table::Statements, b.id.0@) == Slot::Row(y)
            &&& x.is_current == 1 && x.superseded_by_bytes is None && x.supersedes_bytes == opt_statement_bytes(
                a.supersedes,
            )
            &&& y.is_current == 1 && y.superseded_by_bytes is None && y.supersedes_bytes == opt_statement_bytes(
                b.supersedes,
            )
            &&& a.object == b.object ==> audit == audit_of(db, subject, predicate)
            &&& a.object != b.object && fits::<ContradictionAudit>(recorded) ==> audit == Slot::Row(recorded)
            &&& a.object != b.object && audit_of(db, subject, predicate) is Absent ==> {
                &&& audit matches Slot::Row(m)
                &&& m.outcome == contradiction_outcome::PENDING
                &&& m.contradicting_statement_ids == seq![a.id.0, b.id.0]
            }
        }),
{
    lemma_second_fact(db, scope, subject, predicate, a, b, ctx_a, ctx_b);
    if audit_of(db, subject, predicate) is Absent {
        lemma_recorded_anew(db, subject, predicate, a, b, ctx_b);
    }
}

proof fn lemma_second_fact(
    db: Db,
    scope: RowScope,
    subject: EntityId,
    predicate: PredicateId,
    a: StatementModel,
    b: StatementModel,
    ctx_a: WriteContext,
    ctx_b: WriteContext,
)
    requires
        no_fact(db, scope, subject, predicate),
        new_fact(a, scope, subject, predicate),
        new_fact(b, scope, subject, predicate),
        admitted(db, a) matches Ok(p) && !p.is_stateful,
        created(db, scope, a, ctx_a) is Ok,
        created(created(db, scope, a, ctx_a)->Ok_0.0, scope, b, ctx_b) is Ok,
    ensures
        ({
            let d1 = created(db, scope, a, ctx_a)->Ok_0.0;
            let d2 = created(d1, scope, b, ctx_b)->Ok_0.0;
            let x = row_of(stored(db, a, ctx_a), scope);
            let y = row_of(stored(d1, b, ctx_b), scope);
            let audit = audit_of(d2, subject, predicate);
            let recorded = recorded_row(db, subject, predicate, a, b, ctx_b);
            &&& a.id != b.id
            &&& slot::<StatementMetadata>(d2, Table::Statements, a.id.0@) == Slot::Row(x)
            &&& slot::<StatementMetadata>(d2, Table::Statements, b.id.0@) == Slot::Row(y)
            &&& a.object == b.object ==> audit == audit_of(db, subject, predicate)
            &&& a.object != b.object && fits::<ContradictionAudit>(recorded) ==> audit == Slot::Row(recorded)
            &&& lists_two(d2, scope, subject, predicate, a.id.0, b.id.0)
        }),
{
    lemma_first_fact(db, scope, subject, predicate, a, ctx_a);
    lemma_second_admitted(db, scope, subject, predicate, a, b, ctx_a, ctx_b);
    let d1 = created(db, scope, a, ctx_a)->Ok_0.0;
    let first = stored(db, a, ctx_a);
    lemma_second_inserted(d1, scope, subject, predicate, b, ctx_b);
    lemma_probe_one(d1, scope, subject, predicate, first, b, ctx_b);
    let d = probed(d1, scope, b, ctx_b)->Ok_0;
    let key = contradiction_key(subject.0, predicate.0);
    let d2 = created(d1, scope, b, ctx_b)->Ok_0.0;
    assert(lookup(d2, Table::StatementContradictionAudit, key) == lookup(d, Table::StatementContradictionAudit, key));
    assert(lookup(d2, Table::Statements, a.id.0@) == lookup(d1, Table::Statements, a.id.0@));
    lemma_fact_keys_differ(scope, subject, predicate, a.id.0, b.id.0);
    assert(recorded_row(d1, subject, predicate, first, b, ctx_b) == recorded_row(
        db,
        subject,
        predicate,
        a,
        b,
        ctx_b,
    ));
}

/// The second fact is admitted, under another identifier, and what is recorded of a
/// disagreement is as it was.
proof fn lemma_second_admitted(
    db: Db,
    scope: RowScope,
    subject: EntityId,
    predicate: PredicateId,
    a: StatementModel,
    b: StatementModel,
    ctx_a: WriteContext,
    ctx_b: WriteContext,
)
    requires
        no_fact(db, scope, subject, predicate),
        new_fact(a, scope, subject, predicate),
        new_fact(b, scope, subject, predicate),
        admitted(db, a) matches Ok(p) && !p.is_stateful,
        created(db, scope, a, ctx_a) is Ok,
        created(created(db, scope, a, ctx_a)->Ok_0.0, scope, b, ctx_b) is Ok,
    ensures
        ({
            let d1 = created(db, scope, a, ctx_a)->Ok_0.0;
            &&& admitted(d1, b) matches Ok(p) && !p.is_stateful
            &&& a.id != b.id
            &&& a.id.0@ != b.id.0@
            &&& audit_of(d1, subject, predicate) == audit_of(db, subject, predicate)
        }),
{
    lemma_first_fact(db, scope, subject, predicate, a, ctx_a);
    let first = stored(db, a, ctx_a);
    let memories = memories_of(resolved(db, a.evidence)->Ok_0);
    lemma_inserted_frame(db, scope, first, memories, Table::Predicates, predicate_key(predicate.0));
    lemma_inserted_frame(
        db,
        scope,
        first,
        memories,
        Table::StatementContradictionAudit,
        contradiction_key(subject.0, predicate.0),
    );
    if a.id.0@ == b.id.0@ {
        assert(a.id.0 =~= b.id.0);
    }
}

/// A new fact is held against the one that there is.
proof fn lemma_probe_one(
    db: Db,
    scope: RowScope,
    subject: EntityId,
    predicate: PredicateId,
    a: StatementModel,
    b: StatementModel,
    ctx: WriteContext,
)
    requires
        active_facts(db, scope, subject, predicate) == Ok::<_, StatementOpError>(seq![a]),
        b.kind == StatementKind::Fact,
        b.subject == SubjectRef::Entity(subject),
        b.predicate == predicate,
        probed(db, scope, b, ctx) is Ok,
    ensures
        ({
            let audit = audit_of(probed(db, scope, b, ctx)->Ok_0, subject, predicate);
            let recorded = recorded_row(db, subject, predicate, a, b, ctx);
            &&& a.object == b.object ==> audit == audit_of(db, subject, predicate)
            &&& a.object != b.object && fits::<ContradictionAudit>(recorded) ==> audit == Slot::Row(recorded)
        }),
{
    let active = seq![a];
    assert(active[0].object == a.object);
    assert(contradicts(active, b) == (a.object != b.object));
    let ids = contradicting(active, b);
    assert(ids =~= seq![a.id.0, b.id.0]);
    let recorded = recorded_row(db, subject, predicate, a, b, ctx);
    if a.object != b.object && fits::<ContradictionAudit>(recorded) {
        lemma_parsed::<ContradictionAudit>(recorded);
    }
}

/// A second fact is inserted, beside what there is.
proof fn lemma_second_inserted(
    db: Db,
    scope: RowScope,
    subject: EntityId,
    predicate: PredicateId,
    b: StatementModel,
    ctx: WriteContext,
)
    requires
        new_fact(b, scope, subject, predicate),
        admitted(db, b) matches Ok(p) && !p.is_stateful,
        created(db, scope, b, ctx) is Ok,
    ensures
        ({
            let d = probed(db, scope, b, ctx)->Ok_0;
            let d2 = created(db, scope, b, ctx)->Ok_0.0;
            &&& slot::<StatementMetadata>(d2, Table::Statements, b.id.0@) == Slot::Row(
                row_of(stored(db, b, ctx), scope),
            )
            &&& forall|k: Seq<u8>|
                k != b.id.0@ ==> #[trigger] lookup(d2, Table::Statements, k) == lookup(db, Table::Statements, k)
            &&& forall|k: Seq<u8>| #[trigger]
                lookup(d2, Table::StatementsBySubject, k) == if k == fact_key(scope, subject, predicate, b.id.0) {
                    Some(b.id.0@)
                } else {
                    lookup(db, Table::StatementsBySubject, k)
                }
            &&& forall|k: Seq<u8>| #[trigger]
                lookup(d2, Table::StatementContradictionAudit, k) == lookup(d, Table::StatementContradictionAudit, k)
        }),
{
    let d = probed(db, scope, b, ctx)->Ok_0;
    assert forall|t: Table, k: Seq<u8>| !(t is StatementContradictionAudit) implies #[trigger] lookup(d, t, k) == lookup(
        db,
        t,
        k,
    ) by {
        lemma_probed_frame(db, scope, b, ctx, t, k);
    }
    assert(stored_confidence(d, b, ctx.aggregated_now) == stored_confidence(db, b, ctx.aggregated_now)) by {
        assert(forall|k: Seq<u8>|
            lookup(d, Table::EvidenceOverflow, k) == lookup(db, Table::EvidenceOverflow, k));
    }
    let new = stored(db, b, ctx);
    let memories = memories_of(resolved(d, b.evidence)->Ok_0);
    lemma_inserted_lookups(d, scope, new, memories);
    lemma_parsed::<StatementMetadata>(row_of(new, scope));
    assert(subject_key(row_of(new, scope)) == fact_key(scope, subject, predicate, b.id.0));
    assert forall|k: Seq<u8>| #[trigger]
        lookup(inserted(d, scope, new, memories), Table::StatementContradictionAudit, k) == lookup(
            d,
            Table::StatementContradictionAudit,
            k,
        ) by {
        lemma_inserted_frame(d, scope, new, memories, Table::StatementContradictionAudit, k);
    }
}

proof fn lemma_union_of_two(a: [u8; 16], b: [u8; 16])
    requires
        a != b,
    ensures
        union_ids(Seq::empty(), seq![a, b]) == seq![a, b],
{
    let both = seq![a, b];
    assert(both.drop_last() =~= seq![a]);
    assert(seq![a].drop_last() =~= Seq::<[u8; 16]>::empty());
    reveal_with_fuel(union_ids, 3);
    assert(!Seq::<[u8; 16]>::empty().contains(a));
    let one = Seq::<[u8; 16]>::empty().push(a);
    assert(union_ids(Seq::empty(), seq![a]) == one);
    assert(!one.contains(b));
    assert(one.push(b) =~= both);
}

/// Two such facts contradict each other exactly if their objects differ: then the
/// list of contradictions holds the two and nothing else, and else it is empty.
pub proof fn lemma_two_facts_contradict(
    db: Db,
    scope: RowScope,
    subject: EntityId,
    predicate: PredicateId,
    a: StatementModel,
    b: StatementModel,
    ctx_a: WriteContext,
    ctx_b: WriteContext,
)
    requires
        no_fact(db, scope, subject, predicate),
        new_fact(a, scope, subject, predicate),
        new_fact(b, scope, subject, predicate),
        admitted(db, a) matches Ok(p) && !p.is_stateful,
        created(db, scope, a, ctx_a) is Ok,
        created(created(db, scope, a, ctx_a)->Ok_0.0, scope, b, ctx_b) is Ok,
    ensures
        ({
            let d1 = created(db, scope, a, ctx_a)->Ok_0.0;
            let d2 = created(d1, scope, b, ctx_b)->Ok_0.0;
            let x = stored(db, a, ctx_a);
            let y = stored(d1, b, ctx_b);
            let found = contradictions(d2, scope, subject, predicate);
            &&& a.object != b.object ==> found == Ok::<_, StatementOpError>(seq![x, y]) || found == Ok::<
                _,
                StatementOpError,
            >(seq![y, x])
            &&& a.object == b.object ==> found == Ok::<_, StatementOpError>(Seq::<StatementModel>::empty())
        }),
{
    lemma_second_fact(db, scope, subject, predicate, a, b, ctx_a, ctx_b);
    let d1 = created(db, scope, a, ctx_a)->Ok_0.0;
    let d2 = created(d1, scope, b, ctx_b)->Ok_0.0;
    lemma_two_in_some_order(d2, scope, subject, predicate, stored(db, a, ctx_a), stored(d1, b, ctx_b));
}

/// A current fact about a subject and predicate.
pub open spec fn current_fact(m: StatementRowModel, scope: RowScope, subject: EntityId, predicate: PredicateId) -> bool {
    &&& scope_of(m) == scope
    &&& m.kind == StatementKind::Fact.byte()
    &&& m.subject_entity_bytes == subject.0
    &&& m.predicate_id == predicate.0
    &&& m.is_current == 1
}

/// Whatever else was done, and however the two came about: where two statements are
/// the current facts about a subject and predicate, they contradict each other
/// exactly if their objects differ. Then the list of contradictions holds the two
/// and nothing else, and else it is empty.
pub proof fn lemma_current_facts_contradict(
    db: Db,
    scope: RowScope,
    subject: EntityId,
    predicate: PredicateId,
    x: StatementModel,
    y: StatementModel,
)
    requires
        sound(db),
        x.id != y.id,
        slot::<StatementMetadata>(db, Table::Statements, x.id.0@) == Slot::Row(row_of(x, scope)),
        slot::<StatementMetadata>(db, Table::Statements, y.id.0@) == Slot::Row(row_of(y, scope)),
        current_fact(row_of(x, scope), scope, subject, predicate),
        current_fact(row_of(y, scope), scope, subject, predicate),
        forall|k: Seq<u8>|
            (#[trigger] slot::<StatementMetadata>(db, Table::Statements, k)) matches Slot::Row(m) && current_fact(
                m,
                scope,
                subject,
                predicate,
            ) ==> k == x.id.0@ || k == y.id.0@,
    ensures
        ({
            let found = contradictions(db, scope, subject, predicate);
            &&& x.object != y.object ==> found == Ok::<_, StatementOpError>(seq![x, y]) || found == Ok::<
                _,
                StatementOpError,
            >(seq![y, x])
            &&& x.object == y.object ==> found == Ok::<_, StatementOpError>(Seq::<StatementModel>::empty())
        }),
{
    let prefix = by_subject_prefix(scope, subject.0, StatementKind::Fact.byte(), predicate.0, 1);
    assert(row_sound(db, x.id.0@));
    assert(row_sound(db, y.id.0@));
    let kx = fact_key(scope, subject, predicate, x.id.0);
    let ky = fact_key(scope, subject, predicate, y.id.0);
    assert(subject_key(row_of(x, scope)) == kx);
    assert(subject_key(row_of(y, scope)) == ky);
    assert forall|k: Seq<u8>| has_prefix(k, prefix) implies (#[trigger] lookup(db, Table::StatementsBySubject, k) == if k
        == kx {
        Some(x.id.0@)
    } else if k == ky {
        Some(y.id.0@)
    } else {
        None
    }) by {
        if lookup(db, Table::StatementsBySubject, k) is Some {
            assert(subject_entry_sound(db, k));
            let v = lookup(db, Table::StatementsBySubject, k)->Some_0;
            let m = slot::<StatementMetadata>(db, Table::Statements, v)->Row_0;
            lemma_head_names_row(m, scope, subject.0, StatementKind::Fact.byte(), predicate.0);
            assert(current_fact(m, scope, subject, predicate));
        }
    }
    lemma_two_in_some_order(db, scope, subject, predicate, x, y);
}

proof fn lemma_two_in_some_order(
    db: Db,
    scope: RowScope,
    subject: EntityId,
    predicate: PredicateId,
    x: StatementModel,
    y: StatementModel,
)
    requires
        x.id != y.id,
        slot::<StatementMetadata>(db, Table::Statements, x.id.0@) == Slot::Row(row_of(x, scope)),
        slot::<StatementMetadata>(db, Table::Statements, y.id.0@) == Slot::Row(row_of(y, scope)),
        lists_two(db, scope, subject, predicate, x.id.0, y.id.0),
    ensures
        ({
            let found = contradictions(db, scope, subject, predicate);
            &&& x.object != y.object ==> found == Ok::<_, StatementOpError>(seq![x, y]) || found == Ok::<
                _,
                StatementOpError,
            >(seq![y, x])
            &&& x.object == y.object ==> found == Ok::<_, StatementOpError>(Seq::<StatementModel>::empty())
        }),
{
    let kx = fact_key(scope, subject, predicate, x.id.0);
    let ky = fact_key(scope, subject, predicate, y.id.0);
    lemma_fact_keys_differ(scope, subject, predicate, x.id.0, y.id.0);
    lemma_lex_total(kx, ky);
    if lex_lt(kx, ky) {
        lemma_two_listed(db, scope, subject, predicate, x, y);
    } else {
        assert(lists_two(db, scope, subject, predicate, y.id.0, x.id.0));
        lemma_two_listed(db, scope, subject, predicate, y, x);
    }
}

/// Two current facts, in the order of their keys, and no others.
proof fn lemma_two_listed(
    db: Db,
    scope: RowScope,
    subject: EntityId,
    predicate: PredicateId,
    x: StatementModel,
    y: StatementModel,
)
    requires
        lex_lt(fact_key(scope, subject, predicate, x.id.0), fact_key(scope, subject, predicate, y.id.0)),
        slot::<StatementMetadata>(db, Table::Statements, x.id.0@) == Slot::Row(row_of(x, scope)),
        slot::<StatementMetadata>(db, Table::Statements, y.id.0@) == Slot::Row(row_of(y, scope)),
        lists_two(db, scope, subject, predicate, x.id.0, y.id.0),
    ensures
        contradictions(db, scope, subject, predicate) == Ok::<_, StatementOpError>(
            if x.object != y.object {
                seq![x, y]
            } else {
                Seq::empty()
            },
        ),
{
    let prefix = by_subject_prefix(scope, subject.0, StatementKind::Fact.byte(), predicate.0, 1);
    let kx = fact_key(scope, subject, predicate, x.id.0);
    let ky = fact_key(scope, subject, predicate, y.id.0);
    lemma_fact_key(scope, subject, predicate, x.id.0);
    lemma_fact_key(scope, subject, predicate, y.id.0);
    let listed = seq![(kx, x.id.0@), (ky, y.id.0@)];
    assert forall|k: Seq<u8>| #[trigger]
        db.dom().contains((Table::StatementsBySubject, k)) && has_prefix(k, prefix) implies exists|i: int|
        0 <= i < listed.len() && (#[trigger] listed[i]).0 == k by {
        assert(lookup(db, Table::StatementsBySubject, k) is Some);
        if k == kx {
            assert(listed[0].0 == k);
        } else {
            assert(listed[1].0 == k);
        }
    }
    assert(ky != kx) by {
        if kx == ky {
            lemma_lex_irreflexive(kx);
        }
    }
    assert(lookup(db, Table::StatementsBySubject, kx) == Some(x.id.0@));
    assert(lookup(db, Table::StatementsBySubject, ky) == Some(y.id.0@));
    assert(is_scan(db, Table::StatementsBySubject, prefix, listed));
    lemma_scan_unique(db, Table::StatementsBySubject, prefix, listed);
    lemma_id_in(x.id.0);
    lemma_id_in(y.id.0);
    lemma_statement_of_row(x, scope);
    lemma_statement_of_row(y, scope);
    let f = |kv: (Seq<u8>, Seq<u8>)| statement_behind(db, kv.1);
    let one = listed.drop_last();
    assert(one =~= seq![(kx, x.id.0@)]);
    assert(one.drop_last() =~= Seq::<(Seq<u8>, Seq<u8>)>::empty());
    assert(collect(one.drop_last(), f) == Ok::<_, StatementOpError>(Seq::<StatementModel>::empty()));
    assert(collect(one, f) == Ok::<_, StatementOpError>(Seq::<StatementModel>::empty().push(x)));
    let both = Seq::<StatementModel>::empty().push(x).push(y);
    assert(collect(listed, f) == Ok::<_, StatementOpError>(both));
    assert(both =~= seq![x, y]);
    assert(statements_behind(db, listed) == collect(listed, f));
    assert(both[0].object == x.object && both[1].object == y.object);
    assert(conflicting(both) == if x.object != y.object {
        both
    } else {
        Seq::empty()
    });
}

} // verus!
