//! What creating, superseding and tombstoning leave on the rows.

use vstd::prelude::*;

use crate::bytes::be;
use crate::catalog::Table;
use crate::row::{fits, lemma_parsed, slot, Slot};
use crate::statement::crud::{
    created, current_statement, inserted, lemma_id_in, memories_of, probed, resolved, stored_confidence,
};
use crate::statement::laws::facts::row_fits;
use crate::statement::laws::{
    creation_fits, lemma_current_is_listed, lemma_evidence_indexed_frame, lemma_inserted_lookups, lemma_listed_is_current,
    lemma_probed_frame, lemma_superseded_chain, lemma_superseded_rows, row_sound, rows_fit, sound,
};
use crate::statement::supersede::{supersede_checked, superseded};
use crate::statement::tombstone::tombstoned;
use crate::statement::{StatementOpError, WriteContext};
use crate::store::{lookup, scan, Db};
use crate::tables::predicate::PredicateDefinition;
use crate::tables::statement::{
    by_subject_prefix, row_of, statement_of, EvidenceEntry, EvidenceOverflow, EvidenceRef, Statement, StatementMetadata,
    StatementModel, StatementRowModel, SubjectRef, TombstoneReason,
};
use crate::types::{EntityId, RowScope, StatementId, StatementKind, F32};

verus! {

/// A row says what a statement says, in a scope, and is current.
pub open spec fn says_as(m: StatementRowModel, s: StatementModel, scope: RowScope) -> bool {
    &&& m.statement_id_bytes == s.id.0
    &&& m.namespace_id == scope.namespace_id
    &&& m.agent_id_bytes == scope.agent_id_bytes
    &&& m.kind == match s.kind {
        StatementKind::Fact => 0u8,
        StatementKind::Preference => 1u8,
        StatementKind::Event => 2u8,
    }
    &&& match s.subject {
        SubjectRef::Entity(e) => m.subject_kind == 0 && m.subject_entity_bytes == e.0,
        SubjectRef::Pending(a) => m.subject_kind == 1 && m.subject_entity_bytes == a.0,
        SubjectRef::Memory(x) => m.subject_kind == 2 && m.subject_entity_bytes == x.0,
    }
    &&& m.predicate_id == s.predicate.0
    &&& m.object == s.object
    &&& match s.evidence {
        EvidenceRef::Inline(v) => m.evidence_inline == v && m.evidence_overflow_bytes is None,
        EvidenceRef::Overflow(id) => m.evidence_inline.len() == 0 && m.evidence_overflow_bytes == Some(id.0),
    }
    &&& m.extractor_id == s.extractor_id.0
    &&& m.extracted_at_unix_nanos == s.extracted_at_unix_nanos
    &&& m.schema_version == s.schema_version
    &&& m.valid_from_unix_nanos == s.valid_from_unix_nanos
    &&& m.valid_to_unix_nanos == s.valid_to_unix_nanos
    &&& m.event_at_unix_nanos == s.event_at_unix_nanos
    &&& m.is_stateful == s.is_stateful
    &&& m.superseded_by_bytes is None
    &&& m.tombstoned == 0
    &&& m.is_current == 1
}

/// The evidence of a statement, wherever it is held.
pub open spec fn evidence_of(db: Db, s: StatementModel) -> Seq<EvidenceEntry> {
    match s.evidence {
        EvidenceRef::Inline(v) => v,
        EvidenceRef::Overflow(id) => match slot::<EvidenceOverflow>(db, Table::EvidenceOverflow, id.0@) {
            Slot::Row(m) => m.entries,
            _ => Seq::empty(),
        },
    }
}

/// A confidence is the one that a statement is stored with: the aggregate of its
/// evidence if an entry of that has a confidence of its own, else the one that the
/// statement came with.
pub open spec fn is_stored_confidence(db: Db, s: StatementModel, aggregated: F32, c: F32) -> bool {
    &&& (exists|i: int|
        0 <= i < evidence_of(db, s).len() && (#[trigger] evidence_of(db, s)[i]).confidence_milli > 0) ==> c
        == aggregated
    &&& (forall|i: int|
        0 <= i < evidence_of(db, s).len() ==> (#[trigger] evidence_of(db, s)[i]).confidence_milli == 0) ==> c
        == s.confidence
}

proof fn lemma_is_stored_confidence(db: Db, s: StatementModel, aggregated: F32)
    requires
        stored_confidence(db, s, aggregated) is Ok,
    ensures
        is_stored_confidence(db, s, aggregated, stored_confidence(db, s, aggregated)->Ok_0),
{
    let v = evidence_of(db, s);
    if crate::statement::crud::any_metadata(v) {
        let i = choose|i: int| 0 <= i < v.len() && (#[trigger] v[i]).confidence_milli > 0;
        assert(v[i].confidence_milli != 0);
    }
}

/// What an insertion leaves on the queue of embeddings.
proof fn lemma_inserted_queue(db: Db, scope: RowScope, s: StatementModel, memories: Seq<[u8; 16]>, k: Seq<u8>)
    ensures
        lookup(inserted(db, scope, s, memories), Table::StatementEmbedQueue, k) == if k == s.id.0@ {
            Some(be(s.extracted_at_unix_nanos as nat, 8))
        } else {
            lookup(db, Table::StatementEmbedQueue, k)
        },
{
    assert forall|d: Db| lookup(
        #[trigger] crate::statement::crud::evidence_indexed(d, scope, memories, s.id.0),
        Table::StatementEmbedQueue,
        k,
    ) == lookup(d, Table::StatementEmbedQueue, k) by {
        lemma_evidence_indexed_frame(d, scope, memories, s.id.0, Table::StatementEmbedQueue, k);
    }
}

/// A statement that takes no one's place is added as it is: its row says what it
/// says, with the version, predecessor and root that it came with and the confidence
/// that it is stored with. It waits for an embedding since its extraction. No other
/// statement changes. An event takes no one's place, nor does a statement about a
/// memory, nor a fact on a predicate that holds many values.
pub proof fn lemma_created_is_added(db: Db, scope: RowScope, s: StatementModel, ctx: WriteContext, k: Seq<u8>)
    requires
        created(db, scope, s, ctx) is Ok,
        s.superseded_by is None,
        !s.tombstoned,
        row_fits(scope, s),
        s.kind == StatementKind::Event || !(s.subject is Entity) || s.kind == StatementKind::Fact && (slot::<
            PredicateDefinition,
        >(db, Table::Predicates, be(s.predicate.0 as nat, 4)) matches Slot::Row(p) && !p.is_stateful),
    ensures
        ({
            let after = created(db, scope, s, ctx)->Ok_0.0;
            &&& slot::<StatementMetadata>(after, Table::Statements, s.id.0@) matches Slot::Row(m) && {
                &&& says_as(m, s, scope)
                &&& m.version == s.version
                &&& m.supersedes_bytes is None <==> s.supersedes is None
                &&& s.supersedes is Some ==> m.supersedes_bytes == Some(s.supersedes->Some_0.0)
                &&& m.chain_root_bytes == s.chain_root.0
                &&& is_stored_confidence(db, s, ctx.aggregated_now, m.confidence)
            }
            &&& k != s.id.0@ ==> lookup(after, Table::Statements, k) == lookup(db, Table::Statements, k)
            &&& lookup(after, Table::StatementEmbedQueue, s.id.0@) == Some(be(s.extracted_at_unix_nanos as nat, 8))
            &&& k != s.id.0@ ==> lookup(after, Table::StatementEmbedQueue, k) == lookup(
                db,
                Table::StatementEmbedQueue,
                k,
            )
        }),
{
    lemma_appended_is_added(db, scope, s, ctx, k);
}

proof fn lemma_appended_is_added(db: Db, scope: RowScope, s: StatementModel, ctx: WriteContext, k: Seq<u8>)
    requires
        crate::statement::crud::appended(db, scope, s, ctx) is Ok,
        s.superseded_by is None,
        !s.tombstoned,
        !(s.subject is Pending),
        row_fits(scope, s),
    ensures
        ({
            let after = crate::statement::crud::appended(db, scope, s, ctx)->Ok_0.0;
            &&& slot::<StatementMetadata>(after, Table::Statements, s.id.0@) matches Slot::Row(m) && {
                &&& says_as(m, s, scope)
                &&& m.version == s.version
                &&& m.supersedes_bytes is None <==> s.supersedes is None
                &&& s.supersedes is Some ==> m.supersedes_bytes == Some(s.supersedes->Some_0.0)
                &&& m.chain_root_bytes == s.chain_root.0
                &&& is_stored_confidence(db, s, ctx.aggregated_now, m.confidence)
            }
            &&& k != s.id.0@ ==> lookup(after, Table::Statements, k) == lookup(db, Table::Statements, k)
            &&& lookup(after, Table::StatementEmbedQueue, s.id.0@) == Some(be(s.extracted_at_unix_nanos as nat, 8))
            &&& k != s.id.0@ ==> lookup(after, Table::StatementEmbedQueue, k) == lookup(
                db,
                Table::StatementEmbedQueue,
                k,
            )
        }),
{
    let d = probed(db, scope, s, ctx)->Ok_0;
    assert forall|t: Table, x: Seq<u8>| !(t is StatementContradictionAudit) implies #[trigger] lookup(d, t, x) == lookup(
        db,
        t,
        x,
    ) by {
        lemma_probed_frame(db, scope, s, ctx, t, x);
    }
    assert(stored_confidence(d, s, ctx.aggregated_now) == stored_confidence(db, s, ctx.aggregated_now)) by {
        assert(forall|x: Seq<u8>| lookup(d, Table::EvidenceOverflow, x) == lookup(db, Table::EvidenceOverflow, x));
    }
    let c = stored_confidence(d, s, ctx.aggregated_now)->Ok_0;
    lemma_is_stored_confidence(db, s, ctx.aggregated_now);
    let new = Statement { confidence: c, ..s };
    let memories = memories_of(resolved(d, new.evidence)->Ok_0);
    lemma_inserted_lookups(d, scope, new, memories);
    lemma_inserted_queue(d, scope, new, memories, k);
    lemma_inserted_queue(d, scope, new, memories, s.id.0@);
    lemma_parsed::<StatementMetadata>(row_of(new, scope));
}

/// A row is the current one of a subject, predicate and kind.
pub open spec fn is_rival(m: StatementRowModel, scope: RowScope, subject: EntityId, s: StatementModel) -> bool {
    &&& m.namespace_id == scope.namespace_id
    &&& m.agent_id_bytes == scope.agent_id_bytes
    &&& m.subject_entity_bytes == subject.0
    &&& m.predicate_id == s.predicate.0
    &&& m.kind == match s.kind {
        StatementKind::Fact => 0u8,
        StatementKind::Preference => 1u8,
        StatementKind::Event => 2u8,
    }
    &&& m.is_current == 1
}

/// A preference, or a fact on a predicate that holds one value, takes the place of a
/// current statement of its subject, predicate and kind: that one gives way to it,
/// and it follows that one. Where there is none it is added as it is. No other
/// statement changes.
pub proof fn lemma_created_takes_the_place(
    db: Db,
    scope: RowScope,
    subject: EntityId,
    s: StatementModel,
    ctx: WriteContext,
) -> (old: Option<StatementId>)
    requires
        sound(db),
        db.rows.dom().finite(),
        created(db, scope, s, ctx) is Ok,
        s.subject == SubjectRef::Entity(subject),
        s.superseded_by is None,
        !s.tombstoned,
        creation_fits(db, scope, s, ctx),
        s.kind == StatementKind::Preference || s.kind == StatementKind::Fact && (slot::<PredicateDefinition>(
            db,
            Table::Predicates,
            be(s.predicate.0 as nat, 4),
        ) matches Slot::Row(p) && p.is_stateful),
    ensures
        old is None <==> forall|k: Seq<u8>|
            (#[trigger] slot::<StatementMetadata>(db, Table::Statements, k)) matches Slot::Row(m) ==> !is_rival(
                m,
                scope,
                subject,
                s,
            ),
        ({
            let after = created(db, scope, s, ctx)->Ok_0.0;
            &&& slot::<StatementMetadata>(after, Table::Statements, s.id.0@) matches Slot::Row(m) && says_as(m, s, scope)
                && match old {
                Some(before) => m.supersedes_bytes == Some(before.0),
                None => {
                    &&& m.version == s.version
                    &&& m.chain_root_bytes == s.chain_root.0
                    &&& s.supersedes is None ==> m.supersedes_bytes is None
                    &&& is_stored_confidence(db, s, ctx.aggregated_now, m.confidence)
                },
            }
            &&& old is Some ==> created(db, scope, s, ctx) == superseded(db, scope, old->Some_0, s, ctx)
            &&& old is Some ==> {
                &&& slot::<StatementMetadata>(db, Table::Statements, old->Some_0.0@) matches Slot::Row(m) && is_rival(
                    m,
                    scope,
                    subject,
                    s,
                )
                &&& slot::<StatementMetadata>(after, Table::Statements, old->Some_0.0@) matches Slot::Row(m)
                    && m.superseded_by_bytes == Some(s.id.0) && m.is_current == 0
            }
            &&& forall|k: Seq<u8>|
                k != s.id.0@ && (old is Some ==> k != old->Some_0.0@) ==> #[trigger] lookup(after, Table::Statements, k)
                    == lookup(db, Table::Statements, k)
        }),
{
    let found = scan(
        db,
        Table::StatementsBySubject,
        by_subject_prefix(scope, subject.0, s.kind.byte(), s.predicate.0, 1),
    );
    assert forall|k: Seq<u8>|
        ((#[trigger] slot::<StatementMetadata>(db, Table::Statements, k)) matches Slot::Row(m) && is_rival(
            m,
            scope,
            subject,
            s,
        )) implies found.len() > 0 by {
        let m = slot::<StatementMetadata>(db, Table::Statements, k)->Row_0;
        lemma_current_is_listed(db, m, k);
    }
    if found.len() > 0 {
        lemma_listed_is_current(db, scope, subject.0, s.kind.byte(), s.predicate.0);
        let v = found[0].1;
        let m = slot::<StatementMetadata>(db, Table::Statements, v)->Row_0;
        assert(row_sound(db, v));
        lemma_id_in(m.statement_id_bytes);
        let prior = StatementId(m.statement_id_bytes);
        assert(current_statement(db, scope, subject, s.predicate, s.kind) == Ok::<_, StatementOpError>(Some(prior)));
        assert(rows_fit(db, scope, prior, s, ctx));
        lemma_superseded_chain(db, scope, prior, s, ctx, s);
        lemma_superseded_rows(db, scope, prior, s, ctx);
        assert(is_rival(m, scope, subject, s));
        Some(prior)
    } else {
        assert forall|k: Seq<u8>|
            k != s.id.0@ implies #[trigger] lookup(created(db, scope, s, ctx)->Ok_0.0, Table::Statements, k) == lookup(
            db,
            Table::Statements,
            k,
        ) by {
            lemma_appended_is_added(db, scope, s, ctx, k);
        }
        lemma_appended_is_added(db, scope, s, ctx, s.id.0@);
        None
    }
}

/// Superseding replaces a statement by a new version. The old one is kept: it names
/// its successor, is no longer current, is no longer believed since now (since the
/// extraction of the new one where there is no clock), and was valid until the new one
/// was extracted unless it said so itself. The new one says what it says, follows the
/// old one and its version, and belongs to the chain of the old one. No other statement
/// changes.
pub proof fn lemma_superseded_rows_written(
    db: Db,
    scope: RowScope,
    old_id: StatementId,
    s: StatementModel,
    ctx: WriteContext,
    k: Seq<u8>,
)
    requires
        sound(db),
        superseded(db, scope, old_id, s, ctx) is Ok,
        !(s.subject is Pending),
        !s.tombstoned,
        rows_fit(db, scope, old_id, s, ctx),
    ensures
        ({
            let after = superseded(db, scope, old_id, s, ctx)->Ok_0.0;
            let before = slot::<StatementMetadata>(db, Table::Statements, old_id.0@)->Row_0;
            &&& superseded(db, scope, old_id, s, ctx)->Ok_0.1 == s.id
            &&& slot::<StatementMetadata>(db, Table::Statements, old_id.0@) is Row
            &&& slot::<StatementMetadata>(after, Table::Statements, old_id.0@) == Slot::Row(
                StatementMetadata {
                    superseded_by_bytes: Some(s.id.0),
                    is_current: 0,
                    valid_to_unix_nanos: if before.valid_to_unix_nanos is Some {
                        before.valid_to_unix_nanos
                    } else {
                        Some(s.extracted_at_unix_nanos)
                    },
                    record_invalidated_at_unix_nanos: Some(
                        if ctx.now_unix_nanos == 0 {
                            s.extracted_at_unix_nanos
                        } else {
                            ctx.now_unix_nanos
                        },
                    ),
                    ..before
                },
            )
            &&& slot::<StatementMetadata>(after, Table::Statements, s.id.0@) matches Slot::Row(m) && {
                &&& says_as(m, s, scope)
                &&& m.supersedes_bytes == Some(old_id.0)
                &&& before.version < 0xffff_ffff ==> m.version == before.version + 1
                &&& before.version == 0xffff_ffff ==> m.version == before.version
                &&& before.supersedes_bytes is None ==> m.chain_root_bytes == old_id.0
                &&& before.supersedes_bytes is Some ==> m.chain_root_bytes == before.chain_root_bytes
                &&& is_stored_confidence(db, s, ctx.aggregated_at_extraction, m.confidence)
            }
            &&& k != s.id.0@ && k != old_id.0@ ==> lookup(after, Table::Statements, k) == lookup(
                db,
                Table::Statements,
                k,
            )
        }),
{
    lemma_superseded_chain(db, scope, old_id, s, ctx, s);
    lemma_superseded_rows(db, scope, old_id, s, ctx);
    lemma_is_stored_confidence(db, s, ctx.aggregated_at_extraction);
    let m = supersede_checked(db, old_id, s)->Ok_0;
    assert(row_sound(db, old_id.0@));
    assert(m.statement_id_bytes =~= old_id.0);
}

/// A statement is superseded only by one of its kind, subject and predicate under a
/// free identifier, only while it is neither tombstoned nor superseded, and never if
/// it is an event. What is told else is the first of the faults.
pub proof fn lemma_supersede_refusals(db: Db, scope: RowScope, old_id: StatementId, s: StatementModel, ctx: WriteContext)
    ensures
        ({
            let found = superseded(db, scope, old_id, s, ctx);
            let shaped = (s.confidence.bits <= 0x3f80_0000 || s.confidence.bits == 0x8000_0000) && (s.kind
                == StatementKind::Event <==> s.event_at_unix_nanos is Some) && (s.valid_from_unix_nanos is Some
                && s.valid_to_unix_nanos is Some ==> s.valid_from_unix_nanos->Some_0 <= s.valid_to_unix_nanos->Some_0);
            let row = slot::<StatementMetadata>(db, Table::Statements, old_id.0@);
            let m = row->Row_0;
            let live = shaped && row is Row && m.tombstoned == 0 && m.superseded_by_bytes is None;
            let subject = match s.subject {
                SubjectRef::Entity(e) => e.0,
                SubjectRef::Pending(a) => a.0,
                SubjectRef::Memory(x) => x.0,
            };
            let kind = match s.kind {
                StatementKind::Fact => 0u8,
                StatementKind::Preference => 1u8,
                StatementKind::Event => 2u8,
            };
            &&& found is Ok ==> live && m.kind == kind && kind != 2 && m.subject_entity_bytes == subject && m.predicate_id
                == s.predicate.0 && lookup(db, Table::Statements, s.id.0@) is None
            &&& shaped && row is Absent ==> found == Err::<(Db, StatementId), _>(StatementOpError::NotFound(old_id))
            &&& shaped && row is Row && m.tombstoned != 0 ==> found == Err::<(Db, StatementId), _>(
                StatementOpError::AlreadyTombstoned(old_id),
            )
            &&& shaped && row is Row && m.tombstoned == 0 && m.superseded_by_bytes is Some ==> found == Err::<
                (Db, StatementId),
                _,
            >(StatementOpError::AlreadySuperseded(old_id, StatementId(m.superseded_by_bytes->Some_0)))
            &&& live && m.kind == 2 ==> found == Err::<(Db, StatementId), _>(StatementOpError::EventCannotSupersede)
            &&& live && m.kind == 0 && kind != 0 ==> found == Err::<(Db, StatementId), _>(
                StatementOpError::KindMismatch { old: StatementKind::Fact, new: s.kind },
            )
            &&& live && m.kind == 1 && kind != 1 ==> found == Err::<(Db, StatementId), _>(
                StatementOpError::KindMismatch { old: StatementKind::Preference, new: s.kind },
            )
            &&& live && m.kind == kind && kind != 2 && m.subject_entity_bytes != subject ==> found == Err::<
                (Db, StatementId),
                _,
            >(StatementOpError::SubjectMismatch)
            &&& live && m.kind == kind && kind != 2 && m.subject_entity_bytes == subject && m.predicate_id
                != s.predicate.0 ==> found == Err::<(Db, StatementId), _>(StatementOpError::PredicateMismatch)
            &&& live && m.kind == kind && kind != 2 && m.subject_entity_bytes == subject && m.predicate_id
                == s.predicate.0 && lookup(db, Table::Statements, s.id.0@) is Some ==> found == Err::<
                (Db, StatementId),
                _,
            >(StatementOpError::AlreadyExists(s.id))
        }),
{
}

/// Tombstoning marks a statement that is live with its reason (1 at a user's request,
/// 2 for removal) and the time, from which on it is not believed. The rest of its row
/// stays, and so does every other statement. One that is marked already keeps its mark,
/// and one that is not there is told.
pub proof fn lemma_tombstoned_row(
    db: Db,
    id: StatementId,
    reason: TombstoneReason,
    at: u64,
    k: Seq<u8>,
)
    requires
        sound(db),
        slot::<StatementMetadata>(db, Table::Statements, id.0@) matches Slot::Row(m) ==> fits::<StatementMetadata>(
            crate::statement::tombstone::buried(m, reason, at),
        ),
    ensures
        match slot::<StatementMetadata>(db, Table::Statements, id.0@) {
            Slot::Absent => tombstoned(db, id, reason, at) == Err::<Db, _>(StatementOpError::NotFound(id)),
            Slot::Corrupt => tombstoned(db, id, reason, at) is Err,
            Slot::Row(m) => {
                let after = tombstoned(db, id, reason, at)->Ok_0;
                &&& tombstoned(db, id, reason, at) is Ok
                &&& m.tombstoned != 0 ==> after == db
                &&& m.tombstoned == 0 ==> slot::<StatementMetadata>(after, Table::Statements, id.0@) == Slot::Row(
                    StatementMetadata {
                        tombstoned: 1,
                        tombstoned_at_unix_nanos: Some(at),
                        tombstone_reason: match reason {
                            TombstoneReason::UserRequest => 1u8,
                            TombstoneReason::Retract => 2u8,
                        },
                        record_invalidated_at_unix_nanos: Some(at),
                        is_current: 0,
                        ..m
                    },
                )
                &&& m.tombstoned == 0 ==> lookup(after, Table::StatementEmbedQueue, id.0@) is None
                &&& k != id.0@ ==> lookup(after, Table::Statements, k) == lookup(db, Table::Statements, k) && lookup(
                    after,
                    Table::StatementEmbedQueue,
                    k,
                ) == lookup(db, Table::StatementEmbedQueue, k)
            },
        },
{
    if let Slot::Row(m) = slot::<StatementMetadata>(db, Table::Statements, id.0@) {
        assert(row_sound(db, id.0@));
        assert(m.statement_id_bytes =~= id.0);
        lemma_parsed::<StatementMetadata>(crate::statement::tombstone::buried(m, reason, at));
    }
}

/// A row is read as the statement that it says; one whose kind or subject is none is
/// read as nothing.
pub proof fn lemma_row_is_read(m: StatementRowModel)
    ensures
        statement_of(m) is Some <==> m.kind <= 2 && m.subject_kind <= 2,
        statement_of(m) matches Some(s) ==> {
            &&& s.id.0 == m.statement_id_bytes
            &&& m.kind == 0 <==> s.kind == StatementKind::Fact
            &&& m.kind == 1 <==> s.kind == StatementKind::Preference
            &&& m.kind == 2 <==> s.kind == StatementKind::Event
            &&& match s.subject {
                SubjectRef::Entity(e) => m.subject_kind == 0 && m.subject_entity_bytes == e.0,
                SubjectRef::Pending(a) => m.subject_kind == 1 && m.subject_entity_bytes == a.0,
                SubjectRef::Memory(x) => m.subject_kind == 2 && m.subject_entity_bytes == x.0,
            }
            &&& s.predicate.0 == m.predicate_id
            &&& s.object == m.object
            &&& s.confidence == m.confidence
            &&& match s.evidence {
                EvidenceRef::Inline(v) => m.evidence_overflow_bytes is None && v == m.evidence_inline,
                EvidenceRef::Overflow(id) => m.evidence_overflow_bytes == Some(id.0),
            }
            &&& s.extractor_id.0 == m.extractor_id
            &&& s.extracted_at_unix_nanos == m.extracted_at_unix_nanos
            &&& s.schema_version == m.schema_version
            &&& s.valid_from_unix_nanos == m.valid_from_unix_nanos
            &&& s.valid_to_unix_nanos == m.valid_to_unix_nanos
            &&& s.event_at_unix_nanos == m.event_at_unix_nanos
            &&& s.version == m.version
            &&& s.supersedes is None <==> m.supersedes_bytes is None
            &&& s.supersedes is Some ==> m.supersedes_bytes == Some(s.supersedes->Some_0.0)
            &&& s.superseded_by is None <==> m.superseded_by_bytes is None
            &&& s.superseded_by is Some ==> m.superseded_by_bytes == Some(s.superseded_by->Some_0.0)
            &&& s.chain_root.0 == m.chain_root_bytes
            &&& s.tombstoned <==> m.tombstoned != 0
            &&& s.tombstoned_at_unix_nanos == m.tombstoned_at_unix_nanos
            &&& s.tombstone_reason == m.tombstone_reason
            &&& s.record_invalidated_at_unix_nanos == m.record_invalidated_at_unix_nanos
            &&& s.is_stateful == m.is_stateful
        },
{
}

} // verus!
