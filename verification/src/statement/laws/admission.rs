//! Which statements are stored, and which are refused.

use vstd::prelude::*;

use crate::bytes::be;
use crate::catalog::Table;
use crate::row::{image, slot, Slot};
use crate::statement::crud::{admitted, created, current_statement, probed, resolved};
use crate::statement::laws::lemma_probed_frame;
use crate::statement::supersede::{deactivated, outdated, supersede_checked, superseded};
use crate::statement::{StatementOpError, WriteContext};
use crate::store::{lookup, Db};
use crate::tables::predicate::PredicateDefinition;
use crate::tables::statement::{
    EvidenceEntry, EvidenceOverflow, EvidenceRef, StatementMetadata, StatementModel, StatementObject, SubjectRef,
};
use crate::types::{EvidenceOverflowId, RowScope, StatementId, StatementKind};

verus! {

/// A statement is stored only if it is sound in itself, its subject and its
/// predicate are registered, and its identifier is free. Its confidence is from 0 to
/// 1, as the bits of a float tell. It has a time exactly if it is an event, and its
/// validity does not end before it begins. The row of its predicate allows its kind
/// (1 for facts, 2 for preferences, 3 for events, else any) and its object (1 for
/// entities, 2 for values, 3 for memories, 4 for statements, 0 for any).
pub proof fn lemma_stored_is_admissible(db: Db, scope: RowScope, s: StatementModel, ctx: WriteContext)
    requires
        created(db, scope, s, ctx) is Ok,
    ensures
        s.confidence.bits <= 0x3f80_0000 || s.confidence.bits == 0x8000_0000,
        s.kind == StatementKind::Event <==> s.event_at_unix_nanos is Some,
        s.valid_from_unix_nanos is Some && s.valid_to_unix_nanos is Some ==> s.valid_from_unix_nanos->Some_0
            <= s.valid_to_unix_nanos->Some_0,
        match s.subject {
            SubjectRef::Entity(e) => lookup(db, Table::Entities, e.0@) is Some,
            SubjectRef::Memory(_) => true,
            SubjectRef::Pending(_) => false,
        },
        slot::<PredicateDefinition>(db, Table::Predicates, be(s.predicate.0 as nat, 4)) matches Slot::Row(p) && {
            &&& p.kind_constraint == 1 ==> s.kind == StatementKind::Fact
            &&& p.kind_constraint == 2 ==> s.kind == StatementKind::Preference
            &&& p.kind_constraint == 3 ==> s.kind == StatementKind::Event
            &&& p.object_type_constraint_byte == 0 || p.object_type_constraint_byte == match s.object {
                StatementObject::Entity(_) => 1u8,
                StatementObject::Value(_) => 2u8,
                StatementObject::Memory(_) => 3u8,
                StatementObject::Statement(_) => 4u8,
            }
        },
        lookup(db, Table::Statements, s.id.0@) is None,
        created(db, scope, s, ctx)->Ok_0.1 == s.id,
{
}

/// A statement that is sound in itself, with a registered subject and predicate that
/// allow it and an identifier that is free, is refused for none of these.
pub proof fn lemma_admissible_is_admitted(db: Db, s: StatementModel)
    requires
        s.confidence.bits <= 0x3f80_0000 || s.confidence.bits == 0x8000_0000,
        s.kind == StatementKind::Event <==> s.event_at_unix_nanos is Some,
        s.valid_from_unix_nanos is Some && s.valid_to_unix_nanos is Some ==> s.valid_from_unix_nanos->Some_0
            <= s.valid_to_unix_nanos->Some_0,
        match s.subject {
            SubjectRef::Entity(e) => lookup(db, Table::Entities, e.0@) is Some,
            SubjectRef::Memory(_) => true,
            SubjectRef::Pending(_) => false,
        },
        slot::<PredicateDefinition>(db, Table::Predicates, be(s.predicate.0 as nat, 4)) matches Slot::Row(p) && {
            &&& p.kind_constraint == 1 ==> s.kind == StatementKind::Fact
            &&& p.kind_constraint == 2 ==> s.kind == StatementKind::Preference
            &&& p.kind_constraint == 3 ==> s.kind == StatementKind::Event
            &&& p.object_type_constraint_byte == 0 || p.object_type_constraint_byte == match s.object {
                StatementObject::Entity(_) => 1u8,
                StatementObject::Value(_) => 2u8,
                StatementObject::Memory(_) => 3u8,
                StatementObject::Statement(_) => 4u8,
            }
        },
        lookup(db, Table::Statements, s.id.0@) is None,
    ensures
        admitted(db, s) is Ok,
        admitted(db, s)->Ok_0.is_stateful == slot::<PredicateDefinition>(
            db,
            Table::Predicates,
            be(s.predicate.0 as nat, 4),
        )->Row_0.is_stateful,
{
}

/// What a statement is told that is refused: the first of its faults, in the order
/// of confidence, time, validity, subject, predicate, kind, object and identifier.
pub proof fn lemma_refusal_names_the_fault(db: Db, scope: RowScope, s: StatementModel, ctx: WriteContext)
    ensures
        ({
            let unit = s.confidence.bits <= 0x3f80_0000 || s.confidence.bits == 0x8000_0000;
            let timed = s.kind == StatementKind::Event <==> s.event_at_unix_nanos is Some;
            let valid = s.valid_from_unix_nanos is Some && s.valid_to_unix_nanos is Some
                ==> s.valid_from_unix_nanos->Some_0 <= s.valid_to_unix_nanos->Some_0;
            let shaped = unit && timed && valid;
            let known = match s.subject {
                SubjectRef::Entity(e) => lookup(db, Table::Entities, e.0@) is Some,
                SubjectRef::Memory(_) => true,
                SubjectRef::Pending(_) => false,
            };
            let row = slot::<PredicateDefinition>(db, Table::Predicates, be(s.predicate.0 as nat, 4));
            let p = row->Row_0;
            let kind_allowed = !(p.kind_constraint == 1 && s.kind != StatementKind::Fact || p.kind_constraint == 2
                && s.kind != StatementKind::Preference || p.kind_constraint == 3 && s.kind != StatementKind::Event);
            let object_allowed = p.object_type_constraint_byte == 0 || p.object_type_constraint_byte
                == match s.object {
                StatementObject::Entity(_) => 1u8,
                StatementObject::Value(_) => 2u8,
                StatementObject::Memory(_) => 3u8,
                StatementObject::Statement(_) => 4u8,
            };
            let found = created(db, scope, s, ctx);
            &&& !unit ==> found == Err::<(Db, StatementId), _>(
                StatementOpError::InvalidArgument("confidence must be in [0, 1] and not NaN"),
            )
            &&& unit && s.kind == StatementKind::Event && s.event_at_unix_nanos is None ==> found == Err::<
                (Db, StatementId),
                _,
            >(StatementOpError::InvalidArgument("Event requires event_at_unix_nanos"))
            &&& unit && s.kind != StatementKind::Event && s.event_at_unix_nanos is Some ==> found == Err::<
                (Db, StatementId),
                _,
            >(StatementOpError::InvalidArgument("only Event may set event_at_unix_nanos"))
            &&& unit && timed && !valid ==> found == Err::<(Db, StatementId), _>(
                StatementOpError::InvalidArgument("valid_from must be <= valid_to"),
            )
            &&& shaped && s.subject is Entity && !known ==> found == Err::<(Db, StatementId), _>(
                StatementOpError::UnknownSubject(s.subject->Entity_0),
            )
            &&& shaped && known && row is Absent ==> found == Err::<(Db, StatementId), _>(
                StatementOpError::UnknownPredicate(s.predicate.0),
            )
            &&& shaped && known && row is Row && !kind_allowed ==> found == Err::<(Db, StatementId), _>(
                StatementOpError::InvalidArgument("statement kind violates predicate kind_constraint"),
            )
            &&& shaped && known && row is Row && kind_allowed && !object_allowed ==> found == Err::<
                (Db, StatementId),
                _,
            >(
                StatementOpError::InvalidArgument(
                    "statement object variant violates predicate object_type_constraint",
                ),
            )
            &&& shaped && known && row is Row && kind_allowed && object_allowed && lookup(
                db,
                Table::Statements,
                s.id.0@,
            ) is Some ==> found == Err::<(Db, StatementId), _>(StatementOpError::AlreadyExists(s.id))
        }),
{
}

/// A statement whose evidence is held elsewhere is stored only if that evidence is there;
/// where it is not, one that would take no one's place is told so.
pub proof fn lemma_evidence_is_there(
    db: Db,
    scope: RowScope,
    s: StatementModel,
    ctx: WriteContext,
    old_id: StatementId,
    id: EvidenceOverflowId,
)
    requires
        s.evidence == EvidenceRef::<Seq<EvidenceEntry>>::Overflow(id),
    ensures
        created(db, scope, s, ctx) is Ok ==> slot::<EvidenceOverflow>(db, Table::EvidenceOverflow, id.0@) is Row,
        superseded(db, scope, old_id, s, ctx) is Ok ==> slot::<EvidenceOverflow>(
            db,
            Table::EvidenceOverflow,
            id.0@,
        ) is Row,
        s.kind == StatementKind::Event && admitted(db, s) is Ok && lookup(db, Table::EvidenceOverflow, id.0@) is None
            ==> created(db, scope, s, ctx) == Err::<(Db, StatementId), _>(
            StatementOpError::InvalidArgument("evidence overflow id references missing row"),
        ),
{
    assert forall|d: Db| (forall|x: Seq<u8>| lookup(d, Table::EvidenceOverflow, x) == lookup(
        db,
        Table::EvidenceOverflow,
        x,
    )) implies (#[trigger] resolved(d, s.evidence) == resolved(db, s.evidence)) by {
        assert(lookup(d, Table::EvidenceOverflow, id.0@) == lookup(db, Table::EvidenceOverflow, id.0@));
    }
    if superseded(db, scope, old_id, s, ctx) is Ok {
        lemma_superseded_has_evidence(db, scope, s, ctx, old_id, id);
    }
    if let SubjectRef::Entity(e) = s.subject {
        if let Ok(Some(prior)) = current_statement(db, scope, e, s.predicate, s.kind) {
            if superseded(db, scope, prior, s, ctx) is Ok {
                lemma_superseded_has_evidence(db, scope, s, ctx, prior, id);
            }
        }
    }
    if let Ok(d) = probed(db, scope, s, ctx) {
        assert forall|x: Seq<u8>| lookup(d, Table::EvidenceOverflow, x) == lookup(db, Table::EvidenceOverflow, x) by {
            lemma_probed_frame(db, scope, s, ctx, Table::EvidenceOverflow, x);
        }
    }
}

proof fn lemma_superseded_has_evidence(
    db: Db,
    scope: RowScope,
    s: StatementModel,
    ctx: WriteContext,
    old_id: StatementId,
    id: EvidenceOverflowId,
)
    requires
        s.evidence == EvidenceRef::<Seq<EvidenceEntry>>::Overflow(id),
        superseded(db, scope, old_id, s, ctx) is Ok,
    ensures
        slot::<EvidenceOverflow>(db, Table::EvidenceOverflow, id.0@) is Row,
{
    let m = supersede_checked(db, old_id, s)->Ok_0;
    let d1 = db.insert(
        (Table::Statements, m.statement_id_bytes@),
        image::<StatementMetadata>(outdated(m, s, ctx.now_unix_nanos)),
    );
    let mid = deactivated(d1, m);
    assert(lookup(mid, Table::EvidenceOverflow, id.0@) == lookup(db, Table::EvidenceOverflow, id.0@));
    assert(resolved(mid, s.evidence) is Ok);
}

} // verus!
