//! How it is decided what a new statement does to the ones that are there.

use vstd::prelude::*;

use crate::catalog::Table;
use crate::row::{slot, Slot};
use crate::statement::crud::{created, current_statement, lemma_id_in};
use crate::statement::laws::writing::{is_rival, lemma_superseded_rows_written, says_as};
use crate::statement::laws::{lemma_current_is_listed, lemma_listed_is_current, row_sound, rows_fit, sound};
use crate::statement::supersede::{
    decided, is_first_rival, DecideStep, JudgeError, JudgeVerdict, StatementSimilarityCandidate, SupersedeDecision,
    TieredSupersedeDecider,
};
use crate::statement::{StatementOpError, WriteContext};
use crate::store::{scan, Db};
use crate::tables::statement::{by_subject_prefix, StatementMetadata, StatementModel, SubjectRef};
use crate::types::{EntityId, RowScope, StatementId};

verus! {

/// A current statement of the same entity, predicate and kind settles the matter: a new
/// statement that holds one value supersedes it, any other contradicts it. Where there
/// is none, ten neighbours are asked for if there is a vector to look for them with, and
/// else the new statement stands on its own.
pub proof fn lemma_first_step(db: Db, scope: RowScope, subject: EntityId, s: StatementModel, has_vector: bool)
    requires
        sound(db),
        db.rows.dom().finite(),
        s.subject == SubjectRef::Entity(subject),
        TieredSupersedeDecider::first_step(db, scope, s, has_vector) is Ok,
    ensures
        ({
            let step = TieredSupersedeDecider::first_step(db, scope, s, has_vector)->Ok_0;
            let there = exists|k: Seq<u8>|
                (#[trigger] slot::<StatementMetadata>(db, Table::Statements, k)) matches Slot::Row(m) && is_rival(
                    m,
                    scope,
                    subject,
                    s,
                );
            if there {
                step matches DecideStep::Done(d) && match d {
                    SupersedeDecision::Supersede(id) => s.is_stateful && (slot::<StatementMetadata>(
                        db,
                        Table::Statements,
                        id.0@,
                    ) matches Slot::Row(m) && is_rival(m, scope, subject, s)),
                    SupersedeDecision::Contradicts(id) => !s.is_stateful && (slot::<StatementMetadata>(
                        db,
                        Table::Statements,
                        id.0@,
                    ) matches Slot::Row(m) && is_rival(m, scope, subject, s)),
                    SupersedeDecision::Coexist => false,
                }
            } else if has_vector {
                step == DecideStep::NeedNeighbours(10)
            } else {
                step == DecideStep::Done(SupersedeDecision::Coexist)
            }
        }),
{
    let found = scan(
        db,
        Table::StatementsBySubject,
        by_subject_prefix(scope, subject.0, s.kind.byte(), s.predicate.0, 1),
    );
    assert forall|k: Seq<u8>|
        ((#[trigger] slot::<StatementMetadata>(db, Table::Statements, k)) matches Slot::Row(m) && is_rival(
            m,
            scope,
            subject,
            s,
        )) implies found.len() > 0 by {
        let m = slot::<StatementMetadata>(db, Table::Statements, k)->Row_0;
        lemma_current_is_listed(db, m, k);
    }
    if found.len() > 0 {
        lemma_listed_is_current(db, scope, subject.0, s.kind.byte(), s.predicate.0);
        let v = found[0].1;
        let m = slot::<StatementMetadata>(db, Table::Statements, v)->Row_0;
        assert(row_sound(db, v));
        lemma_id_in(m.statement_id_bytes);
        assert(current_statement(db, scope, subject, s.predicate, s.kind) == Ok::<_, StatementOpError>(
            Some(StatementId(m.statement_id_bytes)),
        ));
        assert(is_rival(m, scope, subject, s));
    }
}

/// A statement about something else than an entity supersedes nothing at the first
/// step.
pub proof fn lemma_first_step_without_entity(db: Db, scope: RowScope, s: StatementModel, has_vector: bool)
    requires
        !(s.subject is Entity),
    ensures
        TieredSupersedeDecider::first_step(db, scope, s, has_vector) == Ok::<_, StatementOpError>(
            if has_vector {
                DecideStep::NeedNeighbours(10)
            } else {
                DecideStep::Done(SupersedeDecision::Coexist)
            },
        ),
{
}

/// A neighbour is another statement of the same kind, predicate and entity.
pub open spec fn is_of_the_same(s: StatementModel, c: StatementSimilarityCandidate) -> bool {
    &&& c.statement_id != s.id
    &&& c.statement.kind == s.kind
    &&& c.statement.predicate == s.predicate
    &&& s.subject matches SubjectRef::Entity(a) && c.statement.subject matches SubjectRef::Entity(b) && a == b
}

/// Of the neighbours the first that speaks of the same counts alone: from the upper cut
/// point on it is superseded, from the lower one on the judge is asked about it where
/// there is one, and else the new statement stands on its own, as it does where there is
/// no such neighbour.
pub proof fn lemma_second_step(d: TieredSupersedeDecider, s: StatementModel, near: Seq<StatementSimilarityCandidate>, i: int)
    requires
        forall|j: int| 0 <= j < i ==> !is_of_the_same(s, #[trigger] near[j]),
        0 <= i <= near.len() <= usize::MAX,
        i == near.len() || is_of_the_same(s, near[i]),
    ensures
        d.second_step(s, near) == if i == near.len() {
            DecideStep::Done(SupersedeDecision::Coexist)
        } else if near[i].score.ge_spec(d.thresholds.auto_supersede) {
            DecideStep::Done(SupersedeDecision::Supersede(near[i].statement_id))
        } else if d.has_judge && near[i].score.ge_spec(d.thresholds.judge_lower) {
            DecideStep::NeedVerdict(i as usize)
        } else {
            DecideStep::Done(SupersedeDecision::Coexist)
        },
{
    assert forall|j: int| 0 <= j < near.len() implies (#[trigger] crate::statement::supersede::is_rival(s, near[j])
        <==> is_of_the_same(s, near[j])) by {
    }
    if i < near.len() {
        assert forall|j: int| 0 <= j < i implies !crate::statement::supersede::is_rival(s, #[trigger] near[j]) by {
            assert(!is_of_the_same(s, near[j]));
        }
        assert(crate::statement::supersede::is_rival(s, near[i]));
        assert(is_first_rival(s, near, i));
        let k = choose|k: int| #[trigger] is_first_rival(s, near, k);
        assert(is_first_rival(s, near, k));
        if k < i {
            assert(!is_of_the_same(s, near[k]));
        }
        assert(k == i);
    } else if exists|k: int| #[trigger] is_first_rival(s, near, k) {
        let k = choose|k: int| #[trigger] is_first_rival(s, near, k);
        assert(is_of_the_same(s, near[k]));
    }
}

/// The judge is followed: it decides whether the neighbour is superseded, contradicted
/// or stands beside, and without a verdict both stand.
pub proof fn lemma_last_step(id: StatementId, verdict: Result<JudgeVerdict, JudgeError>)
    ensures
        TieredSupersedeDecider::last_step(id, verdict) == SupersedeDecision::Supersede(id) <==> verdict == Ok::<_, JudgeError>(
            JudgeVerdict::Supersedes,
        ),
        TieredSupersedeDecider::last_step(id, verdict) == SupersedeDecision::Contradicts(id) <==> verdict == Ok::<
            _,
            JudgeError,
        >(JudgeVerdict::Contradicts),
        TieredSupersedeDecider::last_step(id, verdict) == SupersedeDecision::Coexist <==> verdict is Err || verdict
            == Ok::<_, JudgeError>(JudgeVerdict::Coexists),
{
}

/// A decision to supersede is carried out on the statement that it names: that one gives
/// way to the new one, which says what it says and follows it. Any other decision
/// creates the new statement as if none had been made.
pub proof fn lemma_decision_carried_out(
    db: Db,
    scope: RowScope,
    s: StatementModel,
    decision: SupersedeDecision,
    ctx: WriteContext,
)
    requires
        sound(db),
        decided(db, scope, s, decision, ctx) is Ok,
        !(s.subject is Pending),
        !s.tombstoned,
        decision matches SupersedeDecision::Supersede(prior) ==> rows_fit(db, scope, prior, s, ctx),
    ensures
        ({
            let (after, id) = decided(db, scope, s, decision, ctx)->Ok_0;
            match decision {
                SupersedeDecision::Supersede(prior) => {
                    &&& id == s.id
                    &&& slot::<StatementMetadata>(after, Table::Statements, prior.0@) matches Slot::Row(m)
                        && m.superseded_by_bytes == Some(s.id.0) && m.is_current == 0
                    &&& slot::<StatementMetadata>(after, Table::Statements, s.id.0@) matches Slot::Row(m)
                        && says_as(m, s, scope) && m.supersedes_bytes == Some(prior.0)
                },
                _ => created(db, scope, s, ctx) == Ok::<_, StatementOpError>((after, id)),
            }
        }),
{
    if let SupersedeDecision::Supersede(prior) = decision {
        lemma_superseded_rows_written(db, scope, prior, s, ctx, s.id.0@);
    }
}

} // verus!
