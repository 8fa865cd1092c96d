//! Supersession: a new version takes the place of the current one.

use redb::{ReadTransaction, WriteTransaction};
use vstd::prelude::*;

use crate::catalog::Table;
use crate::row::{image, slot, Row, Slot};
use crate::statement::crud::{
    checked_unread, create_scanned, created, current_statement, flip_by_subject_to_noncurrent, get_value,
    insert_new_statement, insertion, load_statement, recompute_confidence_from_evidence, remove_from_predicate_index,
    retired, save_statement, shape_checked, statement_create, stored_confidence, unindexed, validate_statement_shape,
};
use crate::statement::list::lookup_current_statement;
use crate::statement::{StatementOpError, WriteContext};
use crate::store::{lookup, opened, rdb, scanned, wdb, Db};
use crate::tables::statement::{
    bucket_of, by_predicate_key, by_subject_prefix, scope_of, Statement, StatementMetadata, StatementModel,
    StatementRowModel, SubjectRef,
};
use crate::types::{id_eq, RowScope, StatementId, StatementKind, F32};

verus! {

/// Whether `s` may supersede the statement under `old_id`; and the row of that
/// one, if it may.
pub open spec fn supersede_checked(db: Db, old_id: StatementId, s: StatementModel) -> Result<
    StatementRowModel,
    StatementOpError,
> {
    match shape_checked(s) {
        Err(e) => Err(e),
        Ok(_) => match slot::<StatementMetadata>(db, Table::Statements, old_id.0@) {
            Slot::Absent => Err(StatementOpError::NotFound(old_id)),
            Slot::Corrupt => Err(StatementOpError::DecodeFailed),
            Slot::Row(m) => if m.tombstoned != 0 {
                Err(StatementOpError::AlreadyTombstoned(old_id))
            } else if m.superseded_by_bytes is Some {
                Err(StatementOpError::AlreadySuperseded(old_id, StatementId(m.superseded_by_bytes->Some_0)))
            } else {
                match StatementKind::of_byte(m.kind) {
                    None => Err(StatementOpError::InvalidArgument("old row has unknown kind")),
                    Some(kind) => if kind == StatementKind::Event {
                        Err(StatementOpError::EventCannotSupersede)
                    } else if kind != s.kind {
                        Err(StatementOpError::KindMismatch { old: kind, new: s.kind })
                    } else if m.subject_entity_bytes != s.subject.id_bytes() {
                        Err(StatementOpError::SubjectMismatch)
                    } else if m.predicate_id != s.predicate.0 {
                        Err(StatementOpError::PredicateMismatch)
                    } else if lookup(db, Table::Statements, s.id.0@) is Some {
                        Err(StatementOpError::AlreadyExists(s.id))
                    } else {
                        Ok(m)
                    },
                }
            },
        },
    }
}

/// The next version number. The last one is kept once it is reached.
pub open spec fn next_version(v: u32) -> u32 {
    if v == u32::MAX {
        u32::MAX
    } else {
        (v + 1) as u32
    }
}

/// The root of the chain that a row belongs to.
pub open spec fn root_of(m: StatementRowModel) -> [u8; 16] {
    if m.supersedes_bytes is None {
        m.statement_id_bytes
    } else {
        m.chain_root_bytes
    }
}

/// The new version: it follows the old one in its chain.
pub open spec fn successor(m: StatementRowModel, old_id: StatementId, s: StatementModel) -> StatementModel {
    Statement {
        version: next_version(m.version),
        supersedes: Some(old_id),
        superseded_by: None,
        chain_root: StatementId(root_of(m)),
        ..s
    }
}

/// The old row: superseded, no longer current, and valid no longer than until
/// the new version was extracted unless it said so itself. A clock of zero
/// stands for the time of that extraction.
pub open spec fn outdated(m: StatementRowModel, s: StatementModel, now_unix_nanos: u64) -> StatementRowModel {
    StatementMetadata {
        superseded_by_bytes: Some(s.id.0),
        valid_to_unix_nanos: if m.valid_to_unix_nanos is None {
            Some(s.extracted_at_unix_nanos)
        } else {
            m.valid_to_unix_nanos
        },
        record_invalidated_at_unix_nanos: Some(
            if now_unix_nanos == 0 {
                s.extracted_at_unix_nanos
            } else {
                now_unix_nanos
            },
        ),
        is_current: 0,
        ..m
    }
}

/// The rows after a live row left the indexes of live rows. `m` is the row as
/// it was.
pub open spec fn deactivated(db: Db, m: StatementRowModel) -> Db {
    if m.is_current != 0 {
        unindexed(
            retired(db, scope_of(m), m),
            by_predicate_key(scope_of(m), m.predicate_id, m.kind, bucket_of(m.confidence), m.statement_id_bytes),
            m.statement_id_bytes,
        )
    } else {
        db
    }
}

/// What superseding a statement does.
pub open spec fn superseded(
    db: Db,
    scope: RowScope,
    old_id: StatementId,
    s: StatementModel,
    ctx: WriteContext,
) -> Result<(Db, StatementId), StatementOpError> {
    match supersede_checked(db, old_id, s) {
        Err(e) => Err(e),
        Ok(m) => match stored_confidence(db, s, ctx.aggregated_at_extraction) {
            Err(e) => Err(e),
            Ok(c) => {
                let d1 = db.insert(
                    (Table::Statements, m.statement_id_bytes@),
                    image::<StatementMetadata>(outdated(m, s, ctx.now_unix_nanos)),
                );
                let new = Statement { confidence: c, ..successor(m, old_id, s) };
                match insertion(deactivated(d1, m), scope, new) {
                    Err(e) => Err(e),
                    Ok(d2) => Ok((d2, s.id)),
                }
            },
        },
    }
}

fn check_supersede(txn: &mut WriteTransaction, old_id: StatementId, s: &Statement) -> (r: Result<
    StatementMetadata,
    StatementOpError,
>)
    ensures
        wdb(*final(txn)) == wdb(*old(txn)),
        r matches Ok(m) ==> supersede_checked(wdb(*old(txn)), old_id, s.model()) == Ok::<_, StatementOpError>(
            m.model(),
        ),
        shape_checked(s.model()) matches Err(e) ==> r == Err::<StatementMetadata, _>(e),
        r matches Err(e) ==> e is Storage || supersede_checked(wdb(*old(txn)), old_id, s.model()) == Err::<
            StatementRowModel,
            _,
        >(e),
{
    validate_statement_shape(s)?;
    let old = match load_statement(txn, &old_id.0)? {
        Some(m) => m,
        None => return Err(StatementOpError::NotFound(old_id)),
    };
    if old.is_tombstoned() {
        return Err(StatementOpError::AlreadyTombstoned(old_id));
    }
    if let Some(successor) = old.superseded_by_bytes {
        return Err(StatementOpError::AlreadySuperseded(old_id, StatementId(successor)));
    }
    let kind = match StatementKind::from_u8(old.kind) {
        Some(k) => k,
        None => return Err(StatementOpError::InvalidArgument("old row has unknown kind")),
    };
    if kind == StatementKind::Event {
        return Err(StatementOpError::EventCannotSupersede);
    }
    if kind != s.kind {
        return Err(StatementOpError::KindMismatch { old: kind, new: s.kind });
    }
    let (_, subject) = s.subject.to_parts();
    if !id_eq(&old.subject_entity_bytes, &subject) {
        return Err(StatementOpError::SubjectMismatch);
    }
    if old.predicate_id != s.predicate.0 {
        return Err(StatementOpError::PredicateMismatch);
    }
    if get_value(txn, Table::Statements, s.id.0.as_slice())?.is_some() {
        return Err(StatementOpError::AlreadyExists(s.id));
    }
    Ok(old)
}

/// Takes a row that was current out of the indexes of live rows.
pub(crate) fn deactivate(txn: &mut WriteTransaction, m: &StatementMetadata, was_current: bool) -> (r: Result<
    (),
    StatementOpError,
>)
    ensures
        !was_current ==> r is Ok,
        r is Ok ==> wdb(*final(txn)) == deactivated(
            wdb(*old(txn)),
            StatementMetadata {
                is_current: if was_current {
                    1
                } else {
                    0
                },
                ..m.model()
            },
        ),
        r matches Err(e) ==> e is Storage,
{
    if was_current {
        let scope = m.scope();
        flip_by_subject_to_noncurrent(txn, scope, m)?;
        remove_from_predicate_index(txn, scope, m.predicate_id, m.kind, m.confidence, &m.statement_id_bytes)?;
    }
    Ok(())
}

/// Supersedes the statement under `old_id` by a new version.
pub fn statement_supersede(
    wtxn: &mut WriteTransaction,
    scope: RowScope,
    old_id: StatementId,
    new_statement: &Statement,
    ctx: &WriteContext,
) -> (r: Result<StatementId, StatementOpError>)
    ensures
        r matches Ok(id) ==> superseded(wdb(*old(wtxn)), scope, old_id, new_statement.model(), *ctx) == Ok::<
            _,
            StatementOpError,
        >((wdb(*final(wtxn)), id)),
        r matches Err(e) ==> e is Storage || superseded(wdb(*old(wtxn)), scope, old_id, new_statement.model(), *ctx)
            == Err::<(Db, StatementId), _>(e),
        shape_checked(new_statement.model()) matches Err(e) ==> r == Err::<StatementId, _>(e),
        supersede_checked(wdb(*old(wtxn)), old_id, new_statement.model()) is Err ==> wdb(*final(wtxn)) == wdb(
            *old(wtxn),
        ),
{
    let mut old = check_supersede(wtxn, old_id, new_statement)?;
    let ghost before = old.model();
    let root: [u8; 16] = if old.supersedes_bytes.is_none() {
        old.statement_id_bytes
    } else {
        old.chain_root_bytes
    };
    let mut new = new_statement.copy();
    new.version = old.version.saturating_add(1);
    new.supersedes = Some(old_id);
    new.superseded_by = None;
    new.chain_root = StatementId(root);
    recompute_confidence_from_evidence(wtxn, &mut new, ctx.aggregated_at_extraction)?;

    let was_current: bool = old.is_current != 0;
    old.superseded_by_bytes = Some(new.id.0);
    if old.valid_to_unix_nanos.is_none() {
        old.valid_to_unix_nanos = Some(new.extracted_at_unix_nanos);
    }
    old.record_invalidated_at_unix_nanos = Some(
        if ctx.now_unix_nanos == 0 {
            new.extracted_at_unix_nanos
        } else {
            ctx.now_unix_nanos
        },
    );
    old.is_current = 0;
    save_statement(wtxn, &old)?;
    deactivate(wtxn, &old, was_current)?;
    insert_new_statement(wtxn, scope, &new)?;
    Ok(new.id)
}

// The tiered decision.

/// What to do with a new statement.
#[derive(Clone, Copy, Debug, PartialEq, Eq)]
pub enum SupersedeDecision {
    /// Let it supersede the statement.
    Supersede(StatementId),
    /// Store it beside the statement, which it contradicts.
    Contradicts(StatementId),
    /// Store it on its own.
    Coexist,
}

/// The cut points on the cosine similarity of statements.
#[derive(Clone, Copy, Debug, PartialEq, Eq)]
pub struct TieredThresholds {
    /// From here on a neighbour is superseded without asking.
    pub auto_supersede: F32,
    /// From here on, below `auto_supersede`, the judge is asked.
    pub judge_lower: F32,
    /// The upper end of the judge's band.
    pub judge_upper: F32,
}

impl TieredThresholds {
    /// 0.92 and 0.82.
    pub open spec fn v1() -> TieredThresholds {
        TieredThresholds {
            auto_supersede: F32 { bits: 0x3f6b_851f },
            judge_lower: F32 { bits: 0x3f51_eb85 },
            judge_upper: F32 { bits: 0x3f6b_851f },
        }
    }

    #[must_use]
    pub fn default_v1() -> (r: Self)
        ensures
            r == TieredThresholds::v1(),
    {
        TieredThresholds {
            auto_supersede: F32 { bits: 0x3f6b_851f },
            judge_lower: F32 { bits: 0x3f51_eb85 },
            judge_upper: F32 { bits: 0x3f6b_851f },
        }
    }

    pub open spec fn valid(self) -> bool {
        &&& self.judge_lower.in_unit_spec()
        &&& self.judge_upper.in_unit_spec()
        &&& self.auto_supersede.in_unit_spec()
        &&& self.judge_lower.rank() <= self.judge_upper.rank() <= self.auto_supersede.rank()
    }

    /// Whether the cut points lie in `[0, 1]` and are in order.
    #[must_use]
    pub fn is_valid(&self) -> (r: bool)
        ensures
            r == self.valid(),
    {
        self.judge_lower.in_unit() && self.judge_upper.in_unit() && self.auto_supersede.in_unit()
            && self.judge_upper.is_ge(self.judge_lower) && self.auto_supersede.is_ge(self.judge_upper)
    }
}

impl Default for TieredThresholds {
    fn default() -> (r: Self)
        ensures
            r == TieredThresholds::v1(),
    {
        TieredThresholds::default_v1()
    }
}

/// The cut points that are used by default are valid.
pub proof fn lemma_default_thresholds_are_valid()
    ensures
        TieredThresholds::v1().valid(),
{
}

/// A statement near the new one in embedding space.
#[derive(Clone, Debug)]
pub struct StatementSimilarityCandidate {
    pub statement_id: StatementId,
    pub statement: Statement,
    /// The cosine similarity.
    pub score: F32,
}

/// What the judge says of a new statement and a neighbour.
#[derive(Clone, Copy, Debug, PartialEq, Eq, Structural)]
pub enum JudgeVerdict {
    Supersedes,
    Contradicts,
    Coexists,
}

/// Why the judge said nothing.
#[derive(Clone, Debug)]
pub enum JudgeError {
    Transport(String),
    Parse(String),
    Budget(String),
}

/// How many neighbours of a statement are looked at.
pub const NEIGHBOUR_COUNT: usize = 10;

/// What the decision needs next.
#[derive(Clone, Copy, Debug, PartialEq, Eq)]
pub enum DecideStep {
    /// Nothing: it is made.
    Done(SupersedeDecision),
    /// That many nearest neighbours of the statement's vector, nearest first.
    NeedNeighbours(usize),
    /// The judge's verdict on the neighbour with this index.
    NeedVerdict(usize),
}

/// Decides whether a new statement supersedes, contradicts or stands beside an
/// existing one, tier by tier: a current statement of the same subject and
/// predicate; a very near neighbour; the judge's verdict on a near one; neither.
#[derive(Clone, Copy, Debug)]
pub struct TieredSupersedeDecider {
    /// Whether there is a judge to ask.
    pub has_judge: bool,
    pub thresholds: TieredThresholds,
}

/// Whether a neighbour may be superseded by the new statement: another
/// statement of the same kind, predicate and entity.
pub open spec fn is_rival(new: StatementModel, c: StatementSimilarityCandidate) -> bool {
    &&& c.statement_id.0 != new.id.0
    &&& c.statement.kind == new.kind
    &&& c.statement.predicate == new.predicate
    &&& new.subject is Entity
    &&& c.statement.subject is Entity
    &&& c.statement.subject->Entity_0.0 == new.subject->Entity_0.0
}

/// `i` is the first rival among the neighbours.
pub open spec fn is_first_rival(new: StatementModel, candidates: Seq<StatementSimilarityCandidate>, i: int) -> bool {
    &&& 0 <= i < candidates.len()
    &&& is_rival(new, candidates[i])
    &&& forall|j: int| 0 <= j < i ==> !is_rival(new, #[trigger] candidates[j])
}

impl TieredSupersedeDecider {
    /// A decider with the default cut points and no judge.
    pub fn new() -> (r: Self)
        ensures
            r.thresholds == TieredThresholds::v1(),
            !r.has_judge,
    {
        TieredSupersedeDecider { has_judge: false, thresholds: TieredThresholds::default_v1() }
    }

    /// The decider with a judge to ask.
    #[must_use]
    pub fn with_judge(self) -> (r: Self)
        ensures
            r.has_judge,
            r.thresholds == self.thresholds,
    {
        TieredSupersedeDecider { has_judge: true, thresholds: self.thresholds }
    }

    /// The decider with other cut points.
    #[must_use]
    pub fn with_thresholds(self, t: TieredThresholds) -> (r: Self)
        ensures
            r.thresholds == t,
            r.has_judge == self.has_judge,
    {
        TieredSupersedeDecider { has_judge: self.has_judge, thresholds: t }
    }

    /// The first step: a current statement of the same subject and predicate
    /// settles the matter. Without a vector nothing else does.
    pub open spec fn first_step(
        db: Db,
        scope: RowScope,
        new: StatementModel,
        has_vector: bool,
    ) -> Result<DecideStep, StatementOpError> {
        let current = match new.subject {
            SubjectRef::Entity(e) => current_statement(db, scope, e, new.predicate, new.kind),
            _ => Ok(None),
        };
        match current {
            Err(e) => Err(e),
            Ok(Some(id)) => Ok(
                DecideStep::Done(
                    if new.is_stateful {
                        SupersedeDecision::Supersede(id)
                    } else {
                        SupersedeDecision::Contradicts(id)
                    },
                ),
            ),
            Ok(None) => if has_vector {
                Ok(DecideStep::NeedNeighbours(NEIGHBOUR_COUNT))
            } else {
                Ok(DecideStep::Done(SupersedeDecision::Coexist))
            },
        }
    }

    /// Starts the decision on a new statement.
    pub fn start(
        &self,
        rtxn: &ReadTransaction,
        scope: RowScope,
        new_stmt: &Statement,
        has_vector: bool,
    ) -> (r: Result<DecideStep, StatementOpError>)
        ensures
            r is Ok && new_stmt.subject is Entity ==> opened(*rtxn, Table::StatementsBySubject),
            r is Ok ==> (new_stmt.subject matches SubjectRef::Entity(e) ==> scanned(
                rdb(*rtxn),
                Table::StatementsBySubject,
                by_subject_prefix(scope, e.0, new_stmt.kind.byte(), new_stmt.predicate.0, 1),
            )),
            new_stmt.subject !is Entity ==> r is Ok,
            r matches Ok(step) ==> Self::first_step(rdb(*rtxn), scope, new_stmt.model(), has_vector) == Ok::<
                _,
                StatementOpError,
            >(step),
            r matches Err(e) ==> e is Storage || Self::first_step(rdb(*rtxn), scope, new_stmt.model(), has_vector)
                == Err::<DecideStep, _>(e),
    {
        if let SubjectRef::Entity(subject) = new_stmt.subject {
            if let Some(id) = lookup_current_statement(
                rtxn,
                scope,
                subject,
                new_stmt.predicate,
                new_stmt.kind,
            )? {
                return Ok(
                    DecideStep::Done(
                        if new_stmt.is_stateful {
                            SupersedeDecision::Supersede(id)
                        } else {
                            SupersedeDecision::Contradicts(id)
                        },
                    ),
                );
            }
        }
        if has_vector {
            Ok(DecideStep::NeedNeighbours(NEIGHBOUR_COUNT))
        } else {
            Ok(DecideStep::Done(SupersedeDecision::Coexist))
        }
    }

    /// The second step: what the first rival among the neighbours comes to.
    pub open spec fn second_step(self, new: StatementModel, candidates: Seq<StatementSimilarityCandidate>) -> DecideStep {
        if exists|i: int| #[trigger] is_first_rival(new, candidates, i) {
            let i = choose|i: int| #[trigger] is_first_rival(new, candidates, i);
            if candidates[i].score.ge_spec(self.thresholds.auto_supersede) {
                DecideStep::Done(SupersedeDecision::Supersede(candidates[i].statement_id))
            } else if candidates[i].score.ge_spec(self.thresholds.judge_lower) && self.has_judge {
                DecideStep::NeedVerdict(i as usize)
            } else {
                DecideStep::Done(SupersedeDecision::Coexist)
            }
        } else {
            DecideStep::Done(SupersedeDecision::Coexist)
        }
    }

    /// The second step, on the neighbours: the first rival alone counts.
    pub fn with_neighbours(&self, new_stmt: &Statement, candidates: &Vec<StatementSimilarityCandidate>) -> (r: DecideStep)
        ensures
            (forall|i: int| 0 <= i < candidates@.len() ==> !is_rival(new_stmt.model(), #[trigger] candidates@[i]))
                ==> r == DecideStep::Done(SupersedeDecision::Coexist),
            forall|i: int| #[trigger]
                is_first_rival(new_stmt.model(), candidates@, i) ==> r == (if candidates@[i].score.ge_spec(
                    self.thresholds.auto_supersede,
                ) {
                    DecideStep::Done(SupersedeDecision::Supersede(candidates@[i].statement_id))
                } else if candidates@[i].score.ge_spec(self.thresholds.judge_lower) && self.has_judge {
                    DecideStep::NeedVerdict(i as usize)
                } else {
                    DecideStep::Done(SupersedeDecision::Coexist)
                }),
            r == self.second_step(new_stmt.model(), candidates@),
    {
        let mut i: usize = 0;
        while i < candidates.len()
            invariant
                i <= candidates.len(),
                forall|j: int| 0 <= j < i ==> !is_rival(new_stmt.model(), #[trigger] candidates@[j]),
            decreases candidates.len() - i,
        {
            let c = &candidates[i];
            let same_subject: bool = match (new_stmt.subject, c.statement.subject) {
                (SubjectRef::Entity(a), SubjectRef::Entity(b)) => id_eq(&a.0, &b.0),
                _ => false,
            };
            if !id_eq(&c.statement_id.0, &new_stmt.id.0) && c.statement.kind == new_stmt.kind && c.statement.predicate
                == new_stmt.predicate && same_subject {
                proof {
                    assert(is_rival(new_stmt.model(), candidates@[i as int]));
                    assert(is_first_rival(new_stmt.model(), candidates@, i as int));
                    assert forall|k: int| #[trigger] is_first_rival(new_stmt.model(), candidates@, k) implies k == i by {}
                }
                if c.score.is_ge(self.thresholds.auto_supersede) {
                    return DecideStep::Done(SupersedeDecision::Supersede(c.statement_id));
                }
                if c.score.is_ge(self.thresholds.judge_lower) && self.has_judge {
                    return DecideStep::NeedVerdict(i);
                }
                return DecideStep::Done(SupersedeDecision::Coexist);
            }
            i = i + 1;
        }
        DecideStep::Done(SupersedeDecision::Coexist)
    }

    /// What the judge's verdict on a statement comes to.
    pub open spec fn last_step(id: StatementId, verdict: Result<JudgeVerdict, JudgeError>) -> SupersedeDecision {
        match verdict {
            Ok(JudgeVerdict::Supersedes) => SupersedeDecision::Supersede(id),
            Ok(JudgeVerdict::Contradicts) => SupersedeDecision::Contradicts(id),
            _ => SupersedeDecision::Coexist,
        }
    }

    /// The last step: what the judge said of a neighbour. A judge that failed
    /// never costs a write.
    pub fn with_verdict(&self, candidate: &StatementSimilarityCandidate, verdict: &Result<JudgeVerdict, JudgeError>) -> (r:
        SupersedeDecision)
        ensures
            r == match *verdict {
                Ok(JudgeVerdict::Supersedes) => SupersedeDecision::Supersede(candidate.statement_id),
                Ok(JudgeVerdict::Contradicts) => SupersedeDecision::Contradicts(candidate.statement_id),
                Ok(JudgeVerdict::Coexists) => SupersedeDecision::Coexist,
                Err(_) => SupersedeDecision::Coexist,
            },
            r == Self::last_step(candidate.statement_id, *verdict),
    {
        match verdict {
            Ok(JudgeVerdict::Supersedes) => SupersedeDecision::Supersede(candidate.statement_id),
            Ok(JudgeVerdict::Contradicts) => SupersedeDecision::Contradicts(candidate.statement_id),
            Ok(JudgeVerdict::Coexists) => SupersedeDecision::Coexist,
            Err(_) => SupersedeDecision::Coexist,
        }
    }
}

/// What carrying out a decision does.
pub open spec fn decided(
    db: Db,
    scope: RowScope,
    s: StatementModel,
    decision: SupersedeDecision,
    ctx: WriteContext,
) -> Result<(Db, StatementId), StatementOpError> {
    match decision {
        SupersedeDecision::Supersede(prior) => superseded(db, scope, prior, s, ctx),
        SupersedeDecision::Contradicts(_) => created(db, scope, s, ctx),
        SupersedeDecision::Coexist => created(db, scope, s, ctx),
    }
}

/// Carries out a decision.
pub fn statement_create_with_decision(
    wtxn: &mut WriteTransaction,
    scope: RowScope,
    new_statement: &Statement,
    decision: SupersedeDecision,
    ctx: &WriteContext,
) -> (r: Result<StatementId, StatementOpError>)
    ensures
        r is Ok && decision !is Supersede && new_statement.subject is Entity && new_statement.kind
            != StatementKind::Event ==> create_scanned(wdb(*old(wtxn)), scope, new_statement.model()),
        r matches Ok(id) ==> decided(wdb(*old(wtxn)), scope, new_statement.model(), decision, *ctx) == Ok::<
            _,
            StatementOpError,
        >((wdb(*final(wtxn)), id)),
        r matches Err(e) ==> e is Storage || decided(wdb(*old(wtxn)), scope, new_statement.model(), decision, *ctx)
            == Err::<(Db, StatementId), _>(e),
        shape_checked(new_statement.model()) matches Err(e) ==> r == Err::<StatementId, _>(e),
        decision !is Supersede ==> (checked_unread(new_statement.model()) matches Err(e) ==> r == Err::<
            StatementId,
            _,
        >(e)),
{
    match decision {
        SupersedeDecision::Supersede(prior) => statement_supersede(wtxn, scope, prior, new_statement, ctx),
        SupersedeDecision::Contradicts(_) => statement_create(wtxn, scope, new_statement, ctx),
        SupersedeDecision::Coexist => statement_create(wtxn, scope, new_statement, ctx),
    }
}

} // verus!
