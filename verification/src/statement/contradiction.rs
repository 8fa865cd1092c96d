//! The audit of facts that disagree.
//!
//! A fact that disagrees with a current one is stored all the same; the
//! disagreement is recorded here. Whether it still stands is checked against
//! the statements themselves whenever the open rows are listed.

use redb::WriteTransaction;
use vstd::prelude::*;

use crate::bytes::get_bytes;
use crate::catalog::Table;
use crate::collect::{collect, lemma_collect_fails, lemma_collect_step};
use crate::row::{from_bytes, image, load, parsed, save, slot, Row, Slot};
use crate::statement::crud::load_statement;
use crate::statement::{load_failed, StatementOpError};
use crate::store::{entry_models, scan, scan_prefix, scanned, wdb, Db};
use crate::tables::contradiction::{
    contradiction_key, contradiction_outcome, make_contradiction_key, ContradictionAudit, ContradictionModel,
};
use crate::tables::statement::{statement_from_metadata, statement_of, StatementMetadata, StatementObject};
use crate::types::{id_eq, AuditId, EntityId, PredicateId, StatementId};

verus! {

/// `ids`, and after them those of `more` that are not among them yet.
pub open spec fn union_ids(ids: Seq<[u8; 16]>, more: Seq<[u8; 16]>) -> Seq<[u8; 16]>
    decreases more.len(),
{
    if more.len() == 0 {
        ids
    } else {
        let before = union_ids(ids, more.drop_last());
        if before.contains(more.last()) {
            before
        } else {
            before.push(more.last())
        }
    }
}

/// The union holds exactly the identifiers of both lists.
pub proof fn lemma_union_ids(ids: Seq<[u8; 16]>, more: Seq<[u8; 16]>, id: [u8; 16])
    ensures
        union_ids(ids, more).contains(id) <==> ids.contains(id) || more.contains(id),
    decreases more.len(),
{
    if more.len() > 0 {
        let before = union_ids(ids, more.drop_last());
        lemma_union_ids(ids, more.drop_last(), id);
        assert(more =~= more.drop_last().push(more.last()));
        assert(before.push(more.last()).contains(id) <==> before.contains(id) || id == more.last()) by {
            let p = before.push(more.last());
            if before.contains(id) {
                let i = choose|i: int| 0 <= i < before.len() && before[i] == id;
                assert(p[i] == id);
            }
            if id == more.last() {
                assert(p[before.len() as int] == id);
            }
        }
        assert(more.contains(id) <==> more.drop_last().contains(id) || id == more.last()) by {
            if more.drop_last().contains(id) {
                let i = choose|i: int| 0 <= i < more.drop_last().len() && more.drop_last()[i] == id;
                assert(more[i] == id);
            }
            if id == more.last() {
                assert(more[more.len() - 1] == id);
            }
            if more.contains(id) && id != more.last() {
                let i = choose|i: int| 0 <= i < more.len() && more[i] == id;
                assert(more.drop_last()[i] == id);
            }
        }
    }
}

fn contains_id(ids: &Vec<[u8; 16]>, id: &[u8; 16]) -> (r: bool)
    ensures
        r == ids@.contains(*id),
{
    let mut i: usize = 0;
    while i < ids.len()
        invariant
            i <= ids.len(),
            forall|j: int| 0 <= j < i ==> ids@[j] != *id,
        decreases ids.len() - i,
    {
        if id_eq(&ids[i], id) {
            return true;
        }
        i = i + 1;
    }
    false
}

/// The bytes of statement identifiers.
pub open spec fn id_bytes(ids: Seq<StatementId>) -> Seq<[u8; 16]> {
    ids.map_values(|s: StatementId| s.0)
}

/// What recording a contradiction does. An open row keeps its audit identifier
/// and gains the new statements; without one, a row begins under the fresh
/// identifier.
pub open spec fn recorded(
    db: Db,
    subject: EntityId,
    predicate: PredicateId,
    more: Seq<[u8; 16]>,
    fresh: AuditId,
    now_unix_nanos: u64,
) -> Result<Db, StatementOpError> {
    let key = contradiction_key(subject.0, predicate.0);
    let kept = match slot::<ContradictionAudit>(db, Table::StatementContradictionAudit, key) {
        Slot::Corrupt => Err(StatementOpError::DecodeFailed),
        Slot::Row(m) => if m.outcome == contradiction_outcome::PENDING {
            Ok((m.audit_id_bytes, m.contradicting_statement_ids))
        } else {
            Ok((fresh.0, Seq::empty()))
        },
        Slot::Absent => Ok((fresh.0, Seq::empty())),
    };
    match kept {
        Err(e) => Err(e),
        Ok((audit_id_bytes, ids)) => Ok(
            db.insert(
                (Table::StatementContradictionAudit, key),
                image::<ContradictionAudit>(
                    ContradictionAudit {
                        audit_id_bytes,
                        subject_bytes: subject.0,
                        predicate_id: predicate.0,
                        contradicting_statement_ids: union_ids(ids, more),
                        detected_at_unix_nanos: now_unix_nanos,
                        resolved_at_unix_nanos: None,
                        outcome: contradiction_outcome::PENDING,
                    },
                ),
            ),
        ),
    }
}

/// Records that statements about a subject and predicate disagree.
pub fn contradiction_audit_record(
    wtxn: &mut WriteTransaction,
    subject: EntityId,
    predicate: PredicateId,
    contradicting: &Vec<StatementId>,
    fresh_audit_id: AuditId,
    now_unix_nanos: u64,
) -> (r: Result<(), StatementOpError>)
    ensures
        r is Ok ==> recorded(
            wdb(*old(wtxn)),
            subject,
            predicate,
            id_bytes(contradicting@),
            fresh_audit_id,
            now_unix_nanos,
        ) == Ok::<_, StatementOpError>(wdb(*final(wtxn))),
        r matches Err(e) ==> e is Storage || recorded(
            wdb(*old(wtxn)),
            subject,
            predicate,
            id_bytes(contradicting@),
            fresh_audit_id,
            now_unix_nanos,
        ) == Err::<Db, _>(e),
{
    let key = make_contradiction_key(&subject.0, predicate.0);
    let existing = match load::<ContradictionAudit>(wtxn, Table::StatementContradictionAudit, key.as_slice()) {
        Ok(x) => x,
        Err(e) => return Err(load_failed(e)),
    };
    let (audit_id_bytes, mut ids): ([u8; 16], Vec<[u8; 16]>) = match existing {
        Some(row) => if row.outcome == contradiction_outcome::PENDING {
            (row.audit_id_bytes, row.contradicting_statement_ids)
        } else {
            (fresh_audit_id.0, Vec::new())
        },
        None => (fresh_audit_id.0, Vec::new()),
    };
    let ghost start = ids@;
    let ghost more = id_bytes(contradicting@);
    let mut i: usize = 0;
    while i < contradicting.len()
        invariant
            i <= contradicting.len(),
            more == id_bytes(contradicting@),
            ids@ == union_ids(start, more.take(i as int)),
        decreases contradicting.len() - i,
    {
        let b: [u8; 16] = contradicting[i].0;
        proof {
            assert(more.take(i + 1).drop_last() =~= more.take(i as int));
        }
        if !contains_id(&ids, &b) {
            ids.push(b);
        }
        i = i + 1;
    }
    proof {
        assert(more.take(i as int) =~= more);
    }
    let row = ContradictionAudit {
        audit_id_bytes,
        subject_bytes: subject.0,
        predicate_id: predicate.0,
        contradicting_statement_ids: ids,
        detected_at_unix_nanos: now_unix_nanos,
        resolved_at_unix_nanos: None,
        outcome: contradiction_outcome::PENDING,
    };
    match save(wtxn, Table::StatementContradictionAudit, key.as_slice(), &row) {
        Ok(()) => Ok(()),
        Err(e) => Err(StatementOpError::Storage(e)),
    }
}

/// A statement that is still current, with its object. Any other counts for
/// nothing.
pub open spec fn live_object(db: Db, id: [u8; 16]) -> Result<
    Option<([u8; 16], StatementObject<Seq<char>>)>,
    StatementOpError,
> {
    match slot::<StatementMetadata>(db, Table::Statements, id@) {
        Slot::Absent => Ok(None),
        Slot::Corrupt => Err(StatementOpError::DecodeFailed),
        Slot::Row(m) => if m.tombstoned != 0 || m.is_current == 0 {
            Ok(None)
        } else {
            match statement_of(m) {
                Some(s) => Ok(Some((id, s.object))),
                None => Ok(None),
            }
        },
    }
}

/// Those of the statements that are still current, with their objects.
pub open spec fn live_objects(db: Db, ids: Seq<[u8; 16]>) -> Result<
    Seq<([u8; 16], StatementObject<Seq<char>>)>,
    StatementOpError,
> {
    collect(ids, |id: [u8; 16]| live_object(db, id))
}

/// Whether two of the statements have different objects.
pub open spec fn disagree(live: Seq<([u8; 16], StatementObject<Seq<char>>)>) -> bool {
    exists|i: int, j: int| 0 <= i < live.len() && 0 <= j < live.len() && (#[trigger] live[i]).1 != (#[trigger] live[j]).1
}

/// The identifiers alone.
pub open spec fn live_ids(live: Seq<([u8; 16], StatementObject<Seq<char>>)>) -> Seq<[u8; 16]> {
    live.map_values(|x: ([u8; 16], StatementObject<Seq<char>>)| x.0)
}

/// An audit row checked again: what it becomes, and whether it is still open.
/// `None` if it was closed before.
pub open spec fn rechecked(db: Db, value: Seq<u8>, now_unix_nanos: u64) -> Result<
    Option<(ContradictionModel, bool)>,
    StatementOpError,
> {
    match parsed::<ContradictionAudit>(value) {
        Slot::Row(m) => if m.outcome != contradiction_outcome::PENDING {
            Ok(None)
        } else {
            match live_objects(db, m.contradicting_statement_ids) {
                Err(e) => Err(e),
                Ok(live) => if disagree(live) {
                    Ok(Some((ContradictionAudit { contradicting_statement_ids: live_ids(live), ..m }, true)))
                } else {
                    Ok(
                        Some(
                            (
                                ContradictionAudit {
                                    contradicting_statement_ids: live_ids(live),
                                    outcome: contradiction_outcome::RESOLVED,
                                    resolved_at_unix_nanos: Some(now_unix_nanos),
                                    ..m
                                },
                                false,
                            ),
                        ),
                    )
                },
            }
        },
        _ => Err(StatementOpError::DecodeFailed),
    }
}

/// The rows that are still open, and the rows to write back, of a pass over
/// audit entries that ends when `limit` open rows are found.
pub open spec fn pending_pass(
    db: Db,
    entries: Seq<(Seq<u8>, Seq<u8>)>,
    limit: nat,
    now_unix_nanos: u64,
) -> Result<(Seq<ContradictionModel>, Seq<(Seq<u8>, ContradictionModel)>), StatementOpError>
    decreases entries.len(),
{
    if entries.len() == 0 {
        Ok((Seq::empty(), Seq::empty()))
    } else {
        match pending_pass(db, entries.drop_last(), limit, now_unix_nanos) {
            Err(e) => Err(e),
            Ok((live, rewrites)) => if live.len() >= limit {
                Ok((live, rewrites))
            } else {
                match rechecked(db, entries.last().1, now_unix_nanos) {
                    Err(e) => Err(e),
                    Ok(None) => Ok((live, rewrites)),
                    Ok(Some((row, open))) => Ok(
                        (
                            if open {
                                live.push(row)
                            } else {
                                live
                            },
                            rewrites.push((entries.last().0, row)),
                        ),
                    ),
                }
            },
        }
    }
}

/// The rows with audit rows written back.
pub open spec fn rewritten(db: Db, rewrites: Seq<(Seq<u8>, ContradictionModel)>) -> Db
    decreases rewrites.len(),
{
    if rewrites.len() == 0 {
        db
    } else {
        rewritten(db, rewrites.drop_last()).insert(
            (Table::StatementContradictionAudit, rewrites.last().0),
            image::<ContradictionAudit>(rewrites.last().1),
        )
    }
}

/// What listing the open contradictions finds and does.
pub open spec fn pending_listed(db: Db, limit: nat, now_unix_nanos: u64) -> Result<
    (Seq<ContradictionModel>, Db),
    StatementOpError,
> {
    match pending_pass(db, scan(db, Table::StatementContradictionAudit, Seq::empty()), limit, now_unix_nanos) {
        Err(e) => Err(e),
        Ok((live, rewrites)) => Ok((live, rewritten(db, rewrites))),
    }
}

proof fn lemma_pass_ends(db: Db, entries: Seq<(Seq<u8>, Seq<u8>)>, limit: nat, now_unix_nanos: u64, n: int)
    requires
        0 <= n <= entries.len(),
        match pending_pass(db, entries.take(n), limit, now_unix_nanos) {
            Err(_) => true,
            Ok((live, _)) => live.len() >= limit,
        },
    ensures
        pending_pass(db, entries, limit, now_unix_nanos) == pending_pass(db, entries.take(n), limit, now_unix_nanos),
    decreases entries.len() - n,
{
    if n == entries.len() {
        assert(entries.take(n) =~= entries);
    } else {
        assert(entries.take(n + 1).drop_last() =~= entries.take(n));
        lemma_pass_ends(db, entries, limit, now_unix_nanos, n + 1);
    }
}

/// Checks the statements of an audit row: those that are still current, and
/// whether two of them disagree.
fn check_live(txn: &mut WriteTransaction, ids: &Vec<[u8; 16]>) -> (r: Result<(Vec<[u8; 16]>, bool), StatementOpError>)
    ensures
        wdb(*final(txn)) == wdb(*old(txn)),
        ids@.len() == 0 ==> r is Ok,
        r matches Ok(x) ==> live_objects(wdb(*old(txn)), ids@) is Ok && x.0@ == live_ids(
            live_objects(wdb(*old(txn)), ids@)->Ok_0,
        ) && x.1 == disagree(live_objects(wdb(*old(txn)), ids@)->Ok_0),
        r matches Err(e) ==> e is Storage || live_objects(wdb(*old(txn)), ids@) == Err::<
            Seq<([u8; 16], StatementObject<Seq<char>>)>,
            _,
        >(e),
{
    let ghost db = wdb(*old(txn));
    let ghost f = |id: [u8; 16]| live_object(db, id);
    let ghost mut live: Seq<([u8; 16], StatementObject<Seq<char>>)> = Seq::empty();
    let mut out: Vec<[u8; 16]> = Vec::new();
    let mut first: Option<StatementObject> = None;
    let mut differ: bool = false;
    let mut i: usize = 0;
    proof {
        assert(ids@.take(0) =~= Seq::<[u8; 16]>::empty());
        assert(live_ids(live) =~= out@);
    }
    while i < ids.len()
        invariant
            i <= ids.len(),
            db == wdb(*old(txn)),
            wdb(*txn) == db,
            f == (|id: [u8; 16]| live_object(db, id)),
            collect(ids@.take(i as int), f) == Ok::<_, StatementOpError>(live),
            live_objects(db, ids@) == collect(ids@, f),
            out@ == live_ids(live),
            first is None <==> live.len() == 0,
            first matches Some(o) ==> o.model() == live[0].1,
            differ == disagree(live),
            !differ ==> forall|j: int| 0 <= j < live.len() ==> (#[trigger] live[j]).1 == live[0].1,
        decreases ids.len() - i,
    {
        proof {
            lemma_collect_step(ids@, f, i as int);
            if collect(ids@.take(i + 1), f) is Err {
                lemma_collect_fails(ids@, f, i + 1);
            }
        }
        let id: [u8; 16] = ids[i];
        if let Some(m) = load_statement(txn, &id)? {
            if !m.is_tombstoned() && m.is_current != 0 {
                if let Some(s) = statement_from_metadata(&m) {
                    let ghost before = live;
                    let ghost om = s.object.model();
                    proof {
                        live = before.push((id, om));
                    }
                    out.push(id);
                    match &first {
                        Some(o) => {
                            let same: bool = o.same(&s.object);
                            proof {
                                assert(forall|j: int| 0 <= j < before.len() ==> live[j] == before[j]);
                                assert(live[before.len() as int].1 == om);
                                if disagree(before) {
                                    let (a, b) = choose|a: int, b: int|
                                        0 <= a < before.len() && 0 <= b < before.len() && (#[trigger] before[a]).1 != (
                                        #[trigger] before[b]).1;
                                    assert(live[a].1 != live[b].1);
                                }
                                if !same {
                                    assert(live[0].1 != live[before.len() as int].1);
                                }
                            }
                            if !same {
                                differ = true;
                            }
                        },
                        None => {
                            first = Some(s.object);
                        },
                    }
                    proof {
                        assert(live_ids(live) =~= out@);
                    }
                }
            }
        }
        i = i + 1;
    }
    proof {
        assert(ids@.take(i as int) =~= ids@);
    }
    Ok((out, differ))
}

/// Audit rows as they are spoken of.
pub open spec fn audit_models(v: Seq<ContradictionAudit>) -> Seq<ContradictionModel> {
    v.map_values(|a: ContradictionAudit| a.model())
}

spec fn rewrite_models(v: Seq<(Vec<u8>, ContradictionAudit)>) -> Seq<(Seq<u8>, ContradictionModel)> {
    v.map_values(|x: (Vec<u8>, ContradictionAudit)| (x.0@, x.1.model()))
}

fn copy_ids(v: &Vec<[u8; 16]>) -> (r: Vec<[u8; 16]>)
    ensures
        r@ == v@,
{
    let mut r: Vec<[u8; 16]> = Vec::new();
    let mut i: usize = 0;
    while i < v.len()
        invariant
            i <= v.len(),
            r@ == v@.take(i as int),
        decreases v.len() - i,
    {
        r.push(v[i]);
        i = i + 1;
        proof {
            assert(v@.take(i as int) =~= v@.take(i as int - 1).push(v@[i as int - 1]));
        }
    }
    proof {
        assert(v@.take(i as int) =~= v@);
    }
    r
}

impl ContradictionAudit {
    /// A copy of the row.
    pub fn copy(&self) -> (r: ContradictionAudit)
        ensures
            r.model() == self.model(),
    {
        ContradictionAudit {
            audit_id_bytes: self.audit_id_bytes,
            subject_bytes: self.subject_bytes,
            predicate_id: self.predicate_id,
            contradicting_statement_ids: copy_ids(&self.contradicting_statement_ids),
            detected_at_unix_nanos: self.detected_at_unix_nanos,
            resolved_at_unix_nanos: self.resolved_at_unix_nanos,
            outcome: self.outcome,
        }
    }
}

fn write_back(txn: &mut WriteTransaction, rewrites: &Vec<(Vec<u8>, ContradictionAudit)>) -> (r: Result<
    (),
    StatementOpError,
>)
    ensures
        rewrites@.len() == 0 ==> r is Ok,
        r is Ok ==> wdb(*final(txn)) == rewritten(wdb(*old(txn)), rewrite_models(rewrites@)),
        r matches Err(e) ==> e is Storage,
{
    let ghost db = wdb(*txn);
    let ghost models = rewrite_models(rewrites@);
    let mut i: usize = 0;
    while i < rewrites.len()
        invariant
            i <= rewrites.len(),
            models == rewrite_models(rewrites@),
            wdb(*txn) == rewritten(db, models.take(i as int)),
        decreases rewrites.len() - i,
    {
        match save(txn, Table::StatementContradictionAudit, rewrites[i].0.as_slice(), &rewrites[i].1) {
            Ok(()) => {},
            Err(e) => return Err(StatementOpError::Storage(e)),
        }
        i = i + 1;
        proof {
            assert(models.take(i as int).drop_last() =~= models.take(i as int - 1));
        }
    }
    proof {
        assert(models.take(i as int) =~= models);
    }
    Ok(())
}

/// Lists open contradictions, at most `limit` of them. Rows that are looked at
/// are brought up to date: statements that are no longer current are dropped
/// from them, and a row whose statements no longer disagree is closed.
pub fn contradiction_audit_list_pending(wtxn: &mut WriteTransaction, limit: usize, now_unix_nanos: u64) -> (r: Result<
    Vec<ContradictionAudit>,
    StatementOpError,
>)
    ensures
        r is Ok ==> scanned(wdb(*old(wtxn)), Table::StatementContradictionAudit, Seq::empty()),
        r matches Ok(v) ==> pending_listed(wdb(*old(wtxn)), limit as nat, now_unix_nanos) == Ok::<
            _,
            StatementOpError,
        >((audit_models(v@), wdb(*final(wtxn)))),
        r matches Ok(v) ==> v@.len() <= limit,
        r matches Err(e) ==> e is Storage || pending_listed(wdb(*old(wtxn)), limit as nat, now_unix_nanos) == Err::<
            (Seq<ContradictionModel>, Db),
            _,
        >(e),
{
    let ghost db = wdb(*old(wtxn));
    let prefix: Vec<u8> = Vec::new();
    let found = match scan_prefix(wtxn, Table::StatementContradictionAudit, prefix.as_slice()) {
        Ok(v) => v,
        Err(e) => return Err(StatementOpError::Storage(e)),
    };
    let ghost entries = entry_models(found@);
    let mut live: Vec<ContradictionAudit> = Vec::new();
    let mut rewrites: Vec<(Vec<u8>, ContradictionAudit)> = Vec::new();
    let mut i: usize = 0;
    proof {
        assert(prefix@ =~= Seq::<u8>::empty());
        assert(entries.take(0) =~= Seq::<(Seq<u8>, Seq<u8>)>::empty());
        assert(audit_models(live@) =~= Seq::<ContradictionModel>::empty());
        assert(rewrite_models(rewrites@) =~= Seq::<(Seq<u8>, ContradictionModel)>::empty());
    }
    while i < found.len() && live.len() < limit
        invariant
            i <= found.len(),
            live.len() <= limit,
            db == wdb(*old(wtxn)),
            wdb(*wtxn) == db,
            entries == entry_models(found@),
            entries == scan(db, Table::StatementContradictionAudit, Seq::empty()),
            pending_pass(db, entries.take(i as int), limit as nat, now_unix_nanos) == Ok::<_, StatementOpError>(
                (audit_models(live@), rewrite_models(rewrites@)),
            ),
        decreases found.len() - i,
    {
        proof {
            assert(entries.take(i + 1).drop_last() =~= entries.take(i as int));
            if pending_pass(db, entries.take(i + 1), limit as nat, now_unix_nanos) is Err {
                lemma_pass_ends(db, entries, limit as nat, now_unix_nanos, i + 1);
            }
        }
        let mut row: ContradictionAudit = match from_bytes(found[i].1.as_slice()) {
            Some(x) => x,
            None => return Err(StatementOpError::DecodeFailed),
        };
        if row.outcome == contradiction_outcome::PENDING {
            let (ids, open) = check_live(wtxn, &row.contradicting_statement_ids)?;
            row.contradicting_statement_ids = ids;
            if !open {
                row.outcome = contradiction_outcome::RESOLVED;
                row.resolved_at_unix_nanos = Some(now_unix_nanos);
            }
            let ghost rm = row.model();
            let ghost live_before = audit_models(live@);
            let ghost rewrites_before = rewrite_models(rewrites@);
            if open {
                let shown = row.copy();
                live.push(shown);
                proof {
                    assert(audit_models(live@) =~= live_before.push(rm));
                }
            }
            let key = get_bytes(found[i].0.as_slice(), 0, found[i].0.len());
            proof {
                assert(key@ =~= found@[i as int].0@);
            }
            rewrites.push((key, row));
            proof {
                assert(rewrite_models(rewrites@) =~= rewrites_before.push((entries[i as int].0, rm)));
            }
        }
        i = i + 1;
    }
    proof {
        if i < found.len() {
            lemma_pass_ends(db, entries, limit as nat, now_unix_nanos, i as int);
        } else {
            assert(entries.take(i as int) =~= entries);
        }
    }
    write_back(wtxn, &rewrites)?;
    Ok(live)
}

} // verus!
