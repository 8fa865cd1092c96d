//! Listing statements, their histories and their contradictions.

use redb::ReadTransaction;
use vstd::prelude::*;

use crate::bytes::{be, be_value, get_be, lemma_be_len, lemma_be_value_of_be, lemma_pow256_values, put_be, put_bytes};
use crate::catalog::Table;
use crate::collect::{collect, collect_upto, lemma_collect_fails, lemma_collect_step, lemma_upto_ends, lemma_upto_len};
use crate::row::{from_bytes, load_at, parsed, slot, Row, Slot};
use crate::statement::crud::{
    active_facts, current_statement, id_in, read_id, statement_behind, statement_models, statements_behind,
};
use crate::statement::{load_failed, StatementOpError};
use crate::store::{entry_models, lookup, opened, rdb, read, read_prefix, require_table, scan, scanned, Db, Entry};
use crate::tables::statement::{
    by_predicate_key, by_subject_key, by_subject_prefix, chain_key, make_by_subject_prefix, make_chain_key, put_scope,
    scope_of, statement_from_metadata, statement_of, EvidenceEntry, Statement, StatementMetadata, StatementModel,
};
use crate::types::{id_eq, scope_key, EntityId, MemoryId, PredicateId, RowScope, StatementId, StatementKind, F32};

verus! {

/// Which statements to list. A field that is not set asks for nothing.
#[derive(Clone, Copy, Debug)]
pub struct StatementListFilter {
    pub subject: Option<EntityId>,
    pub predicate: Option<PredicateId>,
    pub kind: Option<StatementKind>,
    pub current_only: bool,
    pub min_confidence: Option<F32>,
    /// The most rows to look at. Zero stands for [`DEFAULT_LIST_LIMIT`], and no
    /// more than that are looked at.
    pub limit: usize,
}

impl Default for StatementListFilter {
    fn default() -> (r: Self)
        ensures
            r.subject is None,
            r.predicate is None,
            r.kind is None,
            !r.current_only,
            r.min_confidence is None,
            r.limit == 0,
    {
        StatementListFilter {
            subject: None,
            predicate: None,
            kind: None,
            current_only: false,
            min_confidence: None,
            limit: 0,
        }
    }
}

/// The most rows that a list looks at.
pub const DEFAULT_LIST_LIMIT: usize = 1_000;

// What an index key tells.

/// The kind, predicate and current flag in a key of the index by subject.
pub open spec fn subject_entry(key: Seq<u8>) -> Result<(u8, u32, u8), StatementOpError> {
    if key.len() == 58 {
        Ok((key[36], be_value(key.subrange(37, 41)) as u32, key[41]))
    } else {
        Err(StatementOpError::DecodeFailed)
    }
}

/// The kind in a key of the index by predicate.
pub open spec fn predicate_entry(key: Seq<u8>) -> Result<u8, StatementOpError> {
    if key.len() == 42 {
        Ok(key[24])
    } else {
        Err(StatementOpError::DecodeFailed)
    }
}

/// A key of the index by subject tells what it was made of.
pub proof fn lemma_subject_entry(scope: RowScope, subject: [u8; 16], kind: u8, predicate: u32, current: u8, id: [u8; 16])
    ensures
        subject_entry(by_subject_key(scope, subject, kind, predicate, current, id)) == Ok::<_, StatementOpError>(
            (kind, predicate, current),
        ),
{
    lemma_pow256_values();
    lemma_be_len(scope.namespace_id as nat, 4);
    lemma_be_len(predicate as nat, 4);
    let key = by_subject_key(scope, subject, kind, predicate, current, id);
    assert(key.subrange(37, 41) =~= be(predicate as nat, 4));
    lemma_be_value_of_be(predicate as nat, 4);
}

/// A key of the index by predicate tells what kind it was made of.
pub proof fn lemma_predicate_entry(scope: RowScope, predicate: u32, kind: u8, bucket: u8, id: [u8; 16])
    ensures
        predicate_entry(by_predicate_key(scope, predicate, kind, bucket, id)) == Ok::<_, StatementOpError>(kind),
{
    lemma_be_len(scope.namespace_id as nat, 4);
    lemma_be_len(predicate as nat, 4);
}

// Listing.

/// The narrowest table that answers a filter, and the head of the keys to look
/// at.
pub open spec fn list_range(scope: RowScope, filter: StatementListFilter) -> (Table, Seq<u8>) {
    match (filter.subject, filter.predicate, filter.kind) {
        (Some(subject), Some(predicate), Some(kind)) => (
            Table::StatementsBySubject,
            scope_key(scope) + subject.0@ + seq![kind.byte()] + be(predicate.0 as nat, 4),
        ),
        (Some(subject), _, _) => (Table::StatementsBySubject, scope_key(scope) + subject.0@),
        (None, Some(predicate), _) => (
            Table::StatementsByPredicate,
            scope_key(scope) + be(predicate.0 as nat, 4),
        ),
        (None, None, _) => (Table::Statements, Seq::empty()),
    }
}

/// The statement that an entry of the range leads to, if the entry itself does
/// not rule it out.
pub open spec fn candidate(
    scope: RowScope,
    filter: StatementListFilter,
    kv: (Seq<u8>, Seq<u8>),
) -> Result<Option<[u8; 16]>, StatementOpError> {
    match (filter.subject, filter.predicate) {
        (Some(_), _) => match subject_entry(kv.0) {
            Err(e) => Err(e),
            Ok((kind, predicate, current)) => if (filter.current_only && current == 0) || (filter.kind matches Some(k)
                && kind != k.byte()) || (filter.predicate matches Some(p) && predicate != p.0) {
                Ok(None)
            } else {
                match id_in(kv.1) {
                    Ok(id) => Ok(Some(id)),
                    Err(e) => Err(e),
                }
            },
        },
        (None, Some(_)) => match predicate_entry(kv.0) {
            Err(e) => Err(e),
            Ok(kind) => if filter.kind matches Some(k) && kind != k.byte() {
                Ok(None)
            } else {
                match id_in(kv.1) {
                    Ok(id) => Ok(Some(id)),
                    Err(e) => Err(e),
                }
            },
        },
        (None, None) => match parsed::<StatementMetadata>(kv.1) {
            Slot::Row(m) => if scope_of(m) != scope {
                Ok(None)
            } else {
                match id_in(kv.0) {
                    Ok(id) => Ok(Some(id)),
                    Err(e) => Err(e),
                }
            },
            _ => Err(StatementOpError::DecodeFailed),
        },
    }
}

/// The statement under an identifier, if its row passes the filter.
pub open spec fn listed_row(db: Db, filter: StatementListFilter, id: [u8; 16]) -> Result<
    Option<StatementModel>,
    StatementOpError,
> {
    match slot::<StatementMetadata>(db, Table::Statements, id@) {
        Slot::Absent => Ok(None),
        Slot::Corrupt => Err(StatementOpError::DecodeFailed),
        Slot::Row(m) => if (filter.current_only && (m.is_current == 0 || m.tombstoned != 0)) || (
        filter.min_confidence matches Some(min) && m.confidence.lt_spec(min)) || (filter.kind matches Some(k)
            && m.kind != k.byte()) {
            Ok(None)
        } else {
            Ok(statement_of(m))
        },
    }
}

/// The most candidates that a list looks at.
pub open spec fn list_cap(filter: StatementListFilter) -> nat {
    if filter.limit == 0 || filter.limit > DEFAULT_LIST_LIMIT {
        DEFAULT_LIST_LIMIT as nat
    } else {
        filter.limit as nat
    }
}

/// The statements that a filter asks for: of the first candidates in key order,
/// those whose rows pass.
pub open spec fn listed(db: Db, scope: RowScope, filter: StatementListFilter) -> Result<
    Seq<StatementModel>,
    StatementOpError,
> {
    let (t, prefix) = list_range(scope, filter);
    match collect_upto(
        scan(db, t, prefix),
        |kv: (Seq<u8>, Seq<u8>)| candidate(scope, filter, kv),
        list_cap(filter),
    ) {
        Err(e) => Err(e),
        Ok(ids) => collect(ids, |id: [u8; 16]| listed_row(db, filter, id)),
    }
}

fn make_list_range(scope: &RowScope, filter: &StatementListFilter) -> (r: (Table, Vec<u8>))
    ensures
        (r.0, r.1@) == list_range(*scope, *filter),
{
    match (filter.subject, filter.predicate, filter.kind) {
        (Some(subject), Some(predicate), Some(kind)) => {
            let mut k = put_scope(scope);
            put_bytes(&mut k, subject.0.as_slice());
            k.push(kind.as_u8());
            put_be(&mut k, predicate.0 as u64, 4);
            proof {
                assert(k@ =~= scope_key(*scope) + subject.0@ + seq![kind.byte()] + be(predicate.0 as nat, 4));
            }
            (Table::StatementsBySubject, k)
        },
        (Some(subject), _, _) => {
            let mut k = put_scope(scope);
            put_bytes(&mut k, subject.0.as_slice());
            (Table::StatementsBySubject, k)
        },
        (None, Some(predicate), _) => {
            let mut k = put_scope(scope);
            put_be(&mut k, predicate.0 as u64, 4);
            (Table::StatementsByPredicate, k)
        },
        (None, None, _) => {
            let k: Vec<u8> = Vec::new();
            proof {
                assert(k@ =~= Seq::<u8>::empty());
            }
            (Table::Statements, k)
        },
    }
}

fn find_candidate(scope: &RowScope, filter: &StatementListFilter, kv: &Entry) -> (r: Result<
    Option<[u8; 16]>,
    StatementOpError,
>)
    ensures
        r == candidate(*scope, *filter, (kv.0@, kv.1@)),
{
    let key = &kv.0;
    if filter.subject.is_some() {
        if key.len() != 58 {
            return Err(StatementOpError::DecodeFailed);
        }
        proof {
            lemma_pow256_values();
        }
        let kind: u8 = key[36];
        let predicate: u32 = get_be(key.as_slice(), 37, 4) as u32;
        let current: u8 = key[41];
        if filter.current_only && current == 0 {
            return Ok(None);
        }
        if let Some(k) = filter.kind {
            if kind != k.as_u8() {
                return Ok(None);
            }
        }
        if let Some(p) = filter.predicate {
            if predicate != p.0 {
                return Ok(None);
            }
        }
        let id = read_id(&kv.1)?;
        Ok(Some(id))
    } else if filter.predicate.is_some() {
        if key.len() != 42 {
            return Err(StatementOpError::DecodeFailed);
        }
        if let Some(k) = filter.kind {
            if key[24] != k.as_u8() {
                return Ok(None);
            }
        }
        let id = read_id(&kv.1)?;
        Ok(Some(id))
    } else {
        match from_bytes::<StatementMetadata>(kv.1.as_slice()) {
            None => Err(StatementOpError::DecodeFailed),
            Some(m) => {
                if m.namespace_id != scope.namespace_id || !id_eq(&m.agent_id_bytes, &scope.agent_id_bytes) {
                    return Ok(None);
                }
                let id = read_id(&kv.0)?;
                Ok(Some(id))
            },
        }
    }
}

fn find_listed_row(rtxn: &ReadTransaction, filter: &StatementListFilter, id: &[u8; 16]) -> (r: Result<
    Option<Statement>,
    StatementOpError,
>)
    ensures
        r matches Ok(None) ==> listed_row(rdb(*rtxn), *filter, *id) == Ok::<_, StatementOpError>(
            None::<StatementModel>,
        ),
        r matches Ok(Some(s)) ==> listed_row(rdb(*rtxn), *filter, *id) == Ok::<_, StatementOpError>(Some(s.model())),
        r matches Err(e) ==> e is Storage || listed_row(rdb(*rtxn), *filter, *id) == Err::<
            Option<StatementModel>,
            _,
        >(e),
{
    let m = match load_at::<StatementMetadata>(rtxn, Table::Statements, id.as_slice()) {
        Ok(Some(m)) => m,
        Ok(None) => return Ok(None),
        Err(e) => return Err(load_failed(e)),
    };
    if filter.current_only && (m.is_current == 0 || m.is_tombstoned()) {
        return Ok(None);
    }
    if let Some(min) = filter.min_confidence {
        if m.confidence.is_lt(min) {
            return Ok(None);
        }
    }
    if let Some(k) = filter.kind {
        if m.kind != k.as_u8() {
            return Ok(None);
        }
    }
    Ok(statement_from_metadata(&m))
}

/// Lists the statements that pass a filter, by way of the narrowest index that
/// answers it.
pub fn statement_list(rtxn: &ReadTransaction, scope: RowScope, filter: &StatementListFilter) -> (r: Result<
    Vec<Statement>,
    StatementOpError,
>)
    ensures
        r is Ok ==> opened(*rtxn, list_range(scope, *filter).0) && opened(*rtxn, Table::Statements),
        r is Ok ==> scanned(rdb(*rtxn), list_range(scope, *filter).0, list_range(scope, *filter).1),
        r matches Ok(v) ==> listed(rdb(*rtxn), scope, *filter) == Ok::<_, StatementOpError>(statement_models(v@)),
        r matches Err(e) ==> e is Storage || listed(rdb(*rtxn), scope, *filter) == Err::<Seq<StatementModel>, _>(e),
{
    let cap: usize = if filter.limit == 0 || filter.limit > DEFAULT_LIST_LIMIT {
        DEFAULT_LIST_LIMIT
    } else {
        filter.limit
    };
    let (t, prefix) = make_list_range(&scope, filter);
    let found = match read_prefix(rtxn, t, prefix.as_slice()) {
        Ok(v) => v,
        Err(e) => return Err(StatementOpError::Storage(e)),
    };
    let ghost db = rdb(*rtxn);
    let ghost entries = entry_models(found@);
    let ghost f = |kv: (Seq<u8>, Seq<u8>)| candidate(scope, *filter, kv);
    let mut ids: Vec<[u8; 16]> = Vec::new();
    let mut i: usize = 0;
    proof {
        assert(entries.take(0) =~= Seq::<(Seq<u8>, Seq<u8>)>::empty());
    }
    while i < found.len() && ids.len() < cap
        invariant
            i <= found.len(),
            ids.len() <= cap,
            cap == list_cap(*filter),
            db == rdb(*rtxn),
            entries == entry_models(found@),
            f == (|kv: (Seq<u8>, Seq<u8>)| candidate(scope, *filter, kv)),
            collect_upto(entries.take(i as int), f, cap as nat) == Ok::<_, StatementOpError>(ids@),
            listed(db, scope, *filter) == match collect_upto(entries, f, cap as nat) {
                Err(e) => Err(e),
                Ok(x) => collect(x, |id: [u8; 16]| listed_row(db, *filter, id)),
            },
        decreases found.len() - i,
    {
        proof {
            assert(entries.take(i + 1).drop_last() =~= entries.take(i as int));
            if collect_upto(entries.take(i + 1), f, cap as nat) is Err {
                lemma_upto_ends(entries, f, cap as nat, i + 1);
            }
        }
        if let Some(id) = find_candidate(&scope, filter, &found[i])? {
            ids.push(id);
        }
        i = i + 1;
    }
    proof {
        if i < found.len() {
            lemma_upto_ends(entries, f, cap as nat, i as int);
        } else {
            assert(entries.take(i as int) =~= entries);
        }
    }
    match require_table(rtxn, Table::Statements) {
        Ok(()) => {},
        Err(e) => return Err(StatementOpError::Storage(e)),
    }
    let ghost g = |id: [u8; 16]| listed_row(db, *filter, id);
    let mut out: Vec<Statement> = Vec::new();
    let mut j: usize = 0;
    proof {
        assert(ids@.take(0) =~= Seq::<[u8; 16]>::empty());
        assert(statement_models(out@) =~= Seq::<StatementModel>::empty());
    }
    while j < ids.len()
        invariant
            j <= ids.len(),
            db == rdb(*rtxn),
            g == (|id: [u8; 16]| listed_row(db, *filter, id)),
            collect(ids@.take(j as int), g) == Ok::<_, StatementOpError>(statement_models(out@)),
            listed(db, scope, *filter) == collect(ids@, g),
        decreases ids.len() - j,
    {
        proof {
            lemma_collect_step(ids@, g, j as int);
            if collect(ids@.take(j + 1), g) is Err {
                lemma_collect_fails(ids@, g, j + 1);
            }
        }
        if let Some(s) = find_listed_row(rtxn, filter, &ids[j])? {
            let ghost before = statement_models(out@);
            let ghost sm = s.model();
            out.push(s);
            proof {
                assert(statement_models(out@) =~= before.push(sm));
            }
        }
        j = j + 1;
    }
    proof {
        assert(ids@.take(j as int) =~= ids@);
    }
    Ok(out)
}

/// A list never holds more than the cap.
pub proof fn lemma_list_is_capped(db: Db, scope: RowScope, filter: StatementListFilter)
    ensures
        listed(db, scope, filter) matches Ok(v) ==> v.len() <= list_cap(filter) <= DEFAULT_LIST_LIMIT,
{
    let (t, prefix) = list_range(scope, filter);
    let f = |kv: (Seq<u8>, Seq<u8>)| candidate(scope, filter, kv);
    lemma_upto_len(scan(db, t, prefix), f, list_cap(filter));
    if let Ok(ids) = collect_upto(scan(db, t, prefix), f, list_cap(filter)) {
        lemma_collect_len(ids, |id: [u8; 16]| listed_row(db, filter, id));
    }
}

proof fn lemma_collect_len<A, B, E>(s: Seq<A>, f: spec_fn(A) -> Result<Option<B>, E>)
    ensures
        collect(s, f) matches Ok(v) ==> v.len() <= s.len(),
    decreases s.len(),
{
    if s.len() > 0 {
        lemma_collect_len(s.drop_last(), f);
    }
}

// Statements behind index entries.

fn load_statements_behind(rtxn: &ReadTransaction, found: &Vec<Entry>) -> (r: Result<Vec<Statement>, StatementOpError>)
    ensures
        found@.len() == 0 ==> r is Ok,
        r matches Ok(v) ==> statements_behind(rdb(*rtxn), entry_models(found@)) == Ok::<_, StatementOpError>(
            statement_models(v@),
        ),
        r matches Err(e) ==> e is Storage || statements_behind(rdb(*rtxn), entry_models(found@)) == Err::<
            Seq<StatementModel>,
            _,
        >(e),
{
    let ghost db = rdb(*rtxn);
    let ghost entries = entry_models(found@);
    let ghost f = |kv: (Seq<u8>, Seq<u8>)| statement_behind(db, kv.1);
    let mut out: Vec<Statement> = Vec::new();
    let mut i: usize = 0;
    proof {
        assert(entries.take(0) =~= Seq::<(Seq<u8>, Seq<u8>)>::empty());
        assert(statement_models(out@) =~= Seq::<StatementModel>::empty());
    }
    while i < found.len()
        invariant
            i <= found.len(),
            db == rdb(*rtxn),
            entries == entry_models(found@),
            f == (|kv: (Seq<u8>, Seq<u8>)| statement_behind(db, kv.1)),
            collect(entries.take(i as int), f) == Ok::<_, StatementOpError>(statement_models(out@)),
            statements_behind(db, entries) == collect(entries, f),
        decreases found.len() - i,
    {
        proof {
            lemma_collect_step(entries, f, i as int);
            if collect(entries.take(i + 1), f) is Err {
                lemma_collect_fails(entries, f, i + 1);
            }
        }
        let id = read_id(&found[i].1)?;
        match load_at::<StatementMetadata>(rtxn, Table::Statements, id.as_slice()) {
            Err(e) => return Err(load_failed(e)),
            Ok(None) => {},
            Ok(Some(m)) => {
                if let Some(s) = statement_from_metadata(&m) {
                    let ghost before = statement_models(out@);
                    let ghost sm = s.model();
                    out.push(s);
                    proof {
                        assert(statement_models(out@) =~= before.push(sm));
                    }
                }
            },
        }
        i = i + 1;
    }
    proof {
        assert(entries.take(i as int) =~= entries);
    }
    Ok(out)
}

/// The root of the chain that a statement belongs to: the statement itself if a
/// chain begins with it, else what its row says.
pub open spec fn chain_root_at(db: Db, scope: RowScope, anchor: StatementId) -> Result<[u8; 16], StatementOpError> {
    if lookup(db, Table::StatementChain, chain_key(scope, anchor.0, 1)) is Some {
        Ok(anchor.0)
    } else {
        match slot::<StatementMetadata>(db, Table::Statements, anchor.0@) {
            Slot::Absent => Err(StatementOpError::NotFound(anchor)),
            Slot::Corrupt => Err(StatementOpError::DecodeFailed),
            Slot::Row(m) => Ok(m.chain_root_bytes),
        }
    }
}

/// The versions of a statement in order, first to last.
pub open spec fn history(db: Db, scope: RowScope, anchor: StatementId) -> Result<
    Seq<StatementModel>,
    StatementOpError,
> {
    match chain_root_at(db, scope, anchor) {
        Err(e) => Err(e),
        Ok(root) => statements_behind(db, scan(db, Table::StatementChain, scope_key(scope) + root@)),
    }
}

/// Walks a chain of versions from the first to the last. The anchor may be any
/// version.
pub fn statement_history(rtxn: &ReadTransaction, scope: RowScope, anchor: StatementId) -> (r: Result<
    Vec<Statement>,
    StatementOpError,
>)
    ensures
        r is Ok ==> opened(*rtxn, Table::StatementChain) && opened(*rtxn, Table::Statements),
        r is Ok ==> scanned(
            rdb(*rtxn),
            Table::StatementChain,
            scope_key(scope) + chain_root_at(rdb(*rtxn), scope, anchor)->Ok_0@,
        ),
        r matches Ok(v) ==> history(rdb(*rtxn), scope, anchor) == Ok::<_, StatementOpError>(statement_models(v@)),
        r matches Err(e) ==> e is Storage || history(rdb(*rtxn), scope, anchor) == Err::<Seq<StatementModel>, _>(e),
{
    let first = make_chain_key(&scope, &anchor.0, 1);
    let is_root: bool = match read(rtxn, Table::StatementChain, first.as_slice()) {
        Ok(x) => x.is_some(),
        Err(e) => return Err(StatementOpError::Storage(e)),
    };
    let root: [u8; 16] = if is_root {
        anchor.0
    } else {
        match load_at::<StatementMetadata>(rtxn, Table::Statements, anchor.0.as_slice()) {
            Ok(Some(m)) => m.chain_root_bytes,
            Ok(None) => return Err(StatementOpError::NotFound(anchor)),
            Err(e) => return Err(load_failed(e)),
        }
    };
    let mut prefix = put_scope(&scope);
    put_bytes(&mut prefix, root.as_slice());
    let found = match read_prefix(rtxn, Table::StatementChain, prefix.as_slice()) {
        Ok(v) => v,
        Err(e) => return Err(StatementOpError::Storage(e)),
    };
    match require_table(rtxn, Table::Statements) {
        Ok(()) => {},
        Err(e) => return Err(StatementOpError::Storage(e)),
    }
    load_statements_behind(rtxn, &found)
}

// Contradictions.

/// All of the facts if two of them have different objects, else none.
pub open spec fn conflicting(facts: Seq<StatementModel>) -> Seq<StatementModel> {
    if exists|i: int, j: int|
        0 <= i < facts.len() && 0 <= j < facts.len() && (#[trigger] facts[i]).object != (#[trigger] facts[j]).object {
        facts
    } else {
        Seq::empty()
    }
}

/// The current facts about a subject and predicate, if they disagree.
pub open spec fn contradictions(db: Db, scope: RowScope, subject: EntityId, predicate: PredicateId) -> Result<
    Seq<StatementModel>,
    StatementOpError,
> {
    match active_facts(db, scope, subject, predicate) {
        Err(e) => Err(e),
        Ok(facts) => Ok(conflicting(facts)),
    }
}

/// Loads the current facts about a subject and predicate.
fn load_active_facts_for_subject_predicate(
    rtxn: &ReadTransaction,
    scope: RowScope,
    subject: EntityId,
    predicate: PredicateId,
) -> (r: Result<Vec<Statement>, StatementOpError>)
    ensures
        r is Ok ==> opened(*rtxn, Table::StatementsBySubject),
        r is Ok ==> scanned(
            rdb(*rtxn),
            Table::StatementsBySubject,
            by_subject_prefix(scope, subject.0, StatementKind::Fact.byte(), predicate.0, 1),
        ),
        r matches Ok(v) ==> active_facts(rdb(*rtxn), scope, subject, predicate) == Ok::<_, StatementOpError>(
            statement_models(v@),
        ),
        r matches Err(e) ==> e is Storage || active_facts(rdb(*rtxn), scope, subject, predicate) == Err::<
            Seq<StatementModel>,
            _,
        >(e),
{
    let prefix = make_by_subject_prefix(&scope, &subject.0, StatementKind::Fact.as_u8(), predicate.0, 1);
    let found = match read_prefix(rtxn, Table::StatementsBySubject, prefix.as_slice()) {
        Ok(v) => v,
        Err(e) => return Err(StatementOpError::Storage(e)),
    };
    load_statements_behind(rtxn, &found)
}

/// The current facts about a subject and predicate, if they disagree; else an
/// empty list.
pub fn statements_contradicting(
    rtxn: &ReadTransaction,
    scope: RowScope,
    subject: EntityId,
    predicate: PredicateId,
) -> (r: Result<Vec<Statement>, StatementOpError>)
    ensures
        r is Ok ==> opened(*rtxn, Table::StatementsBySubject),
        r is Ok ==> scanned(
            rdb(*rtxn),
            Table::StatementsBySubject,
            by_subject_prefix(scope, subject.0, StatementKind::Fact.byte(), predicate.0, 1),
        ),
        r matches Ok(v) ==> contradictions(rdb(*rtxn), scope, subject, predicate) == Ok::<_, StatementOpError>(
            statement_models(v@),
        ),
        r matches Err(e) ==> e is Storage || contradictions(rdb(*rtxn), scope, subject, predicate) == Err::<
            Seq<StatementModel>,
            _,
        >(e),
{
    let facts = load_active_facts_for_subject_predicate(rtxn, scope, subject, predicate)?;
    let ghost models = statement_models(facts@);
    let mut i: usize = 1;
    while i < facts.len()
        invariant
            1 <= i,
            facts.len() > 0 ==> i <= facts.len(),
            models == statement_models(facts@),
            forall|j: int| 0 <= j < i && j < facts.len() ==> (#[trigger] models[j]).object == models[0].object,
            active_facts(rdb(*rtxn), scope, subject, predicate) == Ok::<_, StatementOpError>(models),
            opened(*rtxn, Table::StatementsBySubject),
            scanned(
                rdb(*rtxn),
                Table::StatementsBySubject,
                by_subject_prefix(scope, subject.0, StatementKind::Fact.byte(), predicate.0, 1),
            ),
        decreases facts.len() - i,
    {
        let same: bool = facts[i].object.same(&facts[0].object);
        proof {
            assert(models[i as int] == facts@[i as int].model());
            assert(models[0] == facts@[0].model());
        }
        if !same {
            proof {
                assert(models[i as int].object != models[0].object);
            }
            return Ok(facts);
        }
        i = i + 1;
    }
    let none: Vec<Statement> = Vec::new();
    proof {
        assert(statement_models(none@) =~= Seq::<StatementModel>::empty());
    }
    Ok(none)
}

// Citations.

/// Whether a list of evidence names a memory.
pub open spec fn cites(entries: Seq<EvidenceEntry>, memory: MemoryId) -> bool {
    exists|i: int| 0 <= i < entries.len() && (#[trigger] entries[i]).memory_id.0 == memory.0
}

/// The statement of a row that is not tombstoned and names the memory in the
/// evidence that it holds itself.
pub open spec fn citing(value: Seq<u8>, memory: MemoryId) -> Result<Option<StatementId>, StatementOpError> {
    match parsed::<StatementMetadata>(value) {
        Slot::Row(m) => if m.tombstoned == 0 && cites(m.evidence_inline, memory) {
            Ok(Some(StatementId(m.statement_id_bytes)))
        } else {
            Ok(None)
        },
        _ => Err(StatementOpError::DecodeFailed),
    }
}

/// The statements that cite a memory.
pub open spec fn citations(db: Db, memory: MemoryId) -> Result<Seq<StatementId>, StatementOpError> {
    collect(
        scan(db, Table::Statements, Seq::empty()),
        |kv: (Seq<u8>, Seq<u8>)| citing(kv.1, memory),
    )
}

fn names_memory(entries: &Vec<EvidenceEntry>, memory: &MemoryId) -> (r: bool)
    ensures
        r == cites(entries@, *memory),
{
    let mut i: usize = 0;
    while i < entries.len()
        invariant
            i <= entries.len(),
            forall|j: int| 0 <= j < i ==> (#[trigger] entries@[j]).memory_id.0 != memory.0,
        decreases entries.len() - i,
    {
        if id_eq(&entries[i].memory_id.0, &memory.0) {
            return true;
        }
        i = i + 1;
    }
    false
}

/// Finds the statements that cite a memory in the evidence on their rows. Rows
/// that are tombstoned do not count, nor does spilled evidence.
pub fn statements_citing_memory(rtxn: &ReadTransaction, memory_id: MemoryId) -> (r: Result<
    Vec<StatementId>,
    StatementOpError,
>)
    ensures
        r is Ok ==> opened(*rtxn, Table::Statements),
        r is Ok ==> scanned(rdb(*rtxn), Table::Statements, Seq::empty()),
        r matches Ok(v) ==> citations(rdb(*rtxn), memory_id) == Ok::<_, StatementOpError>(v@),
        r matches Err(e) ==> e is Storage || citations(rdb(*rtxn), memory_id) == Err::<Seq<StatementId>, _>(e),
{
    let prefix: Vec<u8> = Vec::new();
    let found = match read_prefix(rtxn, Table::Statements, prefix.as_slice()) {
        Ok(v) => v,
        Err(e) => return Err(StatementOpError::Storage(e)),
    };
    let ghost entries = entry_models(found@);
    let ghost f = |kv: (Seq<u8>, Seq<u8>)| citing(kv.1, memory_id);
    let mut out: Vec<StatementId> = Vec::new();
    let mut i: usize = 0;
    proof {
        assert(prefix@ =~= Seq::<u8>::empty());
        assert(entries.take(0) =~= Seq::<(Seq<u8>, Seq<u8>)>::empty());
    }
    while i < found.len()
        invariant
            i <= found.len(),
            entries == entry_models(found@),
            f == (|kv: (Seq<u8>, Seq<u8>)| citing(kv.1, memory_id)),
            collect(entries.take(i as int), f) == Ok::<_, StatementOpError>(out@),
            citations(rdb(*rtxn), memory_id) == collect(entries, f),
        decreases found.len() - i,
    {
        proof {
            lemma_collect_step(entries, f, i as int);
            if collect(entries.take(i + 1), f) is Err {
                lemma_collect_fails(entries, f, i + 1);
            }
        }
        let m: StatementMetadata = match from_bytes(found[i].1.as_slice()) {
            Some(x) => x,
            None => return Err(StatementOpError::DecodeFailed),
        };
        if !m.is_tombstoned() && names_memory(&m.evidence_inline, &memory_id) {
            out.push(StatementId(m.statement_id_bytes));
        }
        i = i + 1;
    }
    proof {
        assert(entries.take(i as int) =~= entries);
    }
    Ok(out)
}

/// Looks up the current statement of a subject, kind and predicate in a
/// snapshot.
pub(crate) fn lookup_current_statement(
    rtxn: &ReadTransaction,
    scope: RowScope,
    subject: EntityId,
    predicate: PredicateId,
    kind: StatementKind,
) -> (r: Result<Option<StatementId>, StatementOpError>)
    ensures
        r is Ok ==> opened(*rtxn, Table::StatementsBySubject),
        r is Ok ==> scanned(
            rdb(*rtxn),
            Table::StatementsBySubject,
            by_subject_prefix(scope, subject.0, kind.byte(), predicate.0, 1),
        ),
        r matches Ok(x) ==> current_statement(rdb(*rtxn), scope, subject, predicate, kind) == Ok::<
            _,
            StatementOpError,
        >(x),
        r matches Err(e) ==> e is Storage || current_statement(rdb(*rtxn), scope, subject, predicate, kind) == Err::<
            Option<StatementId>,
            _,
        >(e),
{
    let prefix = make_by_subject_prefix(&scope, &subject.0, kind.as_u8(), predicate.0, 1);
    let found = match read_prefix(rtxn, Table::StatementsBySubject, prefix.as_slice()) {
        Ok(v) => v,
        Err(e) => return Err(StatementOpError::Storage(e)),
    };
    if found.len() == 0 {
        return Ok(None);
    }
    let id = read_id(&found[0].1)?;
    Ok(Some(StatementId(id)))
}

} // verus!
