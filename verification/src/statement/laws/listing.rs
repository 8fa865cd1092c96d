//! Which statements a list holds.

use vstd::prelude::*;

use crate::bytes::{be, lemma_be_injective, lemma_be_len, lemma_lex_join, lemma_pow256_values};
use crate::catalog::Table;
use crate::collect::{
    collect_upto, differ, lemma_collect_members, lemma_upto_all, lemma_upto_distinct, lemma_upto_len, lemma_upto_members,
    lemma_upto_order, lemma_upto_unbounded,
};
use crate::order::{has_prefix, lemma_lex_irreflexive, lex_lt};
use crate::row::{slot, Slot};
use crate::statement::crud::lemma_id_in;
use crate::statement::laws::{
    lemma_predicate_key_names_row, lemma_scope_key_len, lemma_scopes_apart, lemma_subject_key_names_row,
    predicate_entry_sound, predicate_key_of, row_sound, sound, subject_entry_sound, subject_key,
};
use crate::statement::list::{
    candidate, lemma_predicate_entry, lemma_subject_entry, list_cap, list_range, listed, listed_row,
    StatementListFilter,
};
use crate::statement::StatementOpError;
use crate::store::{lemma_scan_exists, lookup, scan, Db};
use crate::tables::statement::{
    bucket_of, scope_of, statement_of, StatementMetadata, StatementModel, StatementRowModel, SubjectRef,
};
use crate::types::{scope_key, RowScope, StatementId, StatementKind};

verus! {

/// Whether a row is one of those that a list weighs. With a subject these are its
/// rows of the predicate and kind that are asked for, the current ones alone if only
/// these are; with a predicate alone they are the current rows of that predicate and
/// kind; with neither they are all rows of the scope.
pub open spec fn weighed(scope: RowScope, filter: StatementListFilter, m: StatementRowModel) -> bool {
    let of_kind = match filter.kind {
        Some(StatementKind::Fact) => m.kind == 0,
        Some(StatementKind::Preference) => m.kind == 1,
        Some(StatementKind::Event) => m.kind == 2,
        None => true,
    };
    &&& m.namespace_id == scope.namespace_id
    &&& m.agent_id_bytes == scope.agent_id_bytes
    &&& match (filter.subject, filter.predicate) {
        (Some(e), p) => {
            &&& m.subject_entity_bytes == e.0
            &&& p is Some ==> m.predicate_id == p->Some_0.0
            &&& of_kind
            &&& filter.current_only ==> m.is_current == 1
        },
        (None, Some(p)) => m.predicate_id == p.0 && of_kind && m.is_current == 1,
        (None, None) => true,
    }
}

/// The keys of the rows that a list weighs.
pub open spec fn weighed_keys(db: Db, scope: RowScope, filter: StatementListFilter) -> Set<Seq<u8>> {
    Set::new(
        |k: Seq<u8>|
            slot::<StatementMetadata>(db, Table::Statements, k) matches Slot::Row(m) && weighed(scope, filter, m),
    )
}

/// What the keys of the index by subject begin with.
proof fn lemma_subject_head(m: StatementRowModel, scope: RowScope, subject: [u8; 16])
    ensures
        has_prefix(subject_key(m), scope_key(scope) + subject@) <==> scope_of(m) == scope && m.subject_entity_bytes
            == subject,
        (scope_key(scope) + subject@).len() == 36,
{
    let x = subject_key(m);
    let prefix = scope_key(scope) + subject@;
    lemma_scope_key_len(scope_of(m));
    lemma_scope_key_len(scope);
    lemma_be_len(m.predicate_id as nat, 4);
    assert(x.take(20) =~= scope_key(scope_of(m)));
    assert(prefix.take(20) =~= scope_key(scope));
    assert(x.subrange(20, 36) =~= m.subject_entity_bytes@);
    assert(prefix.subrange(20, 36) =~= subject@);
    assert(x.take(36) =~= scope_key(scope_of(m)) + m.subject_entity_bytes@);
    if has_prefix(x, prefix) {
        assert(x.take(36) == prefix);
        assert(x.take(20) =~= x.take(36).take(20));
        lemma_scopes_apart(scope_of(m), scope, x);
        assert(x.subrange(20, 36) =~= x.take(36).subrange(20, 36));
        assert(m.subject_entity_bytes =~= subject);
    }
}

/// What the keys of one subject, kind and predicate begin with.
proof fn lemma_subject_full_head(m: StatementRowModel, scope: RowScope, subject: [u8; 16], kind: u8, predicate: u32)
    ensures
        has_prefix(
            subject_key(m),
            scope_key(scope) + subject@ + seq![kind] + be(predicate as nat, 4),
        ) <==> scope_of(m) == scope && m.subject_entity_bytes == subject && m.kind == kind && m.predicate_id
            == predicate,
{
    let x = subject_key(m);
    let prefix = scope_key(scope) + subject@ + seq![kind] + be(predicate as nat, 4);
    lemma_subject_head(m, scope, subject);
    lemma_scope_key_len(scope_of(m));
    lemma_scope_key_len(scope);
    lemma_be_len(m.predicate_id as nat, 4);
    lemma_be_len(predicate as nat, 4);
    lemma_pow256_values();
    assert(prefix.len() == 41);
    assert(prefix.take(36) =~= scope_key(scope) + subject@);
    assert(prefix[36] == kind);
    assert(prefix.subrange(37, 41) =~= be(predicate as nat, 4));
    assert(x[36] == m.kind);
    assert(x.subrange(37, 41) =~= be(m.predicate_id as nat, 4));
    if has_prefix(x, prefix) {
        assert(x.take(41) == prefix);
        assert(x.take(36) =~= x.take(41).take(36));
        assert(x.take(41)[36] == x[36]);
        assert(x.subrange(37, 41) =~= x.take(41).subrange(37, 41));
        lemma_be_injective(m.predicate_id as nat, predicate as nat, 4);
    } else if scope_of(m) == scope && m.subject_entity_bytes == subject && m.kind == kind && m.predicate_id
        == predicate {
        assert(x.take(41) =~= prefix);
    }
}

/// What the keys of the index by predicate begin with.
proof fn lemma_predicate_head(m: StatementRowModel, scope: RowScope, predicate: u32)
    ensures
        has_prefix(predicate_key_of(m), scope_key(scope) + be(predicate as nat, 4)) <==> scope_of(m) == scope
            && m.predicate_id == predicate,
{
    let x = predicate_key_of(m);
    let prefix = scope_key(scope) + be(predicate as nat, 4);
    lemma_scope_key_len(scope_of(m));
    lemma_scope_key_len(scope);
    lemma_be_len(m.predicate_id as nat, 4);
    lemma_be_len(predicate as nat, 4);
    lemma_pow256_values();
    assert(prefix.len() == 24);
    assert(x.take(20) =~= scope_key(scope_of(m)));
    assert(prefix.take(20) =~= scope_key(scope));
    assert(x.subrange(20, 24) =~= be(m.predicate_id as nat, 4));
    assert(prefix.subrange(20, 24) =~= be(predicate as nat, 4));
    assert(x.take(24) =~= scope_key(scope_of(m)) + be(m.predicate_id as nat, 4));
    if has_prefix(x, prefix) {
        assert(x.take(24) == prefix);
        assert(x.take(20) =~= x.take(24).take(20));
        lemma_scopes_apart(scope_of(m), scope, x);
        assert(x.subrange(20, 24) =~= x.take(24).subrange(20, 24));
        lemma_be_injective(m.predicate_id as nat, predicate as nat, 4);
    }
}

/// The key under which the range of a list holds a row.
spec fn key_in_range(filter: StatementListFilter, m: StatementRowModel) -> Seq<u8> {
    match (filter.subject, filter.predicate) {
        (Some(_), _) => subject_key(m),
        (None, Some(_)) => predicate_key_of(m),
        (None, None) => m.statement_id_bytes@,
    }
}

/// The heads of the keys in range are those of the rows that are asked for.
proof fn lemma_range_head(scope: RowScope, filter: StatementListFilter, m: StatementRowModel)
    ensures
        ({
            let (t, prefix) = list_range(scope, filter);
            has_prefix(key_in_range(filter, m), prefix) <==> match (filter.subject, filter.predicate, filter.kind) {
                (Some(e), Some(p), Some(k)) => scope_of(m) == scope && m.subject_entity_bytes == e.0 && m.kind
                    == k.byte() && m.predicate_id == p.0,
                (Some(e), _, _) => scope_of(m) == scope && m.subject_entity_bytes == e.0,
                (None, Some(p), _) => scope_of(m) == scope && m.predicate_id == p.0,
                (None, None, _) => true,
            }
        }),
{
    match (filter.subject, filter.predicate, filter.kind) {
        (Some(e), Some(p), Some(k)) => {
            lemma_subject_full_head(m, scope, e.0, k.byte(), p.0);
        },
        (Some(e), _, _) => {
            lemma_subject_head(m, scope, e.0);
        },
        (None, Some(p), _) => {
            lemma_predicate_head(m, scope, p.0);
        },
        (None, None, _) => {
            assert(m.statement_id_bytes@.take(0) =~= Seq::<u8>::empty());
        },
    }
}

/// An entry in range leads to a row, and to a candidate exactly if the row is
/// weighed.
proof fn lemma_entry_in_range(db: Db, scope: RowScope, filter: StatementListFilter, i: int)
    requires
        sound(db),
        db.rows.dom().finite(),
        0 <= i < scan(db, list_range(scope, filter).0, list_range(scope, filter).1).len(),
    ensures
        ({
            let kv = scan(db, list_range(scope, filter).0, list_range(scope, filter).1)[i];
            exists|id: [u8; 16], m: StatementRowModel|
                {
                    &&& #[trigger] slot::<StatementMetadata>(db, Table::Statements, id@) == Slot::Row(m)
                    &&& m.statement_id_bytes == id
                    &&& kv.0 == #[trigger] key_in_range(filter, m)
                    &&& candidate(scope, filter, kv) == Ok::<_, StatementOpError>(
                        if weighed(scope, filter, m) {
                            Some(id)
                        } else {
                            None
                        },
                    )
                }
        }),
{
    let (t, prefix) = list_range(scope, filter);
    lemma_scan_exists(db, t, prefix);
    let kv = scan(db, t, prefix)[i];
    assert(lookup(db, t, kv.0) == Some(kv.1));
    let at = match (filter.subject, filter.predicate) {
        (None, None) => kv.0,
        _ => kv.1,
    };
    if filter.subject is Some {
        assert(subject_entry_sound(db, kv.0));
    } else if filter.predicate is Some {
        assert(predicate_entry_sound(db, kv.0));
    }
    let m = slot::<StatementMetadata>(db, Table::Statements, at)->Row_0;
    assert(lookup(db, Table::Statements, at) is Some);
    assert(row_sound(db, at));
    let id = m.statement_id_bytes;
    assert(at == id@);
    lemma_id_in(id);
    lemma_range_head(scope, filter, m);
    lemma_subject_entry(scope_of(m), m.subject_entity_bytes, m.kind, m.predicate_id, m.is_current, id);
    lemma_predicate_entry(scope_of(m), m.predicate_id, m.kind, bucket_of(m.confidence), id);
    assert(kv.0 == key_in_range(filter, m));
    assert(slot::<StatementMetadata>(db, Table::Statements, id@) == Slot::Row(m));
}

/// A row that is weighed is in range.
proof fn lemma_weighed_in_range(db: Db, scope: RowScope, filter: StatementListFilter, id: [u8; 16]) -> (i: int)
    requires
        sound(db),
        db.rows.dom().finite(),
        slot::<StatementMetadata>(db, Table::Statements, id@) matches Slot::Row(m) && weighed(scope, filter, m),
    ensures
        0 <= i < scan(db, list_range(scope, filter).0, list_range(scope, filter).1).len(),
        candidate(
            scope,
            filter,
            scan(db, list_range(scope, filter).0, list_range(scope, filter).1)[i],
        ) == Ok::<_, StatementOpError>(Some(id)),
{
    let (t, prefix) = list_range(scope, filter);
    let m = slot::<StatementMetadata>(db, Table::Statements, id@)->Row_0;
    assert(row_sound(db, id@));
    assert(m.statement_id_bytes =~= id);
    lemma_scan_exists(db, t, prefix);
    lemma_range_head(scope, filter, m);
    let key = key_in_range(filter, m);
    assert(lookup(db, t, key) is Some);
    assert(db.dom().contains((t, key)));
    let entries = scan(db, t, prefix);
    let i = choose|i: int| 0 <= i < entries.len() && (#[trigger] entries[i]).0 == key;
    lemma_entry_in_range(db, scope, filter, i);
    let (other, n) = choose|other: [u8; 16], n: StatementRowModel|
        {
            &&& #[trigger] slot::<StatementMetadata>(db, Table::Statements, other@) == Slot::Row(n)
            &&& n.statement_id_bytes == other
            &&& entries[i].0 == #[trigger] key_in_range(filter, n)
            &&& candidate(scope, filter, entries[i]) == Ok::<_, StatementOpError>(
                if weighed(scope, filter, n) {
                    Some(other)
                } else {
                    None
                },
            )
        };
    lemma_key_in_range_names_row(filter, m, n);
    i
}

proof fn lemma_key_in_range_names_row(filter: StatementListFilter, a: StatementRowModel, b: StatementRowModel)
    requires
        key_in_range(filter, a) == key_in_range(filter, b),
    ensures
        a.statement_id_bytes == b.statement_id_bytes,
{
    if filter.subject is Some {
        lemma_subject_key_names_row(a, b);
    } else if filter.predicate is Some {
        lemma_predicate_key_names_row(a, b);
    } else {
        assert(a.statement_id_bytes =~= b.statement_id_bytes);
    }
}

/// The candidates of a list are rows that are weighed, each once; with less than the
/// cap they are all of them.
proof fn lemma_candidates(db: Db, scope: RowScope, filter: StatementListFilter, ids: Seq<[u8; 16]>)
    requires
        sound(db),
        db.rows.dom().finite(),
        collect_upto(
            scan(db, list_range(scope, filter).0, list_range(scope, filter).1),
            |kv: (Seq<u8>, Seq<u8>)| candidate(scope, filter, kv),
            list_cap(filter),
        ) == Ok::<_, StatementOpError>(ids),
    ensures
        ids.no_duplicates(),
        forall|id: [u8; 16]| #[trigger]
            ids.contains(id) ==> (slot::<StatementMetadata>(db, Table::Statements, id@) matches Slot::Row(m) && weighed(
                scope,
                filter,
                m,
            )),
        ids.len() < list_cap(filter) ==> forall|id: [u8; 16]|
            (slot::<StatementMetadata>(db, Table::Statements, id@) matches Slot::Row(m) && weighed(scope, filter, m))
                ==> #[trigger] ids.contains(id),
{
    let (t, prefix) = list_range(scope, filter);
    let entries = scan(db, t, prefix);
    let f = |kv: (Seq<u8>, Seq<u8>)| candidate(scope, filter, kv);
    lemma_scan_exists(db, t, prefix);
    assert forall|i: int, j: int| 0 <= i < j < entries.len() implies differ(
        f(#[trigger] entries[i]),
        f(#[trigger] entries[j]),
    ) by {
        lemma_entry_in_range(db, scope, filter, i);
        lemma_entry_in_range(db, scope, filter, j);
        assert(lex_lt(entries[i].0, entries[j].0));
        lemma_lex_irreflexive(entries[i].0);
    }
    lemma_upto_distinct(entries, f, list_cap(filter));
    assert forall|id: [u8; 16]| #[trigger] ids.contains(id) implies (slot::<StatementMetadata>(
        db,
        Table::Statements,
        id@,
    ) matches Slot::Row(m) && weighed(scope, filter, m)) by {
        lemma_upto_members(entries, f, list_cap(filter), id);
        let i = choose|i: int| 0 <= i < entries.len() && f(#[trigger] entries[i]) == Ok::<_, StatementOpError>(Some(id));
        lemma_entry_in_range(db, scope, filter, i);
    }
    if ids.len() < list_cap(filter) {
        lemma_upto_all(entries, f, list_cap(filter));
        assert forall|id: [u8; 16]|
            (slot::<StatementMetadata>(db, Table::Statements, id@) matches Slot::Row(m) && weighed(
                scope,
                filter,
                m,
            )) implies #[trigger] ids.contains(id) by {
            let i = lemma_weighed_in_range(db, scope, filter, id);
            lemma_collect_members(entries, f, id);
            assert(f(entries[i]) == Ok::<_, StatementOpError>(Some(id)));
        }
    }
}

/// Every statement of a list is what the filter asks for, field by field: it is of
/// the scope, of the subject, of the predicate and of the kind, it is not below the
/// confidence, and where only current ones are asked for it is current and not
/// tombstoned. It is the statement under its identifier. The index by subject does
/// not tell a subject that is a memory from an entity with the same bytes.
pub proof fn lemma_listed_is_asked_for(db: Db, scope: RowScope, filter: StatementListFilter, s: StatementModel)
    requires
        sound(db),
        db.rows.dom().finite(),
        listed(db, scope, filter) is Ok,
        listed(db, scope, filter)->Ok_0.contains(s),
    ensures
        slot::<StatementMetadata>(db, Table::Statements, s.id.0@) matches Slot::Row(m) && {
            &&& m.namespace_id == scope.namespace_id
            &&& m.agent_id_bytes == scope.agent_id_bytes
            &&& filter.current_only ==> m.is_current == 1 && m.tombstoned == 0
            &&& s.object == m.object
            &&& s.confidence == m.confidence
        },
        filter.subject is Some ==> match s.subject {
            SubjectRef::Entity(e) => e == filter.subject->Some_0,
            SubjectRef::Memory(x) => x.0 == filter.subject->Some_0.0,
            SubjectRef::Pending(_) => false,
        },
        filter.predicate is Some ==> s.predicate == filter.predicate->Some_0,
        filter.kind is Some ==> s.kind == filter.kind->Some_0,
        filter.current_only ==> !s.tombstoned,
        filter.min_confidence is Some ==> !s.confidence.lt_spec(filter.min_confidence->Some_0),
{
    let (t, prefix) = list_range(scope, filter);
    let f = |kv: (Seq<u8>, Seq<u8>)| candidate(scope, filter, kv);
    let ids = collect_upto(scan(db, t, prefix), f, list_cap(filter))->Ok_0;
    let g = |id: [u8; 16]| listed_row(db, filter, id);
    lemma_candidates(db, scope, filter, ids);
    lemma_collect_members(ids, g, s);
    let i = choose|i: int| 0 <= i < ids.len() && g(#[trigger] ids[i]) == Ok::<_, StatementOpError>(Some(s));
    let id = ids[i];
    assert(ids.contains(id));
    assert(row_sound(db, id@));
    let m = slot::<StatementMetadata>(db, Table::Statements, id@)->Row_0;
    assert(m.statement_id_bytes =~= id);
    assert(statement_of(m) == Some(s));
}

/// Every statement that a filter asks for is listed, as long as a list weighs less
/// rows than its cap. A list by predicate alone holds current ones only.
pub proof fn lemma_asked_for_is_listed(
    db: Db,
    scope: RowScope,
    filter: StatementListFilter,
    m: StatementRowModel,
    s: StatementModel,
)
    requires
        sound(db),
        db.rows.dom().finite(),
        listed(db, scope, filter) is Ok,
        weighed_keys(db, scope, filter).len() < if filter.limit == 0 || filter.limit > 1000 {
            1000nat
        } else {
            filter.limit as nat
        },
        slot::<StatementMetadata>(db, Table::Statements, s.id.0@) == Slot::Row(m),
        statement_of(m) == Some(s),
        m.namespace_id == scope.namespace_id,
        m.agent_id_bytes == scope.agent_id_bytes,
        filter.subject is Some ==> m.subject_entity_bytes == filter.subject->Some_0.0,
        filter.predicate is Some ==> s.predicate == filter.predicate->Some_0,
        filter.kind is Some ==> s.kind == filter.kind->Some_0,
        filter.current_only ==> m.is_current == 1 && m.tombstoned == 0,
        filter.subject is None && filter.predicate is Some ==> m.is_current == 1,
        filter.min_confidence is Some ==> !s.confidence.lt_spec(filter.min_confidence->Some_0),
    ensures
        listed(db, scope, filter)->Ok_0.contains(s),
{
    let (t, prefix) = list_range(scope, filter);
    let f = |kv: (Seq<u8>, Seq<u8>)| candidate(scope, filter, kv);
    let ids = collect_upto(scan(db, t, prefix), f, list_cap(filter))->Ok_0;
    let g = |id: [u8; 16]| listed_row(db, filter, id);
    lemma_candidates(db, scope, filter, ids);
    lemma_weighed_keys_finite(db, scope, filter);
    let keys = ids.map_values(|id: [u8; 16]| id@);
    assert(keys.no_duplicates()) by {
        assert forall|i: int, j: int| 0 <= i < j < keys.len() implies keys[i] != keys[j] by {
            if keys[i] == keys[j] {
                assert(ids[i] =~= ids[j]);
            }
        }
    }
    keys.unique_seq_to_set();
    assert(keys.to_set().subset_of(weighed_keys(db, scope, filter))) by {
        assert forall|k: Seq<u8>| keys.to_set().contains(k) implies weighed_keys(db, scope, filter).contains(k) by {
            let i = keys.index_of(k);
            assert(ids.contains(ids[i]));
        }
    }
    vstd::set_lib::lemma_len_subset(keys.to_set(), weighed_keys(db, scope, filter));
    assert(ids.len() < list_cap(filter));
    let id = s.id.0;
    assert(weighed(scope, filter, m));
    assert(ids.contains(id));
    let i = ids.index_of(id);
    lemma_collect_members(ids, g, s);
    assert(g(ids[i]) == Ok::<_, StatementOpError>(Some(s)));
}

proof fn lemma_weighed_keys_finite(db: Db, scope: RowScope, filter: StatementListFilter)
    requires
        db.rows.dom().finite(),
    ensures
        weighed_keys(db, scope, filter).finite(),
{
    let keys = weighed_keys(db, scope, filter);
    let all = db.dom().map(|tk: (Table, Seq<u8>)| tk.1);
    db.dom().lemma_map_finite(|tk: (Table, Seq<u8>)| tk.1);
    assert forall|k: Seq<u8>| keys.contains(k) implies all.contains(k) by {
        assert(db.dom().contains((Table::Statements, k)));
        assert((Table::Statements, k).1 == k);
    }
    vstd::set_lib::lemma_set_subset_finite(all, keys);
}

/// No statement is listed twice.
pub proof fn lemma_listed_once(db: Db, scope: RowScope, filter: StatementListFilter, i: int, j: int)
    requires
        sound(db),
        db.rows.dom().finite(),
        listed(db, scope, filter) is Ok,
        0 <= i < j < listed(db, scope, filter)->Ok_0.len(),
    ensures
        listed(db, scope, filter)->Ok_0[i].id != listed(db, scope, filter)->Ok_0[j].id,
{
    let (t, prefix) = list_range(scope, filter);
    let f = |kv: (Seq<u8>, Seq<u8>)| candidate(scope, filter, kv);
    let ids = collect_upto(scan(db, t, prefix), f, list_cap(filter))->Ok_0;
    lemma_candidates(db, scope, filter, ids);
    lemma_rows_once(db, filter, ids, i, j);
}

proof fn lemma_rows_once(db: Db, filter: StatementListFilter, ids: Seq<[u8; 16]>, i: int, j: int)
    requires
        sound(db),
        ids.no_duplicates(),
        crate::collect::collect(ids, |id: [u8; 16]| listed_row(db, filter, id)) is Ok,
        0 <= i < j < crate::collect::collect(ids, |id: [u8; 16]| listed_row(db, filter, id))->Ok_0.len(),
    ensures
        ({
            let v = crate::collect::collect(ids, |id: [u8; 16]| listed_row(db, filter, id))->Ok_0;
            v[i].id != v[j].id
        }),
    decreases ids.len(),
{
    let g = |id: [u8; 16]| listed_row(db, filter, id);
    let v = crate::collect::collect(ids, g)->Ok_0;
    let head = ids.drop_last();
    let before = crate::collect::collect(head, g)->Ok_0;
    if j < before.len() {
        lemma_rows_once(db, filter, head, i, j);
    } else {
        assert(before.contains(v[i]));
        lemma_collect_members(head, g, v[i]);
        let n = choose|n: int| 0 <= n < head.len() && g(#[trigger] head[n]) == Ok::<_, StatementOpError>(Some(v[i]));
        lemma_row_under_its_id(db, filter, head[n], v[i]);
        lemma_row_under_its_id(db, filter, ids.last(), v[j]);
        assert(head[n] == ids[n]);
        assert(ids[n] != ids[ids.len() - 1]);
    }
}

proof fn lemma_row_under_its_id(db: Db, filter: StatementListFilter, id: [u8; 16], s: StatementModel)
    requires
        sound(db),
        listed_row(db, filter, id) == Ok::<_, StatementOpError>(Some(s)),
    ensures
        s.id == StatementId(id),
{
    assert(row_sound(db, id@));
    let m = slot::<StatementMetadata>(db, Table::Statements, id@)->Row_0;
    assert(m.statement_id_bytes =~= id);
}

/// A list is no longer than was asked for, and never than a thousand. It is in the order
/// of the keys that it goes by: with a subject by kind, predicate, whether current, and
/// identifier; with a predicate alone by kind, tenths of confidence and identifier; and
/// else by identifier.
pub proof fn lemma_listed_in_order(db: Db, scope: RowScope, filter: StatementListFilter, i: int, j: int)
    requires
        sound(db),
        db.rows.dom().finite(),
        listed(db, scope, filter) is Ok,
        0 <= i < j < listed(db, scope, filter)->Ok_0.len(),
    ensures
        ({
            let found = listed(db, scope, filter)->Ok_0;
            let a = slot::<StatementMetadata>(db, Table::Statements, found[i].id.0@)->Row_0;
            let b = slot::<StatementMetadata>(db, Table::Statements, found[j].id.0@)->Row_0;
            &&& found.len() <= 1000
            &&& filter.limit > 0 ==> found.len() <= filter.limit
            &&& if filter.subject is Some {
                lex_lt(
                    seq![a.kind] + be(a.predicate_id as nat, 4) + seq![a.is_current] + found[i].id.0@,
                    seq![b.kind] + be(b.predicate_id as nat, 4) + seq![b.is_current] + found[j].id.0@,
                )
            } else if filter.predicate is Some {
                lex_lt(
                    seq![a.kind] + seq![bucket_of(a.confidence)] + found[i].id.0@,
                    seq![b.kind] + seq![bucket_of(b.confidence)] + found[j].id.0@,
                )
            } else {
                lex_lt(found[i].id.0@, found[j].id.0@)
            }
        }),
{
    let (t, prefix) = list_range(scope, filter);
    let entries = scan(db, t, prefix);
    let f = |kv: (Seq<u8>, Seq<u8>)| candidate(scope, filter, kv);
    let ids = collect_upto(entries, f, list_cap(filter))->Ok_0;
    let g = |id: [u8; 16]| listed_row(db, filter, id);
    let found = listed(db, scope, filter)->Ok_0;
    lemma_upto_len(entries, f, list_cap(filter));
    lemma_upto_unbounded(ids, g, ids.len() + 1);
    let n = lemma_upto_order(ids, g, ids.len() + 1, i, j);
    let p = lemma_upto_order(entries, f, list_cap(filter), n.0, n.1);
    lemma_scan_exists(db, t, prefix);
    assert(lex_lt(entries[p.0].0, entries[p.1].0));
    let a = lemma_entry_of(db, scope, filter, p.0, ids[n.0]);
    let b = lemma_entry_of(db, scope, filter, p.1, ids[n.1]);
    lemma_row_under_its_id(db, filter, ids[n.0], found[i]);
    lemma_row_under_its_id(db, filter, ids[n.1], found[j]);
    lemma_order_in_range(scope, filter, a, b);
}

/// The row that an entry in range leads to.
proof fn lemma_entry_of(db: Db, scope: RowScope, filter: StatementListFilter, i: int, id: [u8; 16]) -> (m: StatementRowModel)
    requires
        sound(db),
        db.rows.dom().finite(),
        0 <= i < scan(db, list_range(scope, filter).0, list_range(scope, filter).1).len(),
        candidate(
            scope,
            filter,
            scan(db, list_range(scope, filter).0, list_range(scope, filter).1)[i],
        ) == Ok::<_, StatementOpError>(Some(id)),
    ensures
        slot::<StatementMetadata>(db, Table::Statements, id@) == Slot::Row(m),
        m.statement_id_bytes == id,
        weighed(scope, filter, m),
        scan(db, list_range(scope, filter).0, list_range(scope, filter).1)[i].0 == key_in_range(filter, m),
{
    lemma_entry_in_range(db, scope, filter, i);
    let kv = scan(db, list_range(scope, filter).0, list_range(scope, filter).1)[i];
    let (other, m) = choose|other: [u8; 16], m: StatementRowModel|
        {
            &&& #[trigger] slot::<StatementMetadata>(db, Table::Statements, other@) == Slot::Row(m)
            &&& m.statement_id_bytes == other
            &&& kv.0 == #[trigger] key_in_range(filter, m)
            &&& candidate(scope, filter, kv) == Ok::<_, StatementOpError>(
                if weighed(scope, filter, m) {
                    Some(other)
                } else {
                    None
                },
            )
        };
    m
}

/// Keys of one range are in the order of what follows their common head.
proof fn lemma_order_in_range(scope: RowScope, filter: StatementListFilter, a: StatementRowModel, b: StatementRowModel)
    requires
        weighed(scope, filter, a),
        weighed(scope, filter, b),
        lex_lt(key_in_range(filter, a), key_in_range(filter, b)),
    ensures
        filter.subject is Some ==> lex_lt(
            seq![a.kind] + be(a.predicate_id as nat, 4) + seq![a.is_current] + a.statement_id_bytes@,
            seq![b.kind] + be(b.predicate_id as nat, 4) + seq![b.is_current] + b.statement_id_bytes@,
        ),
        filter.subject is None && filter.predicate is Some ==> lex_lt(
            seq![a.kind] + seq![bucket_of(a.confidence)] + a.statement_id_bytes@,
            seq![b.kind] + seq![bucket_of(b.confidence)] + b.statement_id_bytes@,
        ),
        filter.subject is None && filter.predicate is None ==> lex_lt(a.statement_id_bytes@, b.statement_id_bytes@),
{
    if filter.subject is Some {
        let head = scope_key(scope_of(a)) + a.subject_entity_bytes@;
        let x = seq![a.kind] + be(a.predicate_id as nat, 4) + seq![a.is_current] + a.statement_id_bytes@;
        let y = seq![b.kind] + be(b.predicate_id as nat, 4) + seq![b.is_current] + b.statement_id_bytes@;
        assert(subject_key(a) =~= head + x);
        assert(subject_key(b) =~= head + y);
        lemma_lex_join(head, head, x, y);
        lemma_lex_irreflexive(head);
    } else if filter.predicate is Some {
        let head = scope_key(scope_of(a)) + be(a.predicate_id as nat, 4);
        let x = seq![a.kind] + seq![bucket_of(a.confidence)] + a.statement_id_bytes@;
        let y = seq![b.kind] + seq![bucket_of(b.confidence)] + b.statement_id_bytes@;
        assert(predicate_key_of(a) =~= head + x);
        assert(predicate_key_of(b) =~= head + y);
        lemma_lex_join(head, head, x, y);
        lemma_lex_irreflexive(head);
    }
}

} // verus!
