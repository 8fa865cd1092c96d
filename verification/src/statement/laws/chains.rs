//! What superseding makes of the chains of versions.

use vstd::prelude::*;

use crate::bytes::{be, lemma_be_injective, lemma_be_len, lemma_pow256_values};
use crate::catalog::Table;
use crate::collect::lemma_collect_step;
use crate::order::{has_prefix, lex_lt};
use crate::row::{fits, image, lemma_parsed, slot, Row, Slot};
use crate::statement::crud::{
    appended, evidence_indexed, inserted, lemma_id_in, memories_of, probed, resolved, statement_behind,
    statements_behind, stored_confidence,
};
use crate::statement::laws::facts::row_fits;
use crate::statement::laws::{
    lemma_chain_in_version_order, lemma_evidence_indexed_frame, lemma_inserted_lookups, lemma_probed_frame,
    lemma_scope_key_len, lemma_scopes_apart, rows_fit,
};
use crate::statement::list::{chain_root_at, history};
use crate::statement::supersede::{deactivated, outdated, successor, supersede_checked, superseded};
use crate::statement::tombstone::{buried, tombstoned};
use crate::statement::{StatementOpError, WriteContext};
use crate::store::{is_scan, lemma_scan_unique, lookup, Db};
use crate::tables::statement::{
    chain_key, lemma_statement_of_row, row_of, scope_of, statement_of, Statement, StatementMetadata, StatementModel,
    StatementRowModel, TombstoneReason,
};
use crate::types::{scope_key, RowScope, StatementId};

verus! {

/// The statement at place `i` of a chain has a row, its place as its version, the
/// root of the chain, the one before it as what it supersedes, and an entry in the
/// index of chains. No chain begins with it unless it is the root.
pub open spec fn is_version(db: Db, scope: RowScope, c: Seq<StatementModel>, i: int) -> bool {
    &&& slot::<StatementMetadata>(db, Table::Statements, c[i].id.0@) matches Slot::Row(m)
    &&& statement_of(m) == Some(c[i])
    &&& scope_of(m) == scope
    &&& c[i].version == i + 1
    &&& c[i].chain_root == c[0].id
    &&& c[i].supersedes == if i == 0 {
        None
    } else {
        Some(c[i - 1].id)
    }
    &&& lookup(db, Table::StatementChain, chain_key(scope, c[0].id.0, c[i].version)) == Some(c[i].id.0@)
    &&& i > 0 ==> lookup(db, Table::StatementChain, chain_key(scope, c[i].id.0, 1)) is None
}

/// The key of a chain leads to one of its statements.
pub open spec fn is_version_key(scope: RowScope, c: Seq<StatementModel>, k: Seq<u8>) -> bool {
    exists|i: int| 0 <= i < c.len() && k == chain_key(scope, c[0].id.0, (#[trigger] c[i]).version)
}

/// `c` is a chain of versions, from its root on, and the index of chains holds
/// these versions and no others.
pub open spec fn is_chain(db: Db, scope: RowScope, c: Seq<StatementModel>) -> bool {
    &&& 0 < c.len() <= u32::MAX
    &&& forall|i: int| 0 <= i < c.len() ==> #[trigger] is_version(db, scope, c, i)
    &&& forall|k: Seq<u8>| #[trigger]
        db.dom().contains((Table::StatementChain, k)) && has_prefix(k, scope_key(scope) + c[0].id.0@)
            ==> is_version_key(scope, c, k)
}

/// Every chain begins with a statement that has a row.
pub open spec fn rooted(db: Db) -> bool {
    forall|k: Seq<u8>| #[trigger]
        db.dom().contains((Table::StatementChain, k)) ==> k.len() == 40 && lookup(
            db,
            Table::Statements,
            k.subrange(20, 36),
        ) is Some
}

/// An empty database has no chain.
pub proof fn lemma_empty_is_rooted(db: Db)
    requires
        db.rows == Map::<(Table, Seq<u8>), Seq<u8>>::empty(),
    ensures
        rooted(db),
{
}

// Keys.

proof fn lemma_chain_key(scope: RowScope, root: [u8; 16], version: u32)
    ensures
        chain_key(scope, root, version).len() == 40,
        chain_key(scope, root, version).subrange(20, 36) == root@,
        has_prefix(chain_key(scope, root, version), scope_key(scope) + root@),
        (scope_key(scope) + root@).len() == 36,
{
    lemma_scope_key_len(scope);
    lemma_be_len(version as nat, 4);
    let k = chain_key(scope, root, version);
    assert(k.subrange(20, 36) =~= root@);
    assert(k.take(36) =~= scope_key(scope) + root@);
}

proof fn lemma_chain_key_injective(s: RowScope, a: [u8; 16], v: u32, t: RowScope, b: [u8; 16], w: u32)
    requires
        chain_key(s, a, v) == chain_key(t, b, w),
    ensures
        s == t,
        a == b,
        v == w,
{
    let x = chain_key(s, a, v);
    lemma_chain_key(s, a, v);
    lemma_chain_key(t, b, w);
    lemma_scope_key_len(s);
    lemma_scope_key_len(t);
    assert(x.take(20) =~= scope_key(s));
    assert(chain_key(t, b, w).take(20) =~= scope_key(t));
    lemma_scopes_apart(s, t, x);
    assert(a =~= b);
    lemma_be_len(v as nat, 4);
    lemma_be_len(w as nat, 4);
    lemma_pow256_values();
    assert(x.skip(36) =~= be(v as nat, 4));
    assert(chain_key(t, b, w).skip(36) =~= be(w as nat, 4));
    lemma_be_injective(v as nat, w as nat, 4);
}

/// A key that belongs to one chain belongs to no other.
proof fn lemma_prefix_of_key(s: RowScope, a: [u8; 16], v: u32, t: RowScope, b: [u8; 16])
    requires
        has_prefix(chain_key(s, a, v), scope_key(t) + b@),
    ensures
        s == t,
        a == b,
{
    let x = chain_key(s, a, v);
    let p = scope_key(t) + b@;
    lemma_chain_key(s, a, v);
    lemma_chain_key(t, b, v);
    lemma_scope_key_len(s);
    lemma_scope_key_len(t);
    assert(x.take(36) == p);
    assert(x.take(20) =~= scope_key(s));
    assert(x.take(20) =~= p.take(20));
    assert(p.take(20) =~= scope_key(t));
    lemma_scopes_apart(s, t, x);
    assert(x.subrange(20, 36) =~= p.skip(20));
    assert(p.skip(20) =~= b@);
    assert(a =~= b);
}

/// No chain begins with an identifier that has no row.
proof fn lemma_fresh_has_no_chain(db: Db, scope: RowScope, id: [u8; 16], k: Seq<u8>)
    requires
        rooted(db),
        lookup(db, Table::Statements, id@) is None,
        has_prefix(k, scope_key(scope) + id@),
    ensures
        !db.dom().contains((Table::StatementChain, k)),
{
    if db.dom().contains((Table::StatementChain, k)) {
        lemma_scope_key_len(scope);
        let p = scope_key(scope) + id@;
        assert(p.len() == 36);
        assert(k.take(36) == p);
        assert(k.subrange(20, 36) =~= k.take(36).skip(20));
        assert(p.skip(20) =~= id@);
    }
}

// The history of a chain.

/// Every version of a chain has the same history: the chain, from its root on,
/// each version once, in the order of the versions, each superseding the one
/// before it.
pub proof fn lemma_history_of_chain(db: Db, scope: RowScope, c: Seq<StatementModel>, i: int, j: int)
    requires
        is_chain(db, scope, c),
        0 <= i < c.len(),
        0 <= j < c.len(),
    ensures
        history(db, scope, c[i].id) == Ok::<_, StatementOpError>(c),
        history(db, scope, c[j].id) == history(db, scope, c[i].id),
        c[0].id == c[i].chain_root,
        i < j ==> c[i].version < c[j].version && c[i].id != c[j].id,
        i > 0 ==> c[i].supersedes == Some(c[i - 1].id),
{
    lemma_history_is_chain(db, scope, c, i);
    lemma_history_is_chain(db, scope, c, j);
    assert(is_version(db, scope, c, i));
    assert(is_version(db, scope, c, j));
}

proof fn lemma_history_is_chain(db: Db, scope: RowScope, c: Seq<StatementModel>, i: int)
    requires
        is_chain(db, scope, c),
        0 <= i < c.len(),
    ensures
        history(db, scope, c[i].id) == Ok::<_, StatementOpError>(c),
{
    let root = c[0].id.0;
    assert(is_version(db, scope, c, 0));
    assert(is_version(db, scope, c, i));
    assert(chain_root_at(db, scope, c[i].id) == Ok::<_, StatementOpError>(root));
    let prefix = scope_key(scope) + root@;
    let listed = Seq::new(c.len(), |n: int| (chain_key(scope, root, c[n].version), c[n].id.0@));
    assert forall|a: int, b: int| 0 <= a < b < listed.len() implies lex_lt(
        #[trigger] listed[a].0,
        #[trigger] listed[b].0,
    ) by {
        assert(is_version(db, scope, c, a));
        assert(is_version(db, scope, c, b));
        lemma_chain_in_version_order(scope, root, c[a].version, c[b].version);
    }
    assert forall|n: int| 0 <= n < listed.len() implies has_prefix((#[trigger] listed[n]).0, prefix) && lookup(
        db,
        Table::StatementChain,
        listed[n].0,
    ) == Some(listed[n].1) by {
        assert(is_version(db, scope, c, n));
        lemma_chain_key(scope, root, c[n].version);
    }
    assert forall|k: Seq<u8>| #[trigger]
        db.dom().contains((Table::StatementChain, k)) && has_prefix(k, prefix) implies exists|n: int|
        0 <= n < listed.len() && (#[trigger] listed[n]).0 == k by {
        let n = choose|n: int| 0 <= n < c.len() && k == chain_key(scope, c[0].id.0, (#[trigger] c[n]).version);
        assert(listed[n].0 == k);
    }
    assert(is_scan(db, Table::StatementChain, prefix, listed));
    lemma_scan_unique(db, Table::StatementChain, prefix, listed);
    lemma_chain_behind(db, scope, c, listed, c.len() as int);
    assert(listed.take(c.len() as int) =~= listed);
    assert(c.take(c.len() as int) =~= c);
}

proof fn lemma_chain_behind(
    db: Db,
    scope: RowScope,
    c: Seq<StatementModel>,
    listed: Seq<(Seq<u8>, Seq<u8>)>,
    n: int,
)
    requires
        is_chain(db, scope, c),
        listed == Seq::new(c.len(), |i: int| (chain_key(scope, c[0].id.0, c[i].version), c[i].id.0@)),
        0 <= n <= c.len(),
    ensures
        statements_behind(db, listed.take(n)) == Ok::<_, StatementOpError>(c.take(n)),
    decreases n,
{
    let f = |kv: (Seq<u8>, Seq<u8>)| statement_behind(db, kv.1);
    if n == 0 {
        assert(c.take(0) =~= Seq::<StatementModel>::empty());
        assert(listed.take(0) =~= Seq::<(Seq<u8>, Seq<u8>)>::empty());
    } else {
        lemma_chain_behind(db, scope, c, listed, n - 1);
        assert(is_version(db, scope, c, n - 1));
        lemma_id_in(c[n - 1].id.0);
        lemma_collect_step(listed, f, n - 1);
        assert(c.take(n) =~= c.take(n - 1).push(c[n - 1]));
    }
}

/// An identifier that has no row, and begins no chain, has no history.
pub proof fn lemma_unknown_has_no_history(db: Db, scope: RowScope, id: StatementId)
    requires
        rooted(db),
        lookup(db, Table::Statements, id.0@) is None,
    ensures
        history(db, scope, id) == Err::<Seq<StatementModel>, _>(StatementOpError::NotFound(id)),
{
    lemma_chain_key(scope, id.0, 1);
    lemma_fresh_has_no_chain(db, scope, id.0, chain_key(scope, id.0, 1));
}

// What an insertion does to the index of chains.

proof fn lemma_inserted_chain(db: Db, scope: RowScope, s: StatementModel, memories: Seq<[u8; 16]>, k: Seq<u8>)
    ensures
        lookup(inserted(db, scope, s, memories), Table::StatementChain, k) == if k == chain_key(
            scope,
            s.chain_root.0,
            s.version,
        ) {
            Some(s.id.0@)
        } else {
            lookup(db, Table::StatementChain, k)
        },
{
    assert forall|d: Db| lookup(
        #[trigger] evidence_indexed(d, scope, memories, s.id.0),
        Table::StatementChain,
        k,
    ) == lookup(d, Table::StatementChain, k) by {
        lemma_evidence_indexed_frame(d, scope, memories, s.id.0, Table::StatementChain, k);
    }
}

/// A statement that supersedes nothing begins a chain.
pub proof fn lemma_created_begins_chain(db: Db, scope: RowScope, s: StatementModel, ctx: WriteContext)
    requires
        rooted(db),
        lookup(db, Table::Statements, s.id.0@) is None,
        appended(db, scope, s, ctx) is Ok,
        is_root(s),
        row_fits(scope, s),
    ensures
        ({
            let after = appended(db, scope, s, ctx)->Ok_0.0;
            let new = Statement { confidence: stored_confidence(db, s, ctx.aggregated_now)->Ok_0, ..s };
            &&& is_chain(after, scope, seq![new])
            &&& rooted(after)
        }),
{
    let after = appended(db, scope, s, ctx)->Ok_0.0;
    let new = Statement { confidence: stored_confidence(db, s, ctx.aggregated_now)->Ok_0, ..s };
    lemma_appended(db, scope, s, ctx);
    let c = seq![new];
    lemma_chain_key(scope, s.id.0, 1);
    lemma_statement_of_row(new, scope);
    assert forall|i: int| 0 <= i < c.len() implies #[trigger] is_version(after, scope, c, i) by {
        assert(i == 0);
    }
    assert forall|k: Seq<u8>| #[trigger]
        after.dom().contains((Table::StatementChain, k)) && has_prefix(k, scope_key(scope) + c[0].id.0@) implies
        is_version_key(scope, c, k) by {
        assert(lookup(after, Table::StatementChain, k) is Some);
        if k != chain_key(scope, s.id.0, 1) {
            lemma_fresh_has_no_chain(db, scope, s.id.0, k);
        } else {
            assert(c[0].version == 1);
        }
    }
    lemma_appended_rooted(db, scope, s, ctx);
}

/// A statement in the form in which a chain begins.
pub open spec fn is_root(s: StatementModel) -> bool {
    &&& s.version == 1
    &&& s.chain_root == s.id
    &&& s.supersedes is None
    &&& s.superseded_by is None
    &&& !s.tombstoned
    &&& !(s.subject is Pending)
}

/// The statement row and the chain entry that an appended statement leaves.
proof fn lemma_appended(db: Db, scope: RowScope, s: StatementModel, ctx: WriteContext)
    requires
        appended(db, scope, s, ctx) is Ok,
        is_root(s),
        row_fits(scope, s),
    ensures
        ({
            let after = appended(db, scope, s, ctx)->Ok_0.0;
            let new = Statement { confidence: stored_confidence(db, s, ctx.aggregated_now)->Ok_0, ..s };
            &&& slot::<StatementMetadata>(after, Table::Statements, s.id.0@) == Slot::Row(row_of(new, scope))
            &&& forall|k: Seq<u8>|
                k != s.id.0@ ==> #[trigger] lookup(after, Table::Statements, k) == lookup(db, Table::Statements, k)
            &&& forall|k: Seq<u8>| #[trigger]
                lookup(after, Table::StatementChain, k) == if k == chain_key(scope, s.id.0, 1) {
                    Some(s.id.0@)
                } else {
                    lookup(db, Table::StatementChain, k)
                }
        }),
{
    let d = probed(db, scope, s, ctx)->Ok_0;
    assert forall|t: Table, k: Seq<u8>|
        t is Statements || t is StatementChain || t is EvidenceOverflow implies #[trigger] lookup(d, t, k) == lookup(
        db,
        t,
        k,
    ) by {
        lemma_probed_frame(db, scope, s, ctx, t, k);
    }
    assert(stored_confidence(d, s, ctx.aggregated_now) == stored_confidence(db, s, ctx.aggregated_now)) by {
        assert(forall|k: Seq<u8>|
            lookup(d, Table::EvidenceOverflow, k) == lookup(db, Table::EvidenceOverflow, k));
    }
    let new = Statement { confidence: stored_confidence(db, s, ctx.aggregated_now)->Ok_0, ..s };
    let memories = memories_of(resolved(d, s.evidence)->Ok_0);
    lemma_inserted_lookups(d, scope, new, memories);
    lemma_parsed::<StatementMetadata>(row_of(new, scope));
    let after = inserted(d, scope, new, memories);
    assert forall|k: Seq<u8>| #[trigger]
        lookup(after, Table::StatementChain, k) == if k == chain_key(scope, s.id.0, 1) {
            Some(s.id.0@)
        } else {
            lookup(db, Table::StatementChain, k)
        } by {
        lemma_inserted_chain(d, scope, new, memories, k);
    }
}

proof fn lemma_appended_rooted(db: Db, scope: RowScope, s: StatementModel, ctx: WriteContext)
    requires
        rooted(db),
        appended(db, scope, s, ctx) is Ok,
        is_root(s),
        row_fits(scope, s),
    ensures
        rooted(appended(db, scope, s, ctx)->Ok_0.0),
{
    lemma_appended(db, scope, s, ctx);
    let after = appended(db, scope, s, ctx)->Ok_0.0;
    lemma_chain_key(scope, s.id.0, 1);
    assert forall|k: Seq<u8>| #[trigger]
        after.dom().contains((Table::StatementChain, k)) implies k.len() == 40 && lookup(
        after,
        Table::Statements,
        k.subrange(20, 36),
    ) is Some by {
        assert(lookup(after, Table::StatementChain, k) is Some);
        if k != chain_key(scope, s.id.0, 1) {
            assert(db.dom().contains((Table::StatementChain, k)));
        }
    }
}

// Superseding.

/// The statement that a row holds once it was superseded.
pub open spec fn outdated_model(m: StatementRowModel, s: StatementModel, now_unix_nanos: u64) -> StatementModel {
    statement_of(outdated(m, s, now_unix_nanos))->Some_0
}

/// A chain whose last version was superseded.
pub open spec fn extended(db: Db, c: Seq<StatementModel>, s: StatementModel, ctx: WriteContext) -> Seq<StatementModel> {
    let m = supersede_checked(db, c.last().id, s)->Ok_0;
    let new = Statement {
        confidence: stored_confidence(db, s, ctx.aggregated_at_extraction)->Ok_0,
        ..successor(m, c.last().id, s)
    };
    c.drop_last().push(outdated_model(m, s, ctx.now_unix_nanos)).push(new)
}

/// The statement rows and the chain entry that superseding leaves.
proof fn lemma_superseded_tables(db: Db, scope: RowScope, old_id: StatementId, s: StatementModel, ctx: WriteContext)
    requires
        superseded(db, scope, old_id, s, ctx) is Ok,
        supersede_checked(db, old_id, s) matches Ok(m) && m.statement_id_bytes == old_id.0,
        !(s.subject is Pending),
        !s.tombstoned,
        rows_fit(db, scope, old_id, s, ctx),
    ensures
        ({
            let after = superseded(db, scope, old_id, s, ctx)->Ok_0.0;
            let m = supersede_checked(db, old_id, s)->Ok_0;
            let new = Statement {
                confidence: stored_confidence(db, s, ctx.aggregated_at_extraction)->Ok_0,
                ..successor(m, old_id, s)
            };
            &&& old_id.0@ != s.id.0@
            &&& slot::<StatementMetadata>(after, Table::Statements, old_id.0@) == Slot::Row(
                outdated(m, s, ctx.now_unix_nanos),
            )
            &&& slot::<StatementMetadata>(after, Table::Statements, s.id.0@) == Slot::Row(row_of(new, scope))
            &&& forall|k: Seq<u8>|
                k != old_id.0@ && k != s.id.0@ ==> #[trigger] lookup(after, Table::Statements, k) == lookup(
                    db,
                    Table::Statements,
                    k,
                )
            &&& forall|k: Seq<u8>| #[trigger]
                lookup(after, Table::StatementChain, k) == if k == chain_key(scope, new.chain_root.0, new.version) {
                    Some(s.id.0@)
                } else {
                    lookup(db, Table::StatementChain, k)
                }
        }),
{
    let m = supersede_checked(db, old_id, s)->Ok_0;
    let now = outdated(m, s, ctx.now_unix_nanos);
    let d1 = db.insert((Table::Statements, m.statement_id_bytes@), image::<StatementMetadata>(now));
    let mid = deactivated(d1, m);
    let new = Statement {
        confidence: stored_confidence(db, s, ctx.aggregated_at_extraction)->Ok_0,
        ..successor(m, old_id, s)
    };
    let memories = memories_of(resolved(mid, new.evidence)->Ok_0);
    lemma_inserted_lookups(mid, scope, new, memories);
    lemma_parsed::<StatementMetadata>(now);
    lemma_parsed::<StatementMetadata>(row_of(new, scope));
    assert forall|k: Seq<u8>| #[trigger]
        lookup(mid, Table::StatementChain, k) == lookup(db, Table::StatementChain, k) by {}
    let after = inserted(mid, scope, new, memories);
    assert forall|k: Seq<u8>| #[trigger]
        lookup(after, Table::StatementChain, k) == if k == chain_key(scope, new.chain_root.0, new.version) {
            Some(s.id.0@)
        } else {
            lookup(db, Table::StatementChain, k)
        } by {
        lemma_inserted_chain(mid, scope, new, memories, k);
    }
}

/// A row holds a statement of a scope.
spec fn holds(db: Db, scope: RowScope, s: StatementModel) -> bool {
    &&& slot::<StatementMetadata>(db, Table::Statements, s.id.0@) matches Slot::Row(m)
    &&& statement_of(m) == Some(s)
    &&& scope_of(m) == scope
}

/// The chain gained `new`, and its last version became `last`.
spec fn grew(
    db: Db,
    after: Db,
    scope: RowScope,
    c: Seq<StatementModel>,
    last: StatementModel,
    new: StatementModel,
) -> bool {
    &&& lookup(db, Table::Statements, new.id.0@) is None
    &&& new.version == c.len() + 1
    &&& new.chain_root == c[0].id
    &&& new.supersedes == Some(c.last().id)
    &&& last.id == c.last().id
    &&& last.version == c.last().version
    &&& last.chain_root == c.last().chain_root
    &&& last.supersedes == c.last().supersedes
    &&& holds(after, scope, last)
    &&& holds(after, scope, new)
    &&& forall|k: Seq<u8>|
        k != last.id.0@ && k != new.id.0@ ==> #[trigger] lookup(after, Table::Statements, k) == lookup(
            db,
            Table::Statements,
            k,
        )
    &&& forall|k: Seq<u8>| #[trigger]
        lookup(after, Table::StatementChain, k) == if k == chain_key(scope, c[0].id.0, new.version) {
            Some(new.id.0@)
        } else {
            lookup(db, Table::StatementChain, k)
        }
}

proof fn lemma_grown_version(
    db: Db,
    after: Db,
    scope: RowScope,
    c: Seq<StatementModel>,
    last: StatementModel,
    new: StatementModel,
    i: int,
)
    requires
        rooted(db),
        is_chain(db, scope, c),
        c.len() < u32::MAX,
        grew(db, after, scope, c, last, new),
        0 <= i <= c.len(),
    ensures
        is_version(after, scope, c.drop_last().push(last).push(new), i),
{
    let n = c.len() as int;
    let root = c[0].id.0;
    let e = c.drop_last().push(last).push(new);
    let added = chain_key(scope, root, new.version);
    assert(is_version(db, scope, c, 0));
    assert(is_version(db, scope, c, n - 1));
    assert(e[0].id == c[0].id);
    if i < n {
        assert(is_version(db, scope, c, i));
        if chain_key(scope, root, c[i].version) == added {
            lemma_chain_key_injective(scope, root, c[i].version, scope, root, new.version);
        }
        if chain_key(scope, c[i].id.0, 1) == added {
            lemma_chain_key_injective(scope, c[i].id.0, 1, scope, root, new.version);
        }
        if i > 0 {
            assert(e[i - 1].id == c[i - 1].id);
        }
        if i < n - 1 {
            assert(e[i] == c[i]);
            if c[i].id.0@ == last.id.0@ {
                assert(c[i].id.0 =~= last.id.0);
            }
        } else {
            assert(e[i] == last);
        }
    } else {
        lemma_chain_key(scope, new.id.0, 1);
        lemma_fresh_has_no_chain(db, scope, new.id.0, chain_key(scope, new.id.0, 1));
        if chain_key(scope, new.id.0, 1) == added {
            lemma_chain_key_injective(scope, new.id.0, 1, scope, root, new.version);
        }
        assert(e[n] == new);
        assert(e[n - 1].id == c[n - 1].id);
    }
}

proof fn lemma_grown_rooted(
    db: Db,
    after: Db,
    scope: RowScope,
    c: Seq<StatementModel>,
    last: StatementModel,
    new: StatementModel,
)
    requires
        rooted(db),
        is_chain(db, scope, c),
        grew(db, after, scope, c, last, new),
    ensures
        rooted(after),
{
    let root = c[0].id.0;
    let added = chain_key(scope, root, new.version);
    assert(is_version(db, scope, c, 0));
    lemma_chain_key(scope, root, new.version);
    assert forall|k: Seq<u8>| #[trigger]
        after.dom().contains((Table::StatementChain, k)) implies k.len() == 40 && lookup(
        after,
        Table::Statements,
        k.subrange(20, 36),
    ) is Some by {
        assert(lookup(after, Table::StatementChain, k) is Some);
        if k != added {
            assert(db.dom().contains((Table::StatementChain, k)));
        } else {
            assert(lookup(db, Table::Statements, root@) is Some);
        }
        let v = k.subrange(20, 36);
        assert(lookup(db, Table::Statements, v) is Some);
        if v == last.id.0@ || v == new.id.0@ {
            assert(holds(after, scope, last) && holds(after, scope, new));
        }
    }
}

proof fn lemma_grown_key(
    db: Db,
    after: Db,
    scope: RowScope,
    c: Seq<StatementModel>,
    last: StatementModel,
    new: StatementModel,
    k: Seq<u8>,
)
    requires
        is_chain(db, scope, c),
        grew(db, after, scope, c, last, new),
        after.dom().contains((Table::StatementChain, k)),
        has_prefix(k, scope_key(scope) + c[0].id.0@),
    ensures
        is_version_key(scope, c.drop_last().push(last).push(new), k),
{
    let n = c.len() as int;
    let e = c.drop_last().push(last).push(new);
    assert(e[0].id == c[0].id);
    assert(lookup(after, Table::StatementChain, k) is Some);
    if k == chain_key(scope, c[0].id.0, new.version) {
        assert(e[n].version == new.version);
    } else {
        assert(lookup(db, Table::StatementChain, k) is Some);
        let i = choose|i: int| 0 <= i < c.len() && k == chain_key(scope, c[0].id.0, (#[trigger] c[i]).version);
        assert(e[i].version == c[i].version);
    }
}

proof fn lemma_grown_chain(
    db: Db,
    after: Db,
    scope: RowScope,
    c: Seq<StatementModel>,
    last: StatementModel,
    new: StatementModel,
)
    requires
        rooted(db),
        is_chain(db, scope, c),
        c.len() < u32::MAX,
        grew(db, after, scope, c, last, new),
    ensures
        is_chain(after, scope, c.drop_last().push(last).push(new)),
        rooted(after),
{
    let e = c.drop_last().push(last).push(new);
    assert forall|i: int| 0 <= i < e.len() implies #[trigger] is_version(after, scope, e, i) by {
        lemma_grown_version(db, after, scope, c, last, new, i);
    }
    assert(is_version(db, scope, c, 0));
    assert(e[0].id == c[0].id);
    assert forall|k: Seq<u8>| #[trigger]
        after.dom().contains((Table::StatementChain, k)) && has_prefix(k, scope_key(scope) + e[0].id.0@) implies
        is_version_key(scope, e, k) by {
        lemma_grown_key(db, after, scope, c, last, new, k);
    }
    lemma_grown_rooted(db, after, scope, c, last, new);
}

proof fn lemma_superseded_grew(db: Db, scope: RowScope, c: Seq<StatementModel>, s: StatementModel, ctx: WriteContext)
    requires
        is_chain(db, scope, c),
        c.len() < u32::MAX,
        superseded(db, scope, c.last().id, s, ctx) is Ok,
        !(s.subject is Pending),
        !s.tombstoned,
        rows_fit(db, scope, c.last().id, s, ctx),
    ensures
        ({
            let m = supersede_checked(db, c.last().id, s)->Ok_0;
            let last = outdated_model(m, s, ctx.now_unix_nanos);
            let new = Statement {
                confidence: stored_confidence(db, s, ctx.aggregated_at_extraction)->Ok_0,
                ..successor(m, c.last().id, s)
            };
            &&& grew(db, superseded(db, scope, c.last().id, s, ctx)->Ok_0.0, scope, c, last, new)
            &&& last.superseded_by == Some(s.id)
            &&& new.id == s.id
        }),
{
    let old_id = c.last().id;
    assert(is_version(db, scope, c, 0));
    assert(is_version(db, scope, c, c.len() - 1));
    let m = supersede_checked(db, old_id, s)->Ok_0;
    lemma_superseded_tables(db, scope, old_id, s, ctx);
    lemma_successor(db, scope, c, m, s);
    let new = Statement {
        confidence: stored_confidence(db, s, ctx.aggregated_at_extraction)->Ok_0,
        ..successor(m, old_id, s)
    };
    lemma_statement_of_row(new, scope);
}

/// The successor of the last version takes the next place of the chain.
proof fn lemma_successor(db: Db, scope: RowScope, c: Seq<StatementModel>, m: StatementRowModel, s: StatementModel)
    requires
        is_chain(db, scope, c),
        c.len() < u32::MAX,
        slot::<StatementMetadata>(db, Table::Statements, c.last().id.0@) == Slot::Row(m),
    ensures
        successor(m, c.last().id, s).version == c.len() + 1,
        successor(m, c.last().id, s).chain_root == c[0].id,
{
    assert(is_version(db, scope, c, 0));
    assert(is_version(db, scope, c, c.len() - 1));
}

/// Superseding the last version of a chain makes the new statement its last: the
/// versions before it keep their places, and the one that gave way names it.
#[verifier::rlimit(40)]
#[verifier::spinoff_prover]
pub proof fn lemma_supersede_extends_chain(
    db: Db,
    scope: RowScope,
    c: Seq<StatementModel>,
    s: StatementModel,
    ctx: WriteContext,
)
    requires
        rooted(db),
        is_chain(db, scope, c),
        c.len() < u32::MAX,
        superseded(db, scope, c.last().id, s, ctx) is Ok,
        !(s.subject is Pending),
        !s.tombstoned,
        rows_fit(db, scope, c.last().id, s, ctx),
    ensures
        ({
            let after = superseded(db, scope, c.last().id, s, ctx)->Ok_0.0;
            let e = extended(db, c, s, ctx);
            &&& is_chain(after, scope, e)
            &&& rooted(after)
            &&& e.len() == c.len() + 1
            &&& e.last().id == s.id
            &&& e[c.len() - 1].superseded_by == Some(s.id)
            &&& forall|i: int| 0 <= i < c.len() ==> (#[trigger] e[i]).id == c[i].id
        }),
{
    let old_id = c.last().id;
    let m = supersede_checked(db, old_id, s)->Ok_0;
    let last = outdated_model(m, s, ctx.now_unix_nanos);
    let new = Statement {
        confidence: stored_confidence(db, s, ctx.aggregated_at_extraction)->Ok_0,
        ..successor(m, old_id, s)
    };
    lemma_superseded_grew(db, scope, c, s, ctx);
    lemma_grown_chain(db, superseded(db, scope, old_id, s, ctx)->Ok_0.0, scope, c, last, new);
}

// What else happens leaves a chain as it is.

/// Two forms of a statement have the same place in a chain.
pub open spec fn same_place(a: StatementModel, b: StatementModel) -> bool {
    a.id == b.id && a.version == b.version && a.chain_root == b.chain_root && a.supersedes == b.supersedes
}

/// The index of chains changed at most under a key that has nothing to do with
/// the chain.
spec fn apart(db: Db, after: Db, scope: RowScope, c: Seq<StatementModel>, extra: Seq<u8>) -> bool {
    &&& !has_prefix(extra, scope_key(scope) + c[0].id.0@)
    &&& forall|i: int| 0 <= i < c.len() ==> extra != chain_key(scope, (#[trigger] c[i]).id.0, 1)
    &&& forall|k: Seq<u8>|
        k != extra ==> #[trigger] lookup(after, Table::StatementChain, k) == lookup(db, Table::StatementChain, k)
}

proof fn lemma_kept_chain(
    db: Db,
    after: Db,
    scope: RowScope,
    c: Seq<StatementModel>,
    e: Seq<StatementModel>,
    extra: Seq<u8>,
)
    requires
        is_chain(db, scope, c),
        e.len() == c.len(),
        forall|i: int| 0 <= i < c.len() ==> same_place(#[trigger] e[i], c[i]) && holds(after, scope, e[i]),
        apart(db, after, scope, c, extra),
    ensures
        is_chain(after, scope, e),
{
    let root = c[0].id.0;
    assert(e[0].id == c[0].id);
    assert forall|i: int| 0 <= i < e.len() implies #[trigger] is_version(after, scope, e, i) by {
        assert(is_version(db, scope, c, i));
        assert(same_place(e[i], c[i]));
        lemma_chain_key(scope, root, c[i].version);
        if i > 0 {
            assert(same_place(e[i - 1], c[i - 1]));
        }
    }
    assert forall|k: Seq<u8>| #[trigger]
        after.dom().contains((Table::StatementChain, k)) && has_prefix(k, scope_key(scope) + e[0].id.0@) implies
        is_version_key(scope, e, k) by {
        assert(lookup(after, Table::StatementChain, k) is Some);
        assert(lookup(db, Table::StatementChain, k) is Some);
        let i = choose|i: int| 0 <= i < c.len() && k == chain_key(scope, c[0].id.0, (#[trigger] c[i]).version);
        assert(e[i].version == c[i].version);
    }
}

/// A key of another chain has nothing to do with this one.
proof fn lemma_other_key(
    db: Db,
    scope: RowScope,
    c: Seq<StatementModel>,
    at: RowScope,
    root: [u8; 16],
    version: u32,
)
    requires
        is_chain(db, scope, c),
        root != c[0].id.0,
        version > 1 || lookup(db, Table::Statements, root@) is None,
    ensures
        !has_prefix(chain_key(at, root, version), scope_key(scope) + c[0].id.0@),
        forall|i: int| 0 <= i < c.len() ==> chain_key(at, root, version) != chain_key(scope, (#[trigger] c[i]).id.0, 1),
{
    let k = chain_key(at, root, version);
    if has_prefix(k, scope_key(scope) + c[0].id.0@) {
        lemma_prefix_of_key(at, root, version, scope, c[0].id.0);
    }
    assert forall|i: int| 0 <= i < c.len() implies k != chain_key(scope, (#[trigger] c[i]).id.0, 1) by {
        assert(is_version(db, scope, c, i));
        if k == chain_key(scope, c[i].id.0, 1) {
            lemma_chain_key_injective(at, root, version, scope, c[i].id.0, 1);
        }
    }
}

/// A new statement that supersedes nothing leaves every chain as it is.
pub proof fn lemma_append_keeps_chain(
    db: Db,
    scope: RowScope,
    c: Seq<StatementModel>,
    at: RowScope,
    s: StatementModel,
    ctx: WriteContext,
)
    requires
        is_chain(db, scope, c),
        lookup(db, Table::Statements, s.id.0@) is None,
        appended(db, at, s, ctx) is Ok,
        is_root(s),
        row_fits(at, s),
    ensures
        is_chain(appended(db, at, s, ctx)->Ok_0.0, scope, c),
{
    let after = appended(db, at, s, ctx)->Ok_0.0;
    lemma_appended(db, at, s, ctx);
    let extra = chain_key(at, s.id.0, 1);
    assert(is_version(db, scope, c, 0));
    lemma_other_key(db, scope, c, at, s.id.0, 1);
    assert forall|i: int| 0 <= i < c.len() implies same_place(#[trigger] c[i], c[i]) && holds(after, scope, c[i]) by {
        assert(is_version(db, scope, c, i));
    }
    assert(apart(db, after, scope, c, extra));
    lemma_kept_chain(db, after, scope, c, c, extra);
}

/// Superseding the last version of one chain leaves every other as it is.
pub proof fn lemma_supersede_keeps_chain(
    db: Db,
    scope: RowScope,
    c: Seq<StatementModel>,
    at: RowScope,
    other: Seq<StatementModel>,
    s: StatementModel,
    ctx: WriteContext,
)
    requires
        is_chain(db, scope, c),
        is_chain(db, at, other),
        other[0].id != c[0].id,
        other.len() < u32::MAX,
        superseded(db, at, other.last().id, s, ctx) is Ok,
        !(s.subject is Pending),
        !s.tombstoned,
        rows_fit(db, at, other.last().id, s, ctx),
    ensures
        is_chain(superseded(db, at, other.last().id, s, ctx)->Ok_0.0, scope, c),
{
    let m = supersede_checked(db, other.last().id, s)->Ok_0;
    let last = outdated_model(m, s, ctx.now_unix_nanos);
    let new = Statement {
        confidence: stored_confidence(db, s, ctx.aggregated_at_extraction)->Ok_0,
        ..successor(m, other.last().id, s)
    };
    lemma_superseded_grew(db, at, other, s, ctx);
    lemma_grown_keeps(db, superseded(db, at, other.last().id, s, ctx)->Ok_0.0, scope, c, at, other, last, new);
}

proof fn lemma_grown_keeps(
    db: Db,
    after: Db,
    scope: RowScope,
    c: Seq<StatementModel>,
    at: RowScope,
    other: Seq<StatementModel>,
    last: StatementModel,
    new: StatementModel,
)
    requires
        is_chain(db, scope, c),
        is_chain(db, at, other),
        other[0].id != c[0].id,
        other.len() < u32::MAX,
        grew(db, after, at, other, last, new),
    ensures
        is_chain(after, scope, c),
{
    let extra = chain_key(at, other[0].id.0, new.version);
    assert(is_version(db, at, other, 0));
    assert(is_version(db, at, other, other.len() - 1));
    lemma_other_key(db, scope, c, at, other[0].id.0, new.version);
    assert forall|i: int| 0 <= i < c.len() implies same_place(#[trigger] c[i], c[i]) && holds(after, scope, c[i]) by {
        assert(is_version(db, scope, c, i));
        if c[i].id.0@ == last.id.0@ {
            assert(c[i].id.0 =~= last.id.0);
            assert(c[i].chain_root == other.last().chain_root);
        }
    }
    assert(apart(db, after, scope, c, extra));
    lemma_kept_chain(db, after, scope, c, c, extra);
}

/// Tombstoning leaves every statement at its place in its chain.
pub proof fn lemma_tombstone_keeps_chain(
    db: Db,
    scope: RowScope,
    c: Seq<StatementModel>,
    id: StatementId,
    reason: TombstoneReason,
    at: u64,
)
    requires
        is_chain(db, scope, c),
        tombstoned(db, id, reason, at) is Ok,
        slot::<StatementMetadata>(db, Table::Statements, id.0@) matches Slot::Row(m) ==> m.statement_id_bytes == id.0
            && fits::<StatementMetadata>(buried(m, reason, at)),
    ensures
        exists|e: Seq<StatementModel>| #[trigger]
            is_chain(tombstoned(db, id, reason, at)->Ok_0, scope, e) && e.len() == c.len() && (forall|i: int|
                0 <= i < c.len() ==> same_place(#[trigger] e[i], c[i])),
{
    let m = slot::<StatementMetadata>(db, Table::Statements, id.0@)->Row_0;
    let after = tombstoned(db, id, reason, at)->Ok_0;
    let row = buried(m, reason, at);
    let buried_model = statement_of(row)->Some_0;
    let e = if m.tombstoned != 0 {
        c
    } else {
        c.map_values(
            |s: StatementModel|
                if s.id == id {
                    buried_model
                } else {
                    s
                },
        )
    };
    if m.tombstoned == 0 {
        lemma_parsed::<StatementMetadata>(row);
        assert(lookup(after, Table::Statements, id.0@) == Some(image::<StatementMetadata>(row)));
        assert forall|k: Seq<u8>| k != id.0@ implies #[trigger] lookup(after, Table::Statements, k) == lookup(
            db,
            Table::Statements,
            k,
        ) by {}
        assert forall|k: Seq<u8>| #[trigger]
            lookup(after, Table::StatementChain, k) == lookup(db, Table::StatementChain, k) by {}
    }
    assert forall|i: int| 0 <= i < c.len() implies same_place(#[trigger] e[i], c[i]) && holds(after, scope, e[i]) by {
        assert(is_version(db, scope, c, i));
        if c[i].id.0@ == id.0@ {
            assert(c[i].id.0 =~= id.0);
        }
    }
    let none = Seq::<u8>::empty();
    assert(apart(db, after, scope, c, none)) by {
        lemma_chain_key(scope, c[0].id.0, 1);
        assert forall|i: int| 0 <= i < c.len() implies none != chain_key(scope, (#[trigger] c[i]).id.0, 1) by {
            lemma_chain_key(scope, c[i].id.0, 1);
        }
    }
    lemma_kept_chain(db, after, scope, c, e, none);
}

} // verus!
