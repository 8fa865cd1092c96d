//! Rows of the metadata tables inside one transaction.

use redb::{Database, ReadTransaction, WriteTransaction};
use vstd::prelude::*;

use crate::catalog::{lemma_names_differ, Table};
use crate::order::{
    end_of_prefix, has_prefix, lemma_lex_irreflexive, lemma_lex_total, lemma_lex_transitive, lemma_prefix_range,
    lex_lt, prefix_end,
};
use crate::redb_txn::{
    begin_read, begin_write, commit, database_rows, database_tables, has_table, is_range, keys_of, read_get, read_home,
    read_len, read_range, read_rows, read_tables, write_get, write_home, write_insert, write_range, write_remove,
    write_rows, write_tables,
};

verus! {

/// The state of a database, or of a transaction on it.
#[verifier::ext_equal]
pub struct Db {
    /// The value bytes under each key of each table.
    pub rows: Map<(Table, Seq<u8>), Seq<u8>>,
    /// The database, as it was when the transaction began.
    pub home: Database,
}

impl Db {
    /// The tables and keys with a value.
    #[verifier::inline]
    pub open spec fn dom(self) -> Set<(Table, Seq<u8>)> {
        self.rows.dom()
    }

    /// The value of a table under a key.
    #[verifier::inline]
    pub open spec fn spec_index(self, tk: (Table, Seq<u8>)) -> Seq<u8> {
        self.rows[tk]
    }

    /// The state with a value under a key.
    pub open spec fn insert(self, tk: (Table, Seq<u8>), value: Seq<u8>) -> Db {
        Db { rows: self.rows.insert(tk, value), home: self.home }
    }

    /// The state without a value under a key.
    pub open spec fn remove(self, tk: (Table, Seq<u8>)) -> Db {
        Db { rows: self.rows.remove(tk), home: self.home }
    }
}

/// A key and its value, as a scan hands them out.
pub type Entry = (Vec<u8>, Vec<u8>);

/// The rows under the tables' names, by table.
pub open spec fn by_table(rows: Map<(Seq<char>, Seq<u8>), Seq<u8>>) -> Map<(Table, Seq<u8>), Seq<u8>> {
    Map::new(
        |tk: (Table, Seq<u8>)| rows.dom().contains((tk.0.spec_name(), tk.1)),
        |tk: (Table, Seq<u8>)| rows[(tk.0.spec_name(), tk.1)],
    )
}

/// The rows that a write transaction sees.
pub open spec fn wdb(txn: WriteTransaction) -> Db {
    Db { rows: by_table(write_rows(txn)), home: write_home(txn) }
}

/// The rows that a read transaction sees.
pub open spec fn rdb(txn: ReadTransaction) -> Db {
    Db { rows: by_table(read_rows(txn)), home: read_home(txn) }
}

/// The rows that a database holds since the last commit.
pub open spec fn ddb(db: Database) -> Db {
    Db { rows: by_table(database_rows(db)), home: db }
}

/// Whether a table exists in the snapshot of a read transaction.
pub open spec fn opened(txn: ReadTransaction, t: Table) -> bool {
    read_tables(txn).contains(t.spec_name())
}

/// Whether every table of a write transaction is still there.
pub open spec fn tables_kept(before: WriteTransaction, after: WriteTransaction) -> bool {
    write_tables(before).subset_of(write_tables(after))
}

/// The value under a key, if there is one.
pub open spec fn lookup(db: Db, t: Table, key: Seq<u8>) -> Option<Seq<u8>> {
    if db.dom().contains((t, key)) {
        Some(db[(t, key)])
    } else {
        None
    }
}

/// `s` lists those of `rows` that are in `t` and whose keys begin with `prefix`, in
/// key order.
pub open spec fn lists(
    rows: Map<(Table, Seq<u8>), Seq<u8>>,
    t: Table,
    prefix: Seq<u8>,
    s: Seq<(Seq<u8>, Seq<u8>)>,
) -> bool {
    &&& forall|i: int, j: int| 0 <= i < j < s.len() ==> lex_lt(#[trigger] s[i].0, #[trigger] s[j].0)
    &&& forall|i: int|
        0 <= i < s.len() ==> has_prefix((#[trigger] s[i]).0, prefix) && rows.dom().contains((t, s[i].0)) && rows[(
            t,
            s[i].0,
        )] == s[i].1
    &&& forall|k: Seq<u8>| #[trigger]
        rows.dom().contains((t, k)) && has_prefix(k, prefix) ==> exists|i: int| 0 <= i < s.len() && (#[trigger] s[i]).0
            == k
}

/// `s` lists the rows of `t` whose keys begin with `prefix`, in key order.
#[verifier::inline]
pub open spec fn is_scan(db: Db, t: Table, prefix: Seq<u8>, s: Seq<(Seq<u8>, Seq<u8>)>) -> bool {
    lists(db.rows, t, prefix, s)
}

/// The rows of `t` whose keys begin with `prefix`, in key order.
pub open spec fn scan(db: Db, t: Table, prefix: Seq<u8>) -> Seq<(Seq<u8>, Seq<u8>)> {
    choose|s: Seq<(Seq<u8>, Seq<u8>)>| lists(db.rows, t, prefix, s)
}

/// Whether the rows of `t` whose keys begin with `prefix` can be listed, so that
/// [`scan`] lists them.
#[verifier::opaque]
pub open spec fn scanned(db: Db, t: Table, prefix: Seq<u8>) -> bool {
    is_scan(db, t, prefix, scan(db, t, prefix))
}

/// Rows that can be listed are listed by [`scan`].
pub proof fn lemma_scanned(db: Db, t: Table, prefix: Seq<u8>)
    ensures
        scanned(db, t, prefix) == is_scan(db, t, prefix, scan(db, t, prefix)),
{
    reveal(scanned);
}

/// The keys and values of held entries.
pub open spec fn entry_models(entries: Seq<Entry>) -> Seq<(Seq<u8>, Seq<u8>)> {
    entries.map_values(|kv: Entry| (kv.0@, kv.1@))
}

proof fn lemma_scan_agrees(
    db: Db,
    t: Table,
    prefix: Seq<u8>,
    a: Seq<(Seq<u8>, Seq<u8>)>,
    b: Seq<(Seq<u8>, Seq<u8>)>,
    n: int,
)
    requires
        is_scan(db, t, prefix, a),
        is_scan(db, t, prefix, b),
        0 <= n <= a.len(),
    ensures
        n <= b.len(),
        forall|i: int| 0 <= i < n ==> a[i] == b[i],
    decreases n,
{
    if n > 0 {
        lemma_scan_agrees(db, t, prefix, a, b, n - 1);
        let ka = a[n - 1].0;
        assert(db.dom().contains((t, ka)));
        let j = choose|j: int| 0 <= j < b.len() && (#[trigger] b[j]).0 == ka;
        if j < n - 1 {
            assert(a[j].0 == ka);
            assert(lex_lt(a[j].0, a[n - 1].0));
            lemma_lex_irreflexive(ka);
        }
        let kb = b[n - 1].0;
        assert(db.dom().contains((t, kb)));
        let i = choose|i: int| 0 <= i < a.len() && (#[trigger] a[i]).0 == kb;
        if i < n - 1 {
            assert(b[i].0 == kb);
            assert(lex_lt(b[i].0, b[n - 1].0));
            lemma_lex_irreflexive(kb);
        }
        if j > n - 1 {
            assert(lex_lt(b[n - 1].0, b[j].0));
            if i > n - 1 {
                assert(lex_lt(a[n - 1].0, a[i].0));
                lemma_lex_transitive(ka, kb, ka);
            }
            lemma_lex_irreflexive(ka);
        }
        assert(ka == kb);
    }
}

/// There is only one such list.
pub proof fn lemma_scan_unique(db: Db, t: Table, prefix: Seq<u8>, s: Seq<(Seq<u8>, Seq<u8>)>)
    requires
        is_scan(db, t, prefix, s),
    ensures
        scan(db, t, prefix) == s,
{
    let c = scan(db, t, prefix);
    lemma_scan_agrees(db, t, prefix, s, c, s.len() as int);
    lemma_scan_agrees(db, t, prefix, c, s, c.len() as int);
    assert(c =~= s);
}

/// `k` put in its place among strings in order.
proof fn lemma_put_in_order(t: Seq<Seq<u8>>, k: Seq<u8>) -> (s: Seq<Seq<u8>>)
    requires
        forall|i: int, j: int| 0 <= i < j < t.len() ==> lex_lt(#[trigger] t[i], #[trigger] t[j]),
        !t.contains(k),
    ensures
        forall|i: int, j: int| 0 <= i < j < s.len() ==> lex_lt(#[trigger] s[i], #[trigger] s[j]),
        forall|x: Seq<u8>| #[trigger] s.contains(x) <==> t.contains(x) || x == k,
    decreases t.len(),
{
    if t.len() == 0 {
        let s = seq![k];
        assert(s[0] == k);
        s
    } else {
        let last = t.last();
        assert(t[t.len() - 1] == last);
        lemma_lex_total(last, k);
        if lex_lt(last, k) {
            let s = t.push(k);
            assert forall|i: int, j: int| 0 <= i < j < s.len() implies lex_lt(#[trigger] s[i], #[trigger] s[j]) by {
                if j == t.len() && i < t.len() - 1 {
                    lemma_lex_transitive(t[i], last, k);
                }
            }
            assert forall|x: Seq<u8>| #[trigger] s.contains(x) <==> t.contains(x) || x == k by {
                if t.contains(x) {
                    let i = t.index_of(x);
                    assert(s[i] == x);
                }
                assert(s[t.len() as int] == k);
            }
            s
        } else {
            let head = t.drop_last();
            assert(!head.contains(k)) by {
                if head.contains(k) {
                    let i = head.index_of(k);
                    assert(t[i] == k);
                }
            }
            let u = lemma_put_in_order(head, k);
            let s = u.push(last);
            assert forall|i: int, j: int| 0 <= i < j < s.len() implies lex_lt(#[trigger] s[i], #[trigger] s[j]) by {
                if j == u.len() {
                    assert(u.contains(u[i]));
                    if u[i] != k {
                        let h = head.index_of(u[i]);
                        assert(t[h] == u[i]);
                    }
                }
            }
            assert forall|x: Seq<u8>| #[trigger] s.contains(x) <==> t.contains(x) || x == k by {
                if t.contains(x) {
                    let i = t.index_of(x);
                    if i < head.len() {
                        assert(head[i] == x);
                        assert(u.contains(x));
                    }
                }
                if u.contains(x) {
                    let i = u.index_of(x);
                    assert(s[i] == x);
                }
                if head.contains(x) {
                    let i = head.index_of(x);
                    assert(t[i] == x);
                }
                assert(s[u.len() as int] == last);
                if s.contains(x) {
                    let i = s.index_of(x);
                    if i < u.len() {
                        assert(u[i] == x);
                    }
                }
            }
            s
        }
    }
}

/// The members of a finite set of strings, in order.
proof fn lemma_in_order(keys: Set<Seq<u8>>) -> (s: Seq<Seq<u8>>)
    requires
        keys.finite(),
    ensures
        forall|i: int, j: int| 0 <= i < j < s.len() ==> lex_lt(#[trigger] s[i], #[trigger] s[j]),
        forall|k: Seq<u8>| #[trigger] s.contains(k) <==> keys.contains(k),
    decreases keys.len(),
{
    if keys.len() == 0 {
        assert(keys =~= Set::<Seq<u8>>::empty());
        Seq::empty()
    } else {
        let k = keys.choose();
        let t = lemma_in_order(keys.remove(k));
        assert(!t.contains(k));
        let s = lemma_put_in_order(t, k);
        assert forall|x: Seq<u8>| #[trigger] s.contains(x) <==> keys.contains(x) by {
            assert(t.contains(x) <==> keys.remove(k).contains(x));
        }
        s
    }
}

/// A database with finitely many rows, as every one is, can be listed.
pub proof fn lemma_scan_exists(db: Db, t: Table, prefix: Seq<u8>)
    requires
        db.rows.dom().finite(),
    ensures
        is_scan(db, t, prefix, scan(db, t, prefix)),
{
    let keys = Set::new(|k: Seq<u8>| db.dom().contains((t, k)) && has_prefix(k, prefix));
    let all = db.dom().map(|tk: (Table, Seq<u8>)| tk.1);
    db.dom().lemma_map_finite(|tk: (Table, Seq<u8>)| tk.1);
    assert forall|k: Seq<u8>| keys.contains(k) implies all.contains(k) by {
        assert(db.dom().contains((t, k)));
        assert((t, k).1 == k);
    }
    vstd::set_lib::lemma_set_subset_finite(all, keys);
    let listed = lemma_in_order(keys);
    let s = listed.map_values(|k: Seq<u8>| (k, db[(t, k)]));
    assert forall|i: int| 0 <= i < s.len() implies has_prefix((#[trigger] s[i]).0, prefix) && lookup(db, t, s[i].0)
        == Some(s[i].1) by {
        assert(listed.contains(listed[i]));
    }
    assert forall|i: int, j: int| 0 <= i < j < s.len() implies lex_lt(#[trigger] s[i].0, #[trigger] s[j].0) by {
        assert(lex_lt(listed[i], listed[j]));
    }
    assert forall|k: Seq<u8>| #[trigger] db.dom().contains((t, k)) && has_prefix(k, prefix) implies exists|i: int|
        0 <= i < s.len() && (#[trigger] s[i]).0 == k by {
        assert(listed.contains(k));
        let i = listed.index_of(k);
        assert(s[i].0 == k);
    }
    assert(is_scan(db, t, prefix, s));
}

/// A row under another name leaves the table as it is.
proof fn lemma_insert_by_table(rows: Map<(Seq<char>, Seq<u8>), Seq<u8>>, t: Table, key: Seq<u8>, value: Seq<u8>)
    ensures
        by_table(rows.insert((t.spec_name(), key), value)) == by_table(rows).insert((t, key), value),
{
    assert forall|u: Table| u != t implies u.spec_name() != t.spec_name() by {
        lemma_names_differ(u, t);
    }
    assert(by_table(rows.insert((t.spec_name(), key), value)) =~= by_table(rows).insert((t, key), value));
}

proof fn lemma_remove_by_table(rows: Map<(Seq<char>, Seq<u8>), Seq<u8>>, t: Table, key: Seq<u8>)
    ensures
        by_table(rows.remove((t.spec_name(), key))) == by_table(rows).remove((t, key)),
{
    assert forall|u: Table| u != t implies u.spec_name() != t.spec_name() by {
        lemma_names_differ(u, t);
    }
    assert(by_table(rows.remove((t.spec_name(), key))) =~= by_table(rows).remove((t, key)));
}

/// Reads the value under a key.
pub fn get(txn: &mut WriteTransaction, t: Table, key: &[u8]) -> (r: Result<Option<Vec<u8>>, redb::Error>)
    ensures
        wdb(*final(txn)) == wdb(*old(txn)),
        tables_kept(*old(txn), *final(txn)),
        r is Ok ==> write_tables(*final(txn)) == write_tables(*old(txn)).insert(t.spec_name()),
        r matches Ok(None) ==> lookup(wdb(*old(txn)), t, key@) is None,
        r matches Ok(Some(v)) ==> lookup(wdb(*old(txn)), t, key@) == Some(v@),
{
    write_get(txn, t.name(), key)
}

/// Puts a value under a key, in place of the one that was there. The transaction
/// stays one of its database, also where redb fails.
pub fn put(txn: &mut WriteTransaction, t: Table, key: &[u8], value: &[u8]) -> (r: Result<(), redb::Error>)
    ensures
        wdb(*final(txn)).home == wdb(*old(txn)).home,
        tables_kept(*old(txn), *final(txn)),
        r is Ok ==> write_tables(*final(txn)) == write_tables(*old(txn)).insert(t.spec_name()),
        r is Ok ==> wdb(*final(txn)) == wdb(*old(txn)).insert((t, key@), value@),
{
    proof {
        lemma_insert_by_table(write_rows(*old(txn)), t, key@, value@);
    }
    write_insert(txn, t.name(), key, value)
}

/// Removes a key, and tells whether it was there. The transaction stays one of its
/// database, also where redb fails.
pub fn del(txn: &mut WriteTransaction, t: Table, key: &[u8]) -> (r: Result<bool, redb::Error>)
    ensures
        wdb(*final(txn)).home == wdb(*old(txn)).home,
        tables_kept(*old(txn), *final(txn)),
        r is Ok ==> write_tables(*final(txn)) == write_tables(*old(txn)).insert(t.spec_name()),
        r is Ok ==> wdb(*final(txn)) == wdb(*old(txn)).remove((t, key@)),
        r matches Ok(found) ==> found == wdb(*old(txn)).dom().contains((t, key@)),
{
    proof {
        lemma_remove_by_table(write_rows(*old(txn)), t, key@);
    }
    write_remove(txn, t.name(), key)
}

/// Reads the value under a key. The table must exist.
pub fn read(txn: &ReadTransaction, t: Table, key: &[u8]) -> (r: Result<Option<Vec<u8>>, redb::Error>)
    ensures
        r is Ok ==> opened(*txn, t),
        r matches Ok(None) ==> lookup(rdb(*txn), t, key@) is None,
        r matches Ok(Some(v)) ==> lookup(rdb(*txn), t, key@) == Some(v@),
{
    read_get(txn, t.name(), key)
}

/// Reads the value under a key. A table that does not exist holds none.
pub fn read_if_any(txn: &ReadTransaction, t: Table, key: &[u8]) -> (r: Result<Option<Vec<u8>>, redb::Error>)
    ensures
        r matches Ok(None) ==> lookup(rdb(*txn), t, key@) is None,
        r matches Ok(Some(v)) ==> lookup(rdb(*txn), t, key@) == Some(v@),
{
    if has_table(txn, t.name())? {
        read(txn, t, key)
    } else {
        Ok(None)
    }
}

/// The keys of a table.
pub open spec fn table_keys(db: Db, t: Table) -> Set<Seq<u8>> {
    Set::new(|k: Seq<u8>| db.dom().contains((t, k)))
}

/// The number of rows of a table, which must exist.
pub fn count(txn: &ReadTransaction, t: Table) -> (r: Result<u64, redb::Error>)
    ensures
        r is Ok ==> opened(*txn, t),
        r matches Ok(n) ==> table_keys(rdb(*txn), t).finite() && n == table_keys(rdb(*txn), t).len(),
{
    proof {
        assert(keys_of(read_rows(*txn), t.spec_name()) =~= table_keys(rdb(*txn), t));
    }
    read_len(txn, t.name())
}

/// The number of rows of a table. One that does not exist has none.
pub fn count_if_any(txn: &ReadTransaction, t: Table) -> (r: Result<u64, redb::Error>)
    ensures
        r matches Ok(n) ==> table_keys(rdb(*txn), t).finite() && n == table_keys(rdb(*txn), t).len(),
{
    if has_table(txn, t.name())? {
        count(txn, t)
    } else {
        proof {
            assert forall|k: Seq<u8>| !table_keys(rdb(*txn), t).contains(k) by {
                assert(!read_rows(*txn).dom().contains((t.spec_name(), k)));
            }
            assert(table_keys(rdb(*txn), t) =~= Set::<Seq<u8>>::empty());
        }
        Ok(0)
    }
}

/// Makes sure that a table exists: one that does not is an error.
pub fn require_table(txn: &ReadTransaction, t: Table) -> (r: Result<(), redb::Error>)
    ensures
        r is Ok ==> opened(*txn, t),
{
    match read_len(txn, t.name()) {
        Ok(_) => Ok(()),
        Err(e) => Err(e),
    }
}

proof fn lemma_range_is_scan(
    rows: Map<(Seq<char>, Seq<u8>), Seq<u8>>,
    home: Database,
    t: Table,
    prefix: Seq<u8>,
    entries: Seq<Entry>,
)
    requires
        is_range(rows, t.spec_name(), prefix, prefix_end(prefix), entries),
    ensures
        is_scan(Db { rows: by_table(rows), home }, t, prefix, entry_models(entries)),
        scan(Db { rows: by_table(rows), home }, t, prefix) == entry_models(entries),
        scanned(Db { rows: by_table(rows), home }, t, prefix),
{
    reveal(scanned);
    let db = Db { rows: by_table(rows), home };
    let s = entry_models(entries);
    assert forall|i: int| 0 <= i < s.len() implies has_prefix((#[trigger] s[i]).0, prefix) && lookup(db, t, s[i].0)
        == Some(s[i].1) by {
        lemma_prefix_range(prefix, entries[i].0@);
    }
    assert forall|i: int, j: int| 0 <= i < j < s.len() implies lex_lt(#[trigger] s[i].0, #[trigger] s[j].0) by {
        assert(lex_lt(entries[i].0@, entries[j].0@));
    }
    assert forall|k: Seq<u8>| #[trigger] db.dom().contains((t, k)) && has_prefix(k, prefix) implies exists|i: int|
        0 <= i < s.len() && (#[trigger] s[i]).0 == k by {
        lemma_prefix_range(prefix, k);
        assert(rows.dom().contains((t.spec_name(), k)));
        let i = choose|i: int| 0 <= i < entries.len() && (#[trigger] entries[i]).0@ == k;
        assert(s[i].0 == k);
    }
    lemma_scan_unique(db, t, prefix, s);
}

/// The rows of a table whose keys begin with `prefix`, in key order.
pub fn scan_prefix(txn: &mut WriteTransaction, t: Table, prefix: &[u8]) -> (r: Result<Vec<Entry>, redb::Error>)
    ensures
        wdb(*final(txn)) == wdb(*old(txn)),
        tables_kept(*old(txn), *final(txn)),
        r is Ok ==> write_tables(*final(txn)) == write_tables(*old(txn)).insert(t.spec_name()),
        r matches Ok(v) ==> is_scan(wdb(*old(txn)), t, prefix@, entry_models(v@)),
        r matches Ok(v) ==> scan(wdb(*old(txn)), t, prefix@) == entry_models(v@),
        r is Ok ==> scanned(wdb(*old(txn)), t, prefix@),
{
    let ghost rows = write_rows(*txn);
    let end = end_of_prefix(prefix);
    let hi: Option<&[u8]> = match &end {
        Some(e) => Some(e.as_slice()),
        None => None,
    };
    let entries = write_range(txn, t.name(), prefix, hi)?;
    proof {
        lemma_range_is_scan(rows, write_home(*txn), t, prefix@, entries@);
    }
    Ok(entries)
}

/// The rows of a table whose keys begin with `prefix`, in key order. The table
/// must exist.
pub fn read_prefix(txn: &ReadTransaction, t: Table, prefix: &[u8]) -> (r: Result<Vec<Entry>, redb::Error>)
    ensures
        r is Ok ==> opened(*txn, t),
        r matches Ok(v) ==> is_scan(rdb(*txn), t, prefix@, entry_models(v@)),
        r matches Ok(v) ==> scan(rdb(*txn), t, prefix@) == entry_models(v@),
        r is Ok ==> scanned(rdb(*txn), t, prefix@),
{
    let end = end_of_prefix(prefix);
    let hi: Option<&[u8]> = match &end {
        Some(e) => Some(e.as_slice()),
        None => None,
    };
    let entries = read_range(txn, t.name(), prefix, hi)?;
    proof {
        lemma_range_is_scan(read_rows(*txn), read_home(*txn), t, prefix@, entries@);
    }
    Ok(entries)
}

/// The rows of a table whose keys begin with `prefix`, in key order. A table that
/// does not exist has none.
pub fn read_prefix_if_any(txn: &ReadTransaction, t: Table, prefix: &[u8]) -> (r: Result<Vec<Entry>, redb::Error>)
    ensures
        r matches Ok(v) ==> is_scan(rdb(*txn), t, prefix@, entry_models(v@)),
        r matches Ok(v) ==> scan(rdb(*txn), t, prefix@) == entry_models(v@),
        r is Ok ==> scanned(rdb(*txn), t, prefix@),
{
    if has_table(txn, t.name())? {
        read_prefix(txn, t, prefix)
    } else {
        let none: Vec<Entry> = Vec::new();
        proof {
            assert forall|k: Seq<u8>| !#[trigger] rdb(*txn).dom().contains((t, k)) by {
                assert(!read_rows(*txn).dom().contains((t.spec_name(), k)));
            }
            reveal(scanned);
            lemma_scan_unique(rdb(*txn), t, prefix@, entry_models(none@));
        }
        Ok(none)
    }
}

/// Finitely many rows are finitely many by table.
proof fn lemma_by_table_finite(rows: Map<(Seq<char>, Seq<u8>), Seq<u8>>)
    requires
        rows.dom().finite(),
    ensures
        by_table(rows).dom().finite(),
{
    let g = |nk: (Seq<char>, Seq<u8>)| (choose|t: Table| #[trigger] t.spec_name() == nk.0, nk.1);
    rows.dom().lemma_map_finite(g);
    assert forall|tk: (Table, Seq<u8>)| by_table(rows).dom().contains(tk) implies rows.dom().map(g).contains(tk) by {
        let nk = (tk.0.spec_name(), tk.1);
        assert(rows.dom().contains(nk));
        let u = g(nk).0;
        assert(u.spec_name() == tk.0.spec_name());
        lemma_names_differ(u, tk.0);
        assert(g(nk) == tk);
    }
    vstd::set_lib::lemma_set_subset_finite(rows.dom().map(g), by_table(rows).dom());
}

/// Begins a snapshot of the last commit.
pub fn begin_snapshot(db: &Database) -> (r: Result<ReadTransaction, redb::Error>)
    ensures
        r matches Ok(t) ==> rdb(t).rows.dom().finite(),
        r matches Ok(t) ==> rdb(t) == ddb(*db) && read_tables(t) == database_tables(*db),
{
    let r = begin_read(db);
    proof {
        if r is Ok {
            lemma_by_table_finite(read_rows(r->Ok_0));
        }
    }
    r
}

/// Begins to change the rows of the last commit.
pub fn begin_change(db: &Database) -> (r: Result<WriteTransaction, redb::Error>)
    ensures
        r matches Ok(t) ==> wdb(t).rows.dom().finite(),
        r matches Ok(t) ==> wdb(t) == ddb(*db) && write_tables(t) == database_tables(*db),
{
    let r = begin_write(db);
    proof {
        if r is Ok {
            lemma_by_table_finite(write_rows(r->Ok_0));
        }
    }
    r
}

/// Makes the rows and tables of a transaction those of the database that it began on.
/// After an error it is not known whether they are.
pub fn commit_change(db: &mut Database, txn: WriteTransaction) -> (r: Result<(), redb::Error>)
    requires
        wdb(txn).home == *old(db),
    ensures
        r is Ok ==> ddb(*final(db)).rows == wdb(txn).rows,
        r is Ok ==> database_tables(*final(db)) == write_tables(txn),
{
    commit(db, txn)
}

} // verus!
