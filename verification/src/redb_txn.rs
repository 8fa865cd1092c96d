//! The redb calls that the library makes, each behind a function whose
//! contract is stated over the rows of the transaction's tables.
//!
//! Every table maps byte strings to byte strings and is known by its name. A write
//! transaction creates the tables that it opens; a table that was never created
//! holds no row, and reading it from a snapshot is an error. redb lets a shared
//! `WriteTransaction` change its tables; the functions here take it by `&mut`,
//! so a change of rows is a change of the value.

use std::ops::Bound;

use redb::{
    Database, ReadTransaction, ReadableDatabase, ReadableTable, ReadableTableMetadata, TableDefinition, TableError,
    WriteTransaction,
};
use vstd::prelude::*;

use crate::order::{lex_le, lex_lt};

verus! {

#[verifier::external_type_specification]
#[verifier::external_body]
pub struct ExWriteTransaction(WriteTransaction);

#[verifier::external_type_specification]
#[verifier::external_body]
pub struct ExReadTransaction(ReadTransaction);

#[verifier::external_type_specification]
#[verifier::external_body]
pub struct ExDatabase(Database);

#[verifier::external_type_specification]
#[verifier::external_body]
pub struct ExRedbError(redb::Error);

/// The rows that a write transaction sees, by table name and key.
pub uninterp spec fn write_rows(txn: WriteTransaction) -> Map<(Seq<char>, Seq<u8>), Seq<u8>>;

/// The database that a write transaction began on, as it was then.
pub uninterp spec fn write_home(txn: WriteTransaction) -> Database;

/// The names of the tables that exist inside a write transaction.
pub uninterp spec fn write_tables(txn: WriteTransaction) -> Set<Seq<char>>;

/// The names of the tables that exist in the snapshot that a read transaction
/// sees.
pub uninterp spec fn read_tables(txn: ReadTransaction) -> Set<Seq<char>>;

/// The rows of the snapshot that a read transaction sees, by table name and
/// key.
pub uninterp spec fn read_rows(txn: ReadTransaction) -> Map<(Seq<char>, Seq<u8>), Seq<u8>>;

/// The database that a read transaction began on, as it was then.
pub uninterp spec fn read_home(txn: ReadTransaction) -> Database;

/// The committed rows of a database, by table name and key.
pub uninterp spec fn database_rows(db: Database) -> Map<(Seq<char>, Seq<u8>), Seq<u8>>;

/// The names of the tables that a database holds since the last commit.
pub uninterp spec fn database_tables(db: Database) -> Set<Seq<char>>;

/// `entries` are the rows of `table` whose keys are not before `lo` and before
/// `hi`, if there is one, in key order.
pub open spec fn is_range(
    rows: Map<(Seq<char>, Seq<u8>), Seq<u8>>,
    table: Seq<char>,
    lo: Seq<u8>,
    hi: Option<Seq<u8>>,
    entries: Seq<(Vec<u8>, Vec<u8>)>,
) -> bool {
    &&& forall|i: int, j: int| 0 <= i < j < entries.len() ==> lex_lt(#[trigger] entries[i].0@, #[trigger] entries[j].0@)
    &&& forall|i: int|
        0 <= i < entries.len() ==> in_bounds((#[trigger] entries[i]).0@, lo, hi) && rows.dom().contains(
            (table, entries[i].0@),
        ) && rows[(table, entries[i].0@)] == entries[i].1@
    &&& forall|k: Seq<u8>| #[trigger]
        rows.dom().contains((table, k)) && in_bounds(k, lo, hi) ==> exists|i: int|
            0 <= i < entries.len() && (#[trigger] entries[i]).0@ == k
}

/// `k` is not before `lo`, and before `hi` if there is one.
pub open spec fn in_bounds(k: Seq<u8>, lo: Seq<u8>, hi: Option<Seq<u8>>) -> bool {
    lex_le(lo, k) && (hi matches Some(h) ==> lex_lt(k, h))
}

/// The bytes of an optional bound.
pub open spec fn bound_bytes(hi: Option<&[u8]>) -> Option<Seq<u8>> {
    match hi {
        Some(h) => Some(h@),
        None => None,
    }
}

/// The keys of `table`.
pub open spec fn keys_of(rows: Map<(Seq<char>, Seq<u8>), Seq<u8>>, table: Seq<char>) -> Set<Seq<u8>> {
    Set::new(|k: Seq<u8>| rows.dom().contains((table, k)))
}

/// `redb::WriteTransaction::open_table`: afterwards the table exists, as it was
/// or empty. No row changes and no table goes away, also where it fails.
#[verifier::external_body]
pub(crate) fn create_table(txn: &mut WriteTransaction, table: &str) -> (r: Result<(), redb::Error>)
    requires
        table@.len() > 0,
    ensures
        write_rows(*final(txn)) == write_rows(*old(txn)),
        write_home(*final(txn)) == write_home(*old(txn)),
        write_tables(*old(txn)).subset_of(write_tables(*final(txn))),
        r is Ok ==> write_tables(*final(txn)) == write_tables(*old(txn)).insert(table@),
{
    txn.open_table(TableDefinition::<&[u8], &[u8]>::new(table))?;
    Ok(())
}

/// `redb::Table::get`: the value stored under the key. The table is created if
/// it does not exist; no row changes and no table goes away, also where opening
/// or reading fails.
#[verifier::external_body]
pub(crate) fn write_get(txn: &mut WriteTransaction, table: &str, key: &[u8]) -> (r: Result<Option<Vec<u8>>, redb::Error>)
    requires
        table@.len() > 0,
    ensures
        write_rows(*final(txn)) == write_rows(*old(txn)),
        write_home(*final(txn)) == write_home(*old(txn)),
        write_tables(*old(txn)).subset_of(write_tables(*final(txn))),
        r is Ok ==> write_tables(*final(txn)) == write_tables(*old(txn)).insert(table@),
        r matches Ok(None) ==> !write_rows(*old(txn)).dom().contains((table@, key@)),
        r matches Ok(Some(v)) ==> write_rows(*old(txn)).dom().contains((table@, key@)) && write_rows(*old(txn))[(
            table@,
            key@,
        )] == v@,
{
    let t = txn.open_table(TableDefinition::<&[u8], &[u8]>::new(table))?;
    let found = t.get(key)?;
    Ok(found.map(|guard| guard.value().to_vec()))
}

/// `redb::Table::insert`: the key maps to the value afterwards, whatever it
/// mapped to before. The table is created if it does not exist. After an error
/// the rows are not known, but no table went away.
#[verifier::external_body]
pub(crate) fn write_insert(txn: &mut WriteTransaction, table: &str, key: &[u8], value: &[u8]) -> (r: Result<
    (),
    redb::Error,
>)
    requires
        table@.len() > 0,
    ensures
        write_home(*final(txn)) == write_home(*old(txn)),
        write_tables(*old(txn)).subset_of(write_tables(*final(txn))),
        r is Ok ==> write_tables(*final(txn)) == write_tables(*old(txn)).insert(table@),
        r is Ok ==> write_rows(*final(txn)) == write_rows(*old(txn)).insert((table@, key@), value@),
{
    let mut t = txn.open_table(TableDefinition::<&[u8], &[u8]>::new(table))?;
    t.insert(key, value)?;
    Ok(())
}

/// `redb::Table::remove`: the key is gone afterwards, and the result says
/// whether it was there. The table is created if it does not exist. After an
/// error the rows are not known, but no table went away.
#[verifier::external_body]
pub(crate) fn write_remove(txn: &mut WriteTransaction, table: &str, key: &[u8]) -> (r: Result<bool, redb::Error>)
    requires
        table@.len() > 0,
    ensures
        write_home(*final(txn)) == write_home(*old(txn)),
        write_tables(*old(txn)).subset_of(write_tables(*final(txn))),
        r is Ok ==> write_tables(*final(txn)) == write_tables(*old(txn)).insert(table@),
        r is Ok ==> write_rows(*final(txn)) == write_rows(*old(txn)).remove((table@, key@)),
        r matches Ok(found) ==> found == write_rows(*old(txn)).dom().contains((table@, key@)),
{
    let mut t = txn.open_table(TableDefinition::<&[u8], &[u8]>::new(table))?;
    let found = t.remove(key)?.is_some();
    Ok(found)
}

/// `redb::Table::range`: the rows between the bounds, ascending. redb orders
/// byte-string keys lexicographically. The table is created if it does not exist;
/// no row changes and no table goes away, also where it fails.
#[verifier::external_body]
pub(crate) fn write_range(txn: &mut WriteTransaction, table: &str, lo: &[u8], hi: Option<&[u8]>) -> (r: Result<
    Vec<(Vec<u8>, Vec<u8>)>,
    redb::Error,
>)
    requires
        table@.len() > 0,
    ensures
        write_rows(*final(txn)) == write_rows(*old(txn)),
        write_home(*final(txn)) == write_home(*old(txn)),
        write_tables(*old(txn)).subset_of(write_tables(*final(txn))),
        r is Ok ==> write_tables(*final(txn)) == write_tables(*old(txn)).insert(table@),
        r matches Ok(entries) ==> is_range(write_rows(*old(txn)), table@, lo@, bound_bytes(hi), entries@),
{
    let t = txn.open_table(TableDefinition::<&[u8], &[u8]>::new(table))?;
    let bounds = (Bound::Included(lo), hi.map_or(Bound::Unbounded, Bound::Excluded));
    let mut entries = Vec::new();
    for entry in t.range::<&[u8]>(bounds)? {
        let (k, v) = entry?;
        entries.push((k.value().to_vec(), v.value().to_vec()));
    }
    Ok(entries)
}

/// `redb::ReadTransaction::open_table`, for what it says of the table: whether it
/// exists. One that does not holds no row.
#[verifier::external_body]
pub(crate) fn has_table(txn: &ReadTransaction, table: &str) -> (r: Result<bool, redb::Error>)
    requires
        table@.len() > 0,
    ensures
        r matches Ok(found) ==> found == read_tables(*txn).contains(table@),
        r matches Ok(false) ==> forall|k: Seq<u8>| !#[trigger] read_rows(*txn).dom().contains((table@, k)),
{
    match txn.open_table(TableDefinition::<&[u8], &[u8]>::new(table)) {
        Ok(_) => Ok(true),
        Err(TableError::TableDoesNotExist(_)) => Ok(false),
        Err(e) => Err(e.into()),
    }
}

/// `redb::ReadOnlyTable::get`: the value stored under the key. A table that
/// does not exist is an error.
#[verifier::external_body]
pub(crate) fn read_get(txn: &ReadTransaction, table: &str, key: &[u8]) -> (r: Result<Option<Vec<u8>>, redb::Error>)
    requires
        table@.len() > 0,
    ensures
        r is Ok ==> read_tables(*txn).contains(table@),
        r matches Ok(None) ==> !read_rows(*txn).dom().contains((table@, key@)),
        r matches Ok(Some(v)) ==> read_rows(*txn).dom().contains((table@, key@)) && read_rows(*txn)[(table@, key@)]
            == v@,
{
    let t = txn.open_table(TableDefinition::<&[u8], &[u8]>::new(table))?;
    let found = t.get(key)?;
    Ok(found.map(|guard| guard.value().to_vec()))
}

/// `redb::ReadOnlyTable::range`: the rows between the bounds, ascending. redb
/// orders byte-string keys lexicographically. A table that does not exist is an
/// error.
#[verifier::external_body]
pub(crate) fn read_range(txn: &ReadTransaction, table: &str, lo: &[u8], hi: Option<&[u8]>) -> (r: Result<
    Vec<(Vec<u8>, Vec<u8>)>,
    redb::Error,
>)
    requires
        table@.len() > 0,
    ensures
        r is Ok ==> read_tables(*txn).contains(table@),
        r matches Ok(entries) ==> is_range(read_rows(*txn), table@, lo@, bound_bytes(hi), entries@),
{
    let t = txn.open_table(TableDefinition::<&[u8], &[u8]>::new(table))?;
    let bounds = (Bound::Included(lo), hi.map_or(Bound::Unbounded, Bound::Excluded));
    let mut entries = Vec::new();
    for entry in t.range::<&[u8]>(bounds)? {
        let (k, v) = entry?;
        entries.push((k.value().to_vec(), v.value().to_vec()));
    }
    Ok(entries)
}

/// `redb::ReadableTableMetadata::len`: the number of rows of the table. A table
/// that does not exist is an error.
#[verifier::external_body]
pub(crate) fn read_len(txn: &ReadTransaction, table: &str) -> (r: Result<u64, redb::Error>)
    requires
        table@.len() > 0,
    ensures
        r is Ok ==> read_tables(*txn).contains(table@),
        r matches Ok(n) ==> keys_of(read_rows(*txn), table@).finite() && n == keys_of(read_rows(*txn), table@).len(),
{
    let t = txn.open_table(TableDefinition::<&[u8], &[u8]>::new(table))?;
    Ok(t.len()?)
}

/// `redb::Database::begin_read`: a snapshot of the last commit. A database has
/// finitely many rows.
#[verifier::external_body]
pub(crate) fn begin_read(db: &Database) -> (r: Result<ReadTransaction, redb::Error>)
    ensures
        r matches Ok(t) ==> read_rows(t) == database_rows(*db) && read_tables(t) == database_tables(*db) && read_home(t)
            == *db,
        r matches Ok(t) ==> read_rows(t).dom().finite(),
{
    Ok(db.begin_read()?)
}

/// `redb::Database::begin_write`: a transaction on top of the last commit, which
/// has finitely many rows. redb has one write transaction at a time: the call waits
/// until an earlier one was committed or dropped.
#[verifier::external_body]
pub(crate) fn begin_write(db: &Database) -> (r: Result<WriteTransaction, redb::Error>)
    ensures
        r matches Ok(t) ==> write_rows(t) == database_rows(*db) && write_tables(t) == database_tables(*db)
            && write_home(t) == *db,
        r matches Ok(t) ==> write_rows(t).dom().finite(),
{
    Ok(db.begin_write()?)
}

/// `redb::WriteTransaction::commit`: the transaction's rows and tables become those
/// of the database that it began on. After an error it is not known whether they
/// did.
/// redb lets a shared `Database` change; this function takes it by `&mut`.
#[verifier::external_body]
pub(crate) fn commit(db: &mut Database, txn: WriteTransaction) -> (r: Result<(), redb::Error>)
    requires
        write_home(txn) == *old(db),
    ensures
        r is Ok ==> database_rows(*final(db)) == write_rows(txn),
        r is Ok ==> database_tables(*final(db)) == write_tables(txn),
{
    let _ = db;
    txn.commit()?;
    Ok(())
}

} // verus!
