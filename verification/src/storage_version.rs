//! The version of the layout of the tables.

use redb::{Database, ReadTransaction, WriteTransaction};
use vstd::prelude::*;
use vstd::utf8::encode_utf8;

use crate::bytes::{be, be_value, get_be, lemma_be_len, lemma_be_value_of_be, lemma_pow256_values, put_be};
use crate::catalog::{complete, lemma_materialized, materialize_all_tables, materialized, Table};
use crate::redb_txn::{create_table, database_tables, write_tables};
use crate::row::LoadError;
use crate::store::{
    begin_change, begin_snapshot, commit_change, ddb, lookup, put, rdb, read_if_any, tables_kept, wdb, Db,
};

verus! {

/// The version that this library reads and writes.
pub const CURRENT_SCHEMA_VERSION: u32 = 2;

/// The key of the version.
pub const SCHEMA_VERSION_KEY: &'static str = "schema_version";

/// Why a database cannot be opened.
#[derive(Debug)]
pub enum SchemaError {
    Storage(redb::Error),
    /// The stored version is no number.
    Corrupt,
    /// The tables were written by a later version.
    SchemaVersionTooNew { found: u32, supported: u32 },
    /// The tables were written by an earlier version; there is no migration.
    SchemaTooOld { found: u32, current: u32 },
}

/// The key of the version, in bytes.
pub open spec fn version_key() -> Seq<u8> {
    encode_utf8(SCHEMA_VERSION_KEY@)
}

/// The version that is stored, if there is one.
pub open spec fn stored_version(db: Db) -> Result<Option<u32>, ()> {
    match lookup(db, Table::SchemaMeta, version_key()) {
        None => Ok(None),
        Some(b) => if b.len() == 4 {
            Ok(Some(be_value(b) as u32))
        } else {
            Err(())
        },
    }
}

/// The state stamped with the current version.
pub open spec fn stamped(db: Db) -> Db {
    db.insert((Table::SchemaMeta, version_key()), be(CURRENT_SCHEMA_VERSION as nat, 4))
}

/// Reads the stored version.
pub fn read_stored_version(rtxn: &ReadTransaction) -> (r: Result<Option<u32>, LoadError>)
    ensures
        r matches Ok(v) ==> stored_version(rdb(*rtxn)) == Ok::<_, ()>(v),
        r matches Err(LoadError::Corrupt) ==> stored_version(rdb(*rtxn)) is Err,
{
    match read_if_any(rtxn, Table::SchemaMeta, SCHEMA_VERSION_KEY.as_bytes()) {
        Err(e) => Err(LoadError::Storage(e)),
        Ok(None) => Ok(None),
        Ok(Some(b)) => {
            if b.len() != 4 {
                return Err(LoadError::Corrupt);
            }
            proof {
                lemma_pow256_values();
                assert(b@.subrange(0, 4) =~= b@);
            }
            Ok(Some(get_be(b.as_slice(), 0, 4) as u32))
        },
    }
}

/// What opening a database whose stored version is `stored` comes to: whether
/// it is fresh, or why it is refused.
pub fn check_version(stored: Option<u32>) -> (r: Result<bool, SchemaError>)
    ensures
        match stored {
            None => r == Ok::<_, SchemaError>(true),
            Some(v) => if v > CURRENT_SCHEMA_VERSION {
                r == Err::<bool, _>(
                    SchemaError::SchemaVersionTooNew { found: v, supported: CURRENT_SCHEMA_VERSION },
                )
            } else if v < CURRENT_SCHEMA_VERSION {
                r == Err::<bool, _>(SchemaError::SchemaTooOld { found: v, current: CURRENT_SCHEMA_VERSION })
            } else {
                r == Ok::<_, SchemaError>(false)
            },
        },
{
    match stored {
        None => Ok(true),
        Some(v) => {
            if v > CURRENT_SCHEMA_VERSION {
                return Err(SchemaError::SchemaVersionTooNew { found: v, supported: CURRENT_SCHEMA_VERSION });
            }
            if v < CURRENT_SCHEMA_VERSION {
                return Err(SchemaError::SchemaTooOld { found: v, current: CURRENT_SCHEMA_VERSION });
            }
            Ok(false)
        },
    }
}

/// Stamps the current version.
pub fn stamp_version(wtxn: &mut WriteTransaction) -> (r: Result<(), redb::Error>)
    ensures
        tables_kept(*old(wtxn), *final(wtxn)),
        wdb(*final(wtxn)).home == wdb(*old(wtxn)).home,
        r is Ok ==> wdb(*final(wtxn)) == stamped(wdb(*old(wtxn))),
        r is Ok ==> write_tables(*final(wtxn)) == write_tables(*old(wtxn)).insert(Table::SchemaMeta.spec_name()),
{
    let mut v: Vec<u8> = Vec::new();
    put_be(&mut v, CURRENT_SCHEMA_VERSION as u64, 4);
    proof {
        assert(v@ =~= be(CURRENT_SCHEMA_VERSION as nat, 4));
    }
    put(wtxn, Table::SchemaMeta, SCHEMA_VERSION_KEY.as_bytes(), v.as_slice())
}

/// The tables of a database once it was opened: the one of its version, and every
/// one that a read path relies on.
pub open spec fn opened_tables(tables: Set<Seq<char>>) -> Set<Seq<char>> {
    materialized(tables.insert(Table::SchemaMeta.spec_name()))
}

/// A database that was opened has every table that a read path relies on, and
/// opening it again adds none.
pub proof fn lemma_opened_tables(tables: Set<Seq<char>>)
    ensures
        tables.subset_of(opened_tables(tables)),
        complete(opened_tables(tables)),
        opened_tables(opened_tables(tables)) == opened_tables(tables),
{
    let once = opened_tables(tables);
    lemma_materialized(tables.insert(Table::SchemaMeta.spec_name()));
    assert(once.contains(Table::SchemaMeta.spec_name()));
    assert(once.insert(Table::SchemaMeta.spec_name()) =~= once);
}

/// Makes sure that a database has the current version and every table: a fresh
/// one is stamped, one of another version is refused and left as it is.
pub fn open_or_init_schema(db: &mut Database) -> (r: Result<u32, SchemaError>)
    ensures
        match r {
            Ok(v) => v == CURRENT_SCHEMA_VERSION && match stored_version(ddb(*old(db))) {
                Ok(None) => ddb(*final(db)).rows == stamped(ddb(*old(db))).rows,
                Ok(Some(found)) => found == CURRENT_SCHEMA_VERSION && ddb(*final(db)).rows == ddb(*old(db)).rows,
                Err(_) => false,
            },
            Err(SchemaError::SchemaVersionTooNew { found, supported }) => stored_version(ddb(*old(db))) == Ok::<_, ()>(
                Some(found),
            ) && found > CURRENT_SCHEMA_VERSION && supported == CURRENT_SCHEMA_VERSION && *final(db) == *old(db),
            Err(SchemaError::SchemaTooOld { found, current }) => stored_version(ddb(*old(db))) == Ok::<_, ()>(
                Some(found),
            ) && found < CURRENT_SCHEMA_VERSION && current == CURRENT_SCHEMA_VERSION && *final(db) == *old(db),
            Err(SchemaError::Corrupt) => stored_version(ddb(*old(db))) is Err && *final(db) == *old(db),
            Err(SchemaError::Storage(_)) => true,
        },
        r is Ok ==> database_tables(*final(db)) == opened_tables(database_tables(*old(db))),
        r is Ok ==> complete(database_tables(*final(db))),
{
    let rtxn = match begin_snapshot(db) {
        Ok(t) => t,
        Err(e) => return Err(SchemaError::Storage(e)),
    };
    let stored = match read_stored_version(&rtxn) {
        Ok(v) => v,
        Err(LoadError::Storage(e)) => return Err(SchemaError::Storage(e)),
        Err(LoadError::Corrupt) => return Err(SchemaError::Corrupt),
    };
    let fresh: bool = check_version(stored)?;
    let mut wtxn = match begin_change(db) {
        Ok(t) => t,
        Err(e) => return Err(SchemaError::Storage(e)),
    };
    proof {
        let tables = write_tables(wtxn);
        let meta = Table::SchemaMeta.spec_name();
        lemma_opened_tables(tables);
        assert(tables.insert(meta).insert(meta) =~= tables.insert(meta));
    }
    match create_table(&mut wtxn, Table::SchemaMeta.name()) {
        Ok(()) => {},
        Err(e) => return Err(SchemaError::Storage(e)),
    }
    if fresh {
        match stamp_version(&mut wtxn) {
            Ok(()) => {},
            Err(e) => return Err(SchemaError::Storage(e)),
        }
    }
    match materialize_all_tables(&mut wtxn) {
        Ok(()) => {},
        Err(e) => return Err(SchemaError::Storage(e)),
    }
    match commit_change(db, wtxn) {
        Ok(()) => Ok(CURRENT_SCHEMA_VERSION),
        Err(e) => Err(SchemaError::Storage(e)),
    }
}

/// A stamped state has the current version, and stamping again changes nothing.
pub proof fn lemma_stamp_is_read_back(db: Db)
    ensures
        stored_version(stamped(db)) == Ok::<_, ()>(Some(CURRENT_SCHEMA_VERSION)),
        stamped(stamped(db)) == stamped(db),
{
    lemma_pow256_values();
    lemma_be_len(CURRENT_SCHEMA_VERSION as nat, 4);
    lemma_be_value_of_be(CURRENT_SCHEMA_VERSION as nat, 4);
    assert(stamped(stamped(db)) =~= stamped(db));
}

} // verus!
