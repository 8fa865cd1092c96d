//! The schema that every database has.

use redb::Database;
use vstd::prelude::*;
use vstd::utf8::encode_utf8;

use crate::bytes::be;
use crate::catalog::{complete, lemma_materialized, materialize_all_tables, materialized, Table};
use crate::definitions::lemma_number_of_key;
use crate::redb_txn::database_tables;
use crate::schema_apply::{
    apply_schema_definitions, items_applied, lemma_items_by_rows, lemma_items_frame, ApplyRefusal, Schema,
    SchemaApplyError, ValidatedSchema,
};
use crate::schema_store::{
    active_version, lemma_uploaded_by_rows, schema_active_in, schema_upload, uploaded, version_stored,
    SchemaStoreError, StoreRefusal,
};
use crate::store::{begin_change, commit_change, ddb, lookup, Db};

verus! {

/// The namespace of the system schema. It is reserved.
pub const SYSTEM_SCHEMA_NAMESPACE: &'static str = "brain";

/// Why the system schema was not put in place.
#[derive(Debug)]
pub enum SystemSchemaError {
    Storage(redb::Error),
    Schema(SchemaStoreError),
    /// What is stored says otherwise than the system schema.
    Reconcile(SchemaApplyError),
}

/// Why the system schema is not put in place, as it is spoken of.
pub enum SeedRefusal {
    Schema(StoreRefusal),
    Reconcile(ApplyRefusal),
}

impl SystemSchemaError {
    /// Whether it was the storage that failed.
    pub open spec fn is_storage(&self) -> bool {
        match *self {
            SystemSchemaError::Storage(_) => true,
            SystemSchemaError::Schema(e) => e.is_storage(),
            SystemSchemaError::Reconcile(e) => e.is_storage(),
        }
    }

    /// Whether the error says what `f` says.
    pub open spec fn says(&self, f: SeedRefusal) -> bool {
        match (*self, f) {
            (SystemSchemaError::Schema(e), SeedRefusal::Schema(g)) => e.says(g),
            (SystemSchemaError::Reconcile(e), SeedRefusal::Reconcile(g)) => e.says(g),
            _ => false,
        }
    }
}

/// What putting the system schema in place comes to. In a fresh database it is
/// stored; in another its items are defined again at the version that is active,
/// so that what is missing is filled in and what says otherwise is reported.
pub open spec fn seeded(db: Db, s: Schema, source: Seq<u8>, now: u64) -> Result<Db, SeedRefusal> {
    match active_version(db, SYSTEM_SCHEMA_NAMESPACE@) {
        Err(f) => Err(SeedRefusal::Schema(f)),
        Ok(None) => match uploaded(db, s, source, now) {
            Err(f) => Err(SeedRefusal::Schema(f)),
            Ok(done) => Ok(done.0),
        },
        Ok(Some(version)) => match items_applied(db, s.namespace@, s.items@, version, now) {
            Err(f) => Err(SeedRefusal::Reconcile(f)),
            Ok(d) => Ok(d),
        },
    }
}

proof fn lemma_seeded_keeps_home(db: Db, s: Schema, source: Seq<u8>, now: u64)
    ensures
        seeded(db, s, source, now) matches Ok(d) ==> d.home == db.home,
{
    if let Ok(Some(version)) = active_version(db, SYSTEM_SCHEMA_NAMESPACE@) {
        lemma_items_frame(db, s.namespace@, s.items@, version, now, Table::SchemaMeta, Seq::empty());
    } else if let Ok(done) = uploaded(db, s, source, now) {
        lemma_items_frame(
            version_stored(db, s, done.1, source, now),
            s.namespace@,
            s.items@,
            done.1,
            now,
            Table::SchemaMeta,
            Seq::empty(),
        );
    }
}

/// What putting the system schema in place comes to is a matter of the rows alone.
pub proof fn lemma_seeded_by_rows(a: Db, b: Db, s: Schema, source: Seq<u8>, now: u64)
    requires
        a.rows == b.rows,
    ensures
        match (seeded(a, s, source, now), seeded(b, s, source, now)) {
            (Ok(x), Ok(y)) => x.rows == y.rows,
            (Err(e), Err(f)) => e == f,
            _ => false,
        },
{
    lemma_uploaded_by_rows(a, b, s, source, now);
    if let Ok(Some(version)) = active_version(a, SYSTEM_SCHEMA_NAMESPACE@) {
        lemma_items_by_rows(a, b, s.namespace@, s.items@, version, now);
    }
}

/// Makes every table, in a transaction of its own.
fn make_tables(db: &mut Database) -> (r: Result<(), redb::Error>)
    ensures
        r is Ok ==> ddb(*final(db)).rows == ddb(*old(db)).rows,
        r is Ok ==> database_tables(*final(db)) == materialized(database_tables(*old(db))),
{
    let mut wtxn = begin_change(db)?;
    materialize_all_tables(&mut wtxn)?;
    commit_change(db, wtxn)
}

/// Puts the system schema in place. The tables are made first, in a transaction of
/// their own: they stay also where the schema is refused, which leaves the rows as
/// they were. `source` is the schema, serialised.
pub fn seed_system_schema(db: &mut Database, system: &ValidatedSchema, source: Vec<u8>, now_unix_nanos: u64) -> (r: Result<
    (),
    SystemSchemaError,
>)
    ensures
        r is Ok ==> ddb(*old(db)).rows.dom().finite(),
        match r {
            Ok(()) => {
                &&& seeded(ddb(*old(db)), system.0, source@, now_unix_nanos) matches Ok(d) && ddb(*final(db)).rows
                    == d.rows
                &&& materialized(database_tables(*old(db))).subset_of(database_tables(*final(db)))
                &&& complete(database_tables(*final(db)))
            },
            Err(e) => e.is_storage() || {
                &&& seeded(ddb(*old(db)), system.0, source@, now_unix_nanos) matches Err(f) && e.says(f)
                &&& ddb(*final(db)).rows == ddb(*old(db)).rows
                &&& database_tables(*final(db)) == materialized(database_tables(*old(db)))
                &&& complete(database_tables(*final(db)))
            },
        },
{
    proof {
        lemma_materialized(database_tables(*db));
    }
    match make_tables(db) {
        Ok(()) => {},
        Err(e) => return Err(SystemSchemaError::Storage(e)),
    }
    let mut wtxn = match begin_change(db) {
        Ok(t) => t,
        Err(e) => return Err(SystemSchemaError::Storage(e)),
    };
    proof {
        lemma_seeded_by_rows(ddb(*old(db)), ddb(*db), system.0, source@, now_unix_nanos);
        lemma_seeded_keeps_home(ddb(*db), system.0, source@, now_unix_nanos);
    }
    let active = match schema_active_in(&mut wtxn, SYSTEM_SCHEMA_NAMESPACE) {
        Ok(v) => v,
        Err(e) => return Err(SystemSchemaError::Schema(e)),
    };
    match active {
        None => match schema_upload(&mut wtxn, system, source, now_unix_nanos) {
            Ok(_) => {},
            Err(e) => return Err(SystemSchemaError::Schema(e)),
        },
        Some(version) => match apply_schema_definitions(&mut wtxn, system, version, now_unix_nanos) {
            Ok(()) => {},
            Err(e) => return Err(SystemSchemaError::Reconcile(e)),
        },
    }
    match commit_change(db, wtxn) {
        Ok(()) => Ok(()),
        Err(e) => Err(SystemSchemaError::Storage(e)),
    }
}

/// Where the system's namespace has no schema yet, putting the system schema in place
/// stores it as any other. Where it has one, no version is stored and the active one
/// stays: the items are defined at that version.
pub proof fn lemma_seeded(db: Db, s: Schema, source: Seq<u8>, now: u64, active: u32, t: Table, k: Seq<u8>)
    ensures
        lookup(db, Table::SchemaActiveVersions, encode_utf8("brain"@)) is None ==> (seeded(db, s, source, now) matches Ok(
            d,
        ) <==> uploaded(db, s, source, now) is Ok) && (seeded(db, s, source, now) matches Ok(d) ==> d == uploaded(
            db,
            s,
            source,
            now,
        )->Ok_0.0),
        lookup(db, Table::SchemaActiveVersions, encode_utf8("brain"@)) == Some(be(active as nat, 4)) ==> (seeded(
            db,
            s,
            source,
            now,
        ) matches Ok(d) ==> {
            &&& items_applied(db, s.namespace@, s.items@, active, now) == Ok::<_, ApplyRefusal>(d)
            &&& t is SchemaVersions || t is SchemaActiveVersions ==> lookup(d, t, k) == lookup(db, t, k)
        }),
{
    lemma_number_of_key(active);
    if t is SchemaVersions || t is SchemaActiveVersions {
        lemma_items_frame(db, s.namespace@, s.items@, active, now, t, k);
    }
}

} // verus!
