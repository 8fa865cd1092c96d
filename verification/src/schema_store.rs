//! The schemas of each namespace, in versions.

use redb::{ReadTransaction, WriteTransaction};
use vstd::prelude::*;
use vstd::utf8::{
    decode_utf8, decode_utf8_encode_utf8, encode_utf8, encode_utf8_decode_utf8, encode_utf8_valid_utf8, valid_utf8,
};

use crate::bytes::{
    be, get_bytes, lemma_be_injective, lemma_be_len, lemma_be_order, lemma_lex_join, lemma_pow256_values, put_be,
    put_bytes,
};
use crate::catalog::Table;
use crate::collect::{collect, lemma_collect_fails, lemma_collect_members, lemma_collect_step};
use crate::definitions::{
    lemma_number_of_key, make_number_key, number_key, number_of, parse_rows, read_number, row_in, Refusal,
};
use crate::order::{has_prefix, lex_lt};
use crate::row::{
    copy_text, fits, image, lemma_parsed, lemma_text_injective, load_if_any, opt_view, row_models, save, slot,
    string_from_utf8, LoadError, Row, Slot,
};
use crate::schema_apply::{
    apply_schema_definitions, items_applied, items_scanned, lemma_items_by_rows, lemma_items_frame, ApplyRefusal,
    Schema, SchemaApplyError, ValidatedSchema,
};
use crate::store::{
    entry_models, get, lemma_scan_exists, lookup, put, rdb, read_if_any, read_prefix_if_any, scan, scanned, tables_kept,
    wdb, Db,
};
use crate::tables::schema_version::{SchemaVersionModel, SchemaVersionRow, VALIDATOR_VERSION};

verus! {

/// Why a schema was not stored or not read.
#[derive(Debug)]
pub enum SchemaStoreError {
    Storage(redb::Error),
    /// A stored row or number is none.
    Corrupt,
    /// The namespace has had every version.
    VersionOverflow { namespace: String },
    Apply(SchemaApplyError),
}

/// Why a schema is not stored or not read, as it is spoken of.
pub enum StoreRefusal {
    Corrupt,
    VersionOverflow { namespace: Seq<char> },
    Apply(ApplyRefusal),
}

impl SchemaStoreError {
    /// Whether it was the storage that failed.
    pub open spec fn is_storage(&self) -> bool {
        match *self {
            SchemaStoreError::Storage(_) => true,
            SchemaStoreError::Apply(e) => e.is_storage(),
            _ => false,
        }
    }

    /// Whether the error says what `f` says.
    pub open spec fn says(&self, f: StoreRefusal) -> bool {
        match (*self, f) {
            (SchemaStoreError::Corrupt, StoreRefusal::Corrupt) => true,
            (SchemaStoreError::VersionOverflow { namespace }, StoreRefusal::VersionOverflow { namespace: n }) => namespace@
                == n,
            (SchemaStoreError::Apply(e), StoreRefusal::Apply(g)) => e.says(g),
            _ => false,
        }
    }
}

/// The head of the keys of a namespace's versions: its name, with its length.
pub open spec fn namespace_prefix(namespace: Seq<char>) -> Seq<u8> {
    Seq::<u8>::empty() + be(encode_utf8(namespace).len(), 8) + encode_utf8(namespace)
}

/// The key of a version of a namespace.
pub open spec fn version_key(namespace: Seq<char>, version: u32) -> Seq<u8> {
    namespace_prefix(namespace) + number_key(version)
}

fn make_namespace_prefix(namespace: &str) -> (r: Vec<u8>)
    ensures
        r@ == namespace_prefix(namespace@),
{
    let b = namespace.as_bytes();
    let mut k: Vec<u8> = Vec::new();
    put_be(&mut k, b.len() as u64, 8);
    put_bytes(&mut k, b);
    k
}

fn make_version_key(namespace: &str, version: u32) -> (r: Vec<u8>)
    ensures
        r@ == version_key(namespace@, version),
{
    let mut k = make_namespace_prefix(namespace);
    put_be(&mut k, version as u64, 4);
    k
}

/// The active version of a namespace, if it has one.
pub open spec fn active_version(db: Db, namespace: Seq<char>) -> Result<Option<u32>, StoreRefusal> {
    match lookup(db, Table::SchemaActiveVersions, encode_utf8(namespace)) {
        None => Ok(None),
        Some(b) => match number_of(b) {
            Some(v) => Ok(Some(v)),
            None => Err(StoreRefusal::Corrupt),
        },
    }
}

/// The version that the next schema of a namespace has.
pub open spec fn next_version(db: Db, namespace: Seq<char>) -> Result<u32, StoreRefusal> {
    match active_version(db, namespace) {
        Err(e) => Err(e),
        Ok(None) => Ok(1),
        Ok(Some(v)) => if v == u32::MAX {
            Err(StoreRefusal::VersionOverflow { namespace })
        } else {
            Ok((v + 1) as u32)
        },
    }
}

/// The active version of a namespace, inside a transaction.
pub fn schema_active_in(wtxn: &mut WriteTransaction, namespace: &str) -> (r: Result<Option<u32>, SchemaStoreError>)
    ensures
        tables_kept(*old(wtxn), *final(wtxn)),
        wdb(*final(wtxn)) == wdb(*old(wtxn)),
        match r {
            Ok(v) => active_version(wdb(*old(wtxn)), namespace@) == Ok::<_, StoreRefusal>(v),
            Err(e) => e.is_storage() || (active_version(wdb(*old(wtxn)), namespace@) matches Err(f) && e.says(f)),
        },
{
    match get(wtxn, Table::SchemaActiveVersions, namespace.as_bytes()) {
        Err(e) => Err(SchemaStoreError::Storage(e)),
        Ok(None) => Ok(None),
        Ok(Some(b)) => match read_number(b.as_slice()) {
            Some(v) => Ok(Some(v)),
            None => Err(SchemaStoreError::Corrupt),
        },
    }
}

fn next_version_in(wtxn: &mut WriteTransaction, namespace: &str) -> (r: Result<u32, SchemaStoreError>)
    ensures
        tables_kept(*old(wtxn), *final(wtxn)),
        wdb(*final(wtxn)) == wdb(*old(wtxn)),
        match r {
            Ok(v) => next_version(wdb(*old(wtxn)), namespace@) == Ok::<_, StoreRefusal>(v),
            Err(e) => e.is_storage() || (next_version(wdb(*old(wtxn)), namespace@) matches Err(f) && e.says(f)),
        },
{
    match schema_active_in(wtxn, namespace)? {
        None => Ok(1),
        Some(v) => {
            if v == u32::MAX {
                Err(SchemaStoreError::VersionOverflow { namespace: namespace.to_owned() })
            } else {
                Ok(v + 1)
            }
        },
    }
}

/// The row of a version of a schema.
pub open spec fn version_row(s: Schema, version: u32, source: Seq<u8>, now: u64) -> SchemaVersionModel {
    SchemaVersionRow {
        namespace: s.namespace@,
        version,
        uploaded_at_unix_nanos: now,
        source,
        source_text: opt_view(s.source),
        validator_version: VALIDATOR_VERSION,
    }
}

/// The state with a version of a schema, which is the active one.
pub open spec fn version_stored(db: Db, s: Schema, version: u32, source: Seq<u8>, now: u64) -> Db {
    db.insert(
        (Table::SchemaVersions, version_key(s.namespace@, version)),
        image::<SchemaVersionRow>(version_row(s, version, source, now)),
    ).insert((Table::SchemaActiveVersions, encode_utf8(s.namespace@)), number_key(version))
}

/// What storing a schema comes to: the state afterwards and the version.
pub open spec fn uploaded(db: Db, s: Schema, source: Seq<u8>, now: u64) -> Result<(Db, u32), StoreRefusal> {
    match next_version(db, s.namespace@) {
        Err(e) => Err(e),
        Ok(version) => match items_applied(
            version_stored(db, s, version, source, now),
            s.namespace@,
            s.items@,
            version,
            now,
        ) {
            Err(f) => Err(StoreRefusal::Apply(f)),
            Ok(d) => Ok((d, version)),
        },
    }
}

/// What storing a schema comes to is a matter of the rows alone.
pub proof fn lemma_uploaded_by_rows(a: Db, b: Db, s: Schema, source: Seq<u8>, now: u64)
    requires
        a.rows == b.rows,
    ensures
        match (uploaded(a, s, source, now), uploaded(b, s, source, now)) {
            (Ok(x), Ok(y)) => x.0.rows == y.0.rows && x.1 == y.1,
            (Err(e), Err(f)) => e == f,
            _ => false,
        },
{
    if let Ok(version) = next_version(a, s.namespace@) {
        lemma_items_by_rows(
            version_stored(a, s, version, source, now),
            version_stored(b, s, version, source, now),
            s.namespace@,
            s.items@,
            version,
            now,
        );
    }
}

/// Stores a schema as the next version of its namespace, which becomes the
/// active one, and defines its items. `source` is the schema, serialised.
pub fn schema_upload(wtxn: &mut WriteTransaction, validated: &ValidatedSchema, source: Vec<u8>, now_unix_nanos: u64) -> (r:
    Result<u32, SchemaStoreError>)
    ensures
        tables_kept(*old(wtxn), *final(wtxn)),
        r matches Ok(v) ==> items_scanned(
            version_stored(wdb(*old(wtxn)), validated.0, v, source@, now_unix_nanos),
            validated.0.namespace@,
            validated.0.items@,
            v,
            now_unix_nanos,
        ),
        match r {
            Ok(v) => uploaded(wdb(*old(wtxn)), validated.0, source@, now_unix_nanos) == Ok::<_, StoreRefusal>(
                (wdb(*final(wtxn)), v),
            ),
            Err(e) => e.is_storage() || (uploaded(wdb(*old(wtxn)), validated.0, source@, now_unix_nanos) matches Err(f)
                && e.says(f)),
        },
{
    let schema = validated.as_schema();
    let version: u32 = next_version_in(wtxn, schema.namespace.as_str())?;
    let source_text = match &schema.source {
        Some(s) => Some(copy_text(s)),
        None => None,
    };
    let row = SchemaVersionRow {
        namespace: copy_text(&schema.namespace),
        version,
        uploaded_at_unix_nanos: now_unix_nanos,
        source,
        source_text,
        validator_version: VALIDATOR_VERSION,
    };
    let key = make_version_key(schema.namespace.as_str(), version);
    match save(wtxn, Table::SchemaVersions, key.as_slice(), &row) {
        Ok(()) => {},
        Err(e) => return Err(SchemaStoreError::Storage(e)),
    }
    let number = make_number_key(version);
    match put(wtxn, Table::SchemaActiveVersions, schema.namespace.as_str().as_bytes(), number.as_slice()) {
        Ok(()) => {},
        Err(e) => return Err(SchemaStoreError::Storage(e)),
    }
    match apply_schema_definitions(wtxn, validated, version, now_unix_nanos) {
        Ok(()) => Ok(version),
        Err(e) => Err(SchemaStoreError::Apply(e)),
    }
}

/// What is stored of a version of a namespace.
pub open spec fn stored_version_row(db: Db, namespace: Seq<char>, version: u32) -> Slot<SchemaVersionModel> {
    slot::<SchemaVersionRow>(db, Table::SchemaVersions, version_key(namespace, version))
}

/// A version of a namespace's schema, if there is one.
pub fn schema_get(rtxn: &ReadTransaction, namespace: &str, version: u32) -> (r: Result<
    Option<SchemaVersionRow>,
    SchemaStoreError,
>)
    ensures
        match r {
            Ok(None) => stored_version_row(rdb(*rtxn), namespace@, version) is Absent,
            Ok(Some(row)) => stored_version_row(rdb(*rtxn), namespace@, version) == Slot::Row(row.model()),
            Err(e) => e.is_storage() || (e is Corrupt && stored_version_row(
                rdb(*rtxn),
                namespace@,
                version,
            ) is Corrupt),
        },
{
    let key = make_version_key(namespace, version);
    match load_if_any(rtxn, Table::SchemaVersions, key.as_slice()) {
        Ok(x) => Ok(x),
        Err(LoadError::Storage(e)) => Err(SchemaStoreError::Storage(e)),
        Err(LoadError::Corrupt) => Err(SchemaStoreError::Corrupt),
    }
}

/// The active version of a namespace, if it has one.
pub fn schema_active(rtxn: &ReadTransaction, namespace: &str) -> (r: Result<Option<u32>, SchemaStoreError>)
    ensures
        match r {
            Ok(v) => active_version(rdb(*rtxn), namespace@) == Ok::<_, StoreRefusal>(v),
            Err(e) => e.is_storage() || (active_version(rdb(*rtxn), namespace@) matches Err(f) && e.says(f)),
        },
{
    match read_if_any(rtxn, Table::SchemaActiveVersions, namespace.as_bytes()) {
        Err(e) => Err(SchemaStoreError::Storage(e)),
        Ok(None) => Ok(None),
        Ok(Some(b)) => match read_number(b.as_slice()) {
            Some(v) => Ok(Some(v)),
            None => Err(SchemaStoreError::Corrupt),
        },
    }
}

/// The active version of a namespace's schema, if it has one.
pub fn schema_active_row(rtxn: &ReadTransaction, namespace: &str) -> (r: Result<
    Option<SchemaVersionRow>,
    SchemaStoreError,
>)
    ensures
        match r {
            Ok(None) => active_version(rdb(*rtxn), namespace@) matches Ok(v) && (v matches Some(n)
                ==> stored_version_row(rdb(*rtxn), namespace@, n) is Absent),
            Ok(Some(row)) => active_version(rdb(*rtxn), namespace@) matches Ok(Some(n)) && stored_version_row(
                rdb(*rtxn),
                namespace@,
                n,
            ) == Slot::Row(row.model()),
            Err(e) => e.is_storage() || (e is Corrupt && match active_version(rdb(*rtxn), namespace@) {
                Err(f) => true,
                Ok(Some(n)) => stored_version_row(rdb(*rtxn), namespace@, n) is Corrupt,
                Ok(None) => false,
            }),
        },
{
    match schema_active(rtxn, namespace)? {
        None => Ok(None),
        Some(v) => schema_get(rtxn, namespace, v),
    }
}

/// The versions of a namespace's schema, the oldest first.
pub open spec fn all_versions(db: Db, namespace: Seq<char>) -> Result<Seq<SchemaVersionModel>, Refusal> {
    collect(
        scan(db, Table::SchemaVersions, namespace_prefix(namespace)),
        |kv: (Seq<u8>, Seq<u8>)| row_in::<SchemaVersionRow>(kv),
    )
}

fn reversed(v: Vec<SchemaVersionRow>) -> (r: Vec<SchemaVersionRow>)
    ensures
        row_models(r@) == row_models(v@).reverse(),
{
    let ghost models = row_models(v@);
    let mut v = v;
    let mut out: Vec<SchemaVersionRow> = Vec::new();
    while v.len() > 0
        invariant
            row_models(v@) == models.take(v@.len() as int),
            v@.len() <= models.len(),
            row_models(out@) == models.skip(v@.len() as int).reverse(),
        decreases v.len(),
    {
        let ghost n = v@.len() as int;
        let ghost before = row_models(out@);
        match v.pop() {
            Some(row) => {
                out.push(row);
                proof {
                    assert(row.model() == models.take(n)[n - 1]);
                    assert(row_models(v@) =~= models.take(n - 1));
                    assert(row_models(out@) =~= before.push(row.model()));
                    assert(models.skip(n - 1).reverse() =~= models.skip(n).reverse().push(models[n - 1]));
                }
            },
            None => {},
        }
    }
    proof {
        assert(models.skip(0) =~= models);
    }
    out
}

/// The versions of a namespace's schema, the newest first.
pub fn schema_list(rtxn: &ReadTransaction, namespace: &str) -> (r: Result<Vec<SchemaVersionRow>, SchemaStoreError>)
    ensures
        r is Ok ==> scanned(rdb(*rtxn), Table::SchemaVersions, namespace_prefix(namespace@)),
        match r {
            Ok(v) => all_versions(rdb(*rtxn), namespace@) matches Ok(s) && row_models(v@) == s.reverse(),
            Err(e) => e.is_storage() || (e is Corrupt && all_versions(rdb(*rtxn), namespace@) is Err),
        },
{
    let prefix = make_namespace_prefix(namespace);
    let found = match read_prefix_if_any(rtxn, Table::SchemaVersions, prefix.as_slice()) {
        Ok(v) => v,
        Err(e) => return Err(SchemaStoreError::Storage(e)),
    };
    match parse_rows::<SchemaVersionRow>(&found) {
        Ok(v) => Ok(reversed(v)),
        Err(_) => Err(SchemaStoreError::Corrupt),
    }
}

/// The name that a key is.
pub open spec fn name_in(kv: (Seq<u8>, Seq<u8>)) -> Result<Option<Seq<char>>, Refusal> {
    if valid_utf8(kv.0) {
        Ok(Some(decode_utf8(kv.0)))
    } else {
        Err(Refusal::Corrupt)
    }
}

/// The namespaces with a schema, in the order of their names' bytes.
pub open spec fn all_namespaces(db: Db) -> Result<Seq<Seq<char>>, Refusal> {
    collect(scan(db, Table::SchemaActiveVersions, Seq::empty()), |kv: (Seq<u8>, Seq<u8>)| name_in(kv))
}

/// The namespaces with a schema, in the order of their names' bytes.
pub fn schema_namespaces(rtxn: &ReadTransaction) -> (r: Result<Vec<String>, SchemaStoreError>)
    ensures
        r is Ok ==> scanned(rdb(*rtxn), Table::SchemaActiveVersions, Seq::empty()),
        match r {
            Ok(v) => all_namespaces(rdb(*rtxn)) == Ok::<_, Refusal>(row_models(v@)),
            Err(e) => e.is_storage() || (e is Corrupt && all_namespaces(rdb(*rtxn)) is Err),
        },
{
    let prefix: Vec<u8> = Vec::new();
    let found = match read_prefix_if_any(rtxn, Table::SchemaActiveVersions, prefix.as_slice()) {
        Ok(v) => v,
        Err(e) => return Err(SchemaStoreError::Storage(e)),
    };
    let ghost entries = entry_models(found@);
    let ghost f = |kv: (Seq<u8>, Seq<u8>)| name_in(kv);
    let mut out: Vec<String> = Vec::new();
    let mut i: usize = 0;
    proof {
        assert(prefix@ =~= Seq::<u8>::empty());
        assert(entries.take(0) =~= Seq::<(Seq<u8>, Seq<u8>)>::empty());
        assert(row_models(out@) =~= Seq::<Seq<char>>::empty());
    }
    while i < found.len()
        invariant
            i <= found.len(),
            entries == entry_models(found@),
            f == (|kv: (Seq<u8>, Seq<u8>)| name_in(kv)),
            all_namespaces(rdb(*rtxn)) == collect(entries, f),
            collect(entries.take(i as int), f) == Ok::<_, Refusal>(row_models(out@)),
        decreases found.len() - i,
    {
        proof {
            lemma_collect_step(entries, f, i as int);
            if collect(entries.take(i + 1), f) is Err {
                lemma_collect_fails(entries, f, i + 1);
            }
        }
        let key = get_bytes(found[i].0.as_slice(), 0, found[i].0.len());
        proof {
            assert(key@ =~= entries[i as int].0);
        }
        let name = match string_from_utf8(key) {
            Some(s) => s,
            None => return Err(SchemaStoreError::Corrupt),
        };
        let ghost before = row_models(out@);
        out.push(name);
        proof {
            assert(row_models(out@) =~= before.push(name@));
        }
        i = i + 1;
    }
    proof {
        assert(entries.take(i as int) =~= entries);
    }
    Ok(out)
}

// What holds of the store as a whole.

/// The names are the same if the heads of the keys are, and no head begins
/// another.
proof fn lemma_namespace_prefix(a: Seq<char>, b: Seq<char>, rest_a: Seq<u8>, rest_b: Seq<u8>)
    requires
        encode_utf8(a).len() < 0x1_0000_0000_0000_0000,
        encode_utf8(b).len() < 0x1_0000_0000_0000_0000,
        namespace_prefix(a) + rest_a == namespace_prefix(b) + rest_b,
    ensures
        a == b,
        rest_a == rest_b,
{
    let x = namespace_prefix(a) + rest_a;
    let y = namespace_prefix(b) + rest_b;
    let la = encode_utf8(a).len();
    let lb = encode_utf8(b).len();
    lemma_pow256_values();
    lemma_be_len(la, 8);
    lemma_be_len(lb, 8);
    assert(x.subrange(0, 8) =~= be(la, 8));
    assert(y.subrange(0, 8) =~= be(lb, 8));
    lemma_be_injective(la, lb, 8);
    assert(x.subrange(8, 8 + la as int) =~= encode_utf8(a));
    assert(y.subrange(8, 8 + lb as int) =~= encode_utf8(b));
    lemma_text_injective(a, b);
    assert(x.skip(8 + la as int) =~= rest_a);
    assert(y.skip(8 + lb as int) =~= rest_b);
}

/// Storing a schema: its version follows the active one, is active afterwards
/// and is read back as it was stored. Every other version, and the active
/// version of every other namespace, is as before.
pub proof fn lemma_upload(db: Db, s: Schema, source: Seq<u8>, now: u64, namespace: Seq<char>, version: u32)
    requires
        uploaded(db, s, source, now) is Ok,
        fits::<SchemaVersionRow>(version_row(s, uploaded(db, s, source, now)->Ok_0.1, source, now)),
        encode_utf8(s.namespace@).len() < 0x1_0000_0000_0000_0000,
        encode_utf8(namespace).len() < 0x1_0000_0000_0000_0000,
    ensures
        ({
            let (after, v) = uploaded(db, s, source, now)->Ok_0;
            &&& active_version(db, s.namespace@) matches Ok(before) && v == match before {
                Some(n) => n + 1,
                None => 1,
            }
            &&& active_version(after, s.namespace@) == Ok::<_, StoreRefusal>(Some(v))
            &&& stored_version_row(after, s.namespace@, v) == Slot::Row(version_row(s, v, source, now))
            &&& (namespace != s.namespace@ || version != v) ==> stored_version_row(after, namespace, version)
                == stored_version_row(db, namespace, version)
            &&& namespace != s.namespace@ ==> active_version(after, namespace) == active_version(db, namespace)
            &&& after.home == db.home
        }),
{
    let (after, v) = uploaded(db, s, source, now)->Ok_0;
    let mid = version_stored(db, s, v, source, now);
    let own = version_key(s.namespace@, v);
    let other = version_key(namespace, version);
    lemma_items_frame(mid, s.namespace@, s.items@, v, now, Table::SchemaVersions, own);
    lemma_items_frame(mid, s.namespace@, s.items@, v, now, Table::SchemaVersions, other);
    lemma_items_frame(mid, s.namespace@, s.items@, v, now, Table::SchemaActiveVersions, encode_utf8(s.namespace@));
    lemma_items_frame(mid, s.namespace@, s.items@, v, now, Table::SchemaActiveVersions, encode_utf8(namespace));
    lemma_number_of_key(v);
    lemma_number_of_key(version);
    lemma_parsed::<SchemaVersionRow>(version_row(s, v, source, now));
    if own == other {
        lemma_namespace_prefix(s.namespace@, namespace, number_key(v), number_key(version));
    }
    if encode_utf8(namespace) == encode_utf8(s.namespace@) {
        lemma_text_injective(namespace, s.namespace@);
    }
}

/// Among the versions of a namespace the later has the later key, so a listing
/// is in the order of the versions.
pub proof fn lemma_versions_in_order(namespace: Seq<char>, a: u32, b: u32)
    requires
        a < b,
    ensures
        lex_lt(version_key(namespace, a), version_key(namespace, b)),
        has_prefix(version_key(namespace, a), namespace_prefix(namespace)),
{
    let p = namespace_prefix(namespace);
    lemma_pow256_values();
    lemma_be_order(a as nat, b as nat, 4);
    lemma_lex_join(p, p, number_key(a), number_key(b));
    assert(version_key(namespace, a).take(p.len() as int) =~= p);
}

/// A key of one namespace is no key of another.
pub proof fn lemma_namespaces_apart(a: Seq<char>, b: Seq<char>, key: Seq<u8>)
    requires
        encode_utf8(a).len() < 0x1_0000_0000_0000_0000,
        encode_utf8(b).len() < 0x1_0000_0000_0000_0000,
        has_prefix(key, namespace_prefix(a)),
        has_prefix(key, namespace_prefix(b)),
    ensures
        a == b,
{
    let m = namespace_prefix(a).len() as int;
    let n = namespace_prefix(b).len() as int;
    assert(key =~= namespace_prefix(a) + key.skip(m));
    assert(key =~= namespace_prefix(b) + key.skip(n));
    lemma_namespace_prefix(a, b, key.skip(m), key.skip(n));
}

/// The first schema of a namespace is version 1, each further one follows the active
/// one. It is stored under the namespace and its version with what it came with and the
/// time, and it is the active one.
pub proof fn lemma_uploaded_row(db: Db, s: Schema, source: Seq<u8>, now: u64, active: u32)
    requires
        uploaded(db, s, source, now) is Ok,
        lookup(db, Table::SchemaActiveVersions, encode_utf8(s.namespace@)) is None || lookup(
            db,
            Table::SchemaActiveVersions,
            encode_utf8(s.namespace@),
        ) == Some(be(active as nat, 4)),
    ensures
        ({
            let (after, v) = uploaded(db, s, source, now)->Ok_0;
            let name = encode_utf8(s.namespace@);
            &&& v == if lookup(db, Table::SchemaActiveVersions, name) is None {
                1
            } else {
                active + 1
            }
            &&& lookup(after, Table::SchemaActiveVersions, name) == Some(be(v as nat, 4))
            &&& exists|m: SchemaVersionModel|
                {
                    &&& lookup(after, Table::SchemaVersions, be(name.len(), 8) + name + be(v as nat, 4)) == Some(
                        #[trigger] image::<SchemaVersionRow>(m),
                    )
                    &&& m.namespace == s.namespace@
                    &&& m.version == v
                    &&& m.uploaded_at_unix_nanos == now
                    &&& m.source == source
                    &&& m.source_text is None <==> s.source is None
                    &&& s.source is Some ==> m.source_text == Some(s.source->Some_0@)
                    &&& m.validator_version == 1
                }
        }),
{
    let (after, v) = uploaded(db, s, source, now)->Ok_0;
    let mid = version_stored(db, s, v, source, now);
    let name = encode_utf8(s.namespace@);
    let own = version_key(s.namespace@, v);
    assert(own =~= be(name.len(), 8) + name + be(v as nat, 4));
    lemma_number_of_key(active);
    lemma_items_frame(mid, s.namespace@, s.items@, v, now, Table::SchemaVersions, own);
    lemma_items_frame(mid, s.namespace@, s.items@, v, now, Table::SchemaActiveVersions, name);
    let m = version_row(s, v, source, now);
    assert(lookup(after, Table::SchemaVersions, own) == Some(image::<SchemaVersionRow>(m)));
}

/// Storing a schema after the last version is refused.
pub proof fn lemma_no_version_left(db: Db, s: Schema, source: Seq<u8>, now: u64)
    requires
        lookup(db, Table::SchemaActiveVersions, encode_utf8(s.namespace@)) == Some(be(0xffff_ffff, 4)),
    ensures
        uploaded(db, s, source, now) == Err::<(Db, u32), _>(
            StoreRefusal::VersionOverflow { namespace: s.namespace@ },
        ),
{
    lemma_number_of_key(0xffff_ffff);
}

/// The list of a namespace's versions holds a row exactly if it is stored under a key of
/// the namespace.
pub proof fn lemma_versions_listed(db: Db, namespace: Seq<char>, m: SchemaVersionModel)
    requires
        db.rows.dom().finite(),
        all_versions(db, namespace) is Ok,
    ensures
        all_versions(db, namespace)->Ok_0.contains(m) <==> exists|rest: Seq<u8>| #[trigger]
            slot::<SchemaVersionRow>(
                db,
                Table::SchemaVersions,
                be(encode_utf8(namespace).len(), 8) + encode_utf8(namespace) + rest,
            ) == Slot::Row(m),
{
    let prefix = namespace_prefix(namespace);
    let head = be(encode_utf8(namespace).len(), 8) + encode_utf8(namespace);
    assert(prefix =~= head);
    let entries = scan(db, Table::SchemaVersions, prefix);
    let f = |kv: (Seq<u8>, Seq<u8>)| row_in::<SchemaVersionRow>(kv);
    lemma_scan_exists(db, Table::SchemaVersions, prefix);
    lemma_collect_members(entries, f, m);
    if all_versions(db, namespace)->Ok_0.contains(m) {
        let i = choose|i: int| 0 <= i < entries.len() && f(#[trigger] entries[i]) == Ok::<_, Refusal>(Some(m));
        let k = entries[i].0;
        assert(lookup(db, Table::SchemaVersions, k) == Some(entries[i].1));
        assert(k =~= head + k.skip(head.len() as int));
        assert(slot::<SchemaVersionRow>(db, Table::SchemaVersions, head + k.skip(head.len() as int)) == Slot::Row(m));
    }
    if exists|rest: Seq<u8>| #[trigger] slot::<SchemaVersionRow>(db, Table::SchemaVersions, head + rest) == Slot::Row(m) {
        let rest = choose|rest: Seq<u8>| #[trigger]
            slot::<SchemaVersionRow>(db, Table::SchemaVersions, head + rest) == Slot::Row(m);
        let k = head + rest;
        assert(k.take(prefix.len() as int) =~= prefix);
        assert(db.dom().contains((Table::SchemaVersions, k)));
        let i = choose|i: int| 0 <= i < entries.len() && (#[trigger] entries[i]).0 == k;
        assert(lookup(db, Table::SchemaVersions, entries[i].0) == Some(entries[i].1));
        assert(f(entries[i]) == Ok::<_, Refusal>(Some(m)));
    }
}

/// The list of the namespaces holds a namespace exactly if it has an active version.
pub proof fn lemma_namespaces_listed(db: Db, namespace: Seq<char>)
    requires
        db.rows.dom().finite(),
        all_namespaces(db) is Ok,
    ensures
        all_namespaces(db)->Ok_0.contains(namespace) <==> lookup(
            db,
            Table::SchemaActiveVersions,
            encode_utf8(namespace),
        ) is Some,
{
    let entries = scan(db, Table::SchemaActiveVersions, Seq::empty());
    let f = |kv: (Seq<u8>, Seq<u8>)| name_in(kv);
    let k = encode_utf8(namespace);
    lemma_scan_exists(db, Table::SchemaActiveVersions, Seq::empty());
    lemma_collect_members(entries, f, namespace);
    encode_utf8_decode_utf8(namespace);
    encode_utf8_valid_utf8(namespace);
    if all_namespaces(db)->Ok_0.contains(namespace) {
        let i = choose|i: int| 0 <= i < entries.len() && f(#[trigger] entries[i]) == Ok::<_, Refusal>(Some(namespace));
        assert(lookup(db, Table::SchemaActiveVersions, entries[i].0) == Some(entries[i].1));
        decode_utf8_encode_utf8(entries[i].0);
    }
    if lookup(db, Table::SchemaActiveVersions, k) is Some {
        assert(k.take(0) =~= Seq::<u8>::empty());
        assert(db.dom().contains((Table::SchemaActiveVersions, k)));
        let i = choose|i: int| 0 <= i < entries.len() && (#[trigger] entries[i]).0 == k;
        assert(f(entries[i]) == Ok::<_, Refusal>(Some(namespace)));
    }
}

} // verus!
