//! Definitions that are found by a qualified name and known by a number.

use redb::{ReadTransaction, WriteTransaction};
use vstd::prelude::*;
use vstd::utf8::encode_utf8;

use crate::bytes::{
    be, be_value, bytes_eq, get_be, lemma_be_injective, lemma_be_len, lemma_be_of_be_value, lemma_be_order,
    lemma_be_value_of_be, lemma_pow256_values, put_be,
};
use crate::catalog::Table;
use crate::collect::{collect, lemma_collect_fails, lemma_collect_members, lemma_collect_step};
use crate::order::{lemma_lex_irreflexive, lemma_lex_transitive, lex_lt};
use crate::row::{
    fits, from_bytes, image, lemma_parsed, lemma_text_injective, load, load_at, parsed, row_models, save, slot,
    LoadError, Row, Slot,
};
use crate::store::{
    entry_models, get, lemma_scan_exists, lookup, opened, put, rdb, read, read_prefix, scan, scan_prefix, scanned,
    tables_kept, wdb, Db, Entry,
};

verus! {

/// A row that defines something of a qualified name.
pub trait Definition: Row {
    /// The table of the definitions, by number.
    spec fn primary() -> Table;

    /// The table of the numbers, by name.
    spec fn index() -> Table;

    spec fn full_name(m: Self::M) -> Seq<char>;

    /// The version of the schema that it comes from.
    spec fn version(m: Self::M) -> u32;

    /// Whether two definitions define the same.
    spec fn agree(a: Self::M, b: Self::M) -> bool;

    /// The definition under another number.
    spec fn numbered(m: Self::M, id: u32) -> Self::M;

    /// The two tables are two, and a number changes nothing else.
    proof fn definition_facts(m: Self::M, id: u32)
        ensures
            Self::primary() != Self::index(),
            Self::agree(Self::numbered(m, id), m),
            Self::full_name(Self::numbered(m, id)) == Self::full_name(m),
            Self::version(Self::numbered(m, id)) == Self::version(m),
    ;

    fn primary_table() -> (r: Table)
        ensures
            r == Self::primary(),
    ;

    fn index_table() -> (r: Table)
        ensures
            r == Self::index(),
    ;

    fn make_full_name(&self) -> (r: String)
        ensures
            r@ == Self::full_name(self.model()),
    ;

    fn schema_version_of(&self) -> (r: u32)
        ensures
            r == Self::version(self.model()),
    ;

    fn agrees_with(&self, other: &Self) -> (r: bool)
        ensures
            r == Self::agree(self.model(), other.model()),
    ;

    fn with_number(self, id: u32) -> (r: Self)
        ensures
            r.model() == Self::numbered(self.model(), id),
    ;
}

/// Why a definition was refused.
#[derive(Debug)]
pub enum DefinitionError {
    Storage(redb::Error),
    /// A stored row or number is none.
    Corrupt,
    /// There is another definition of the name, of the same version or a later
    /// one.
    AlreadyExists { qname: String, existing: u32 },
    /// Every number is taken.
    IdSpaceExhausted,
}

/// Why a definition is refused, as it is spoken of.
pub enum Refusal {
    Corrupt,
    AlreadyExists { qname: Seq<char>, existing: u32 },
    IdSpaceExhausted,
}

impl DefinitionError {
    /// Whether the error says what `f` says.
    pub open spec fn says(&self, f: Refusal) -> bool {
        match *self {
            DefinitionError::Storage(_) => false,
            DefinitionError::Corrupt => f is Corrupt,
            DefinitionError::AlreadyExists { qname, existing } => f == (Refusal::AlreadyExists {
                qname: qname@,
                existing,
            }),
            DefinitionError::IdSpaceExhausted => f is IdSpaceExhausted,
        }
    }
}

pub(crate) fn load_refused(e: LoadError) -> (r: DefinitionError)
    ensures
        e is Storage ==> r is Storage,
        e is Corrupt ==> r is Corrupt,
{
    match e {
        LoadError::Storage(e) => DefinitionError::Storage(e),
        LoadError::Corrupt => DefinitionError::Corrupt,
    }
}

/// Whether two texts are the same.
pub fn text_eq(a: &str, b: &str) -> (r: bool)
    ensures
        r == (a@ == b@),
{
    let r = bytes_eq(a.as_bytes(), b.as_bytes());
    proof {
        if r {
            lemma_text_injective(a@, b@);
        }
    }
    r
}

/// The key of a number.
pub open spec fn number_key(id: u32) -> Seq<u8> {
    be(id as nat, 4)
}

pub fn make_number_key(id: u32) -> (r: Vec<u8>)
    ensures
        r@ == number_key(id),
{
    let mut k: Vec<u8> = Vec::new();
    put_be(&mut k, id as u64, 4);
    proof {
        assert(k@ =~= number_key(id));
    }
    k
}

/// The number that a byte string is the key of.
pub open spec fn number_of(b: Seq<u8>) -> Option<u32> {
    if b.len() == 4 {
        Some(be_value(b) as u32)
    } else {
        None
    }
}

pub fn read_number(b: &[u8]) -> (r: Option<u32>)
    ensures
        r == number_of(b@),
{
    if b.len() != 4 {
        return None;
    }
    proof {
        lemma_pow256_values();
        assert(b@.subrange(0, 4) =~= b@);
    }
    Some(get_be(b, 0, 4) as u32)
}

/// A number is read back from its key.
pub proof fn lemma_number_of_key(id: u32)
    ensures
        number_of(number_key(id)) == Some(id),
{
    lemma_pow256_values();
    lemma_be_len(id as nat, 4);
    lemma_be_value_of_be(id as nat, 4);
}

/// The number under a name, if there is one.
pub open spec fn indexed(db: Db, index: Table, qname: Seq<char>) -> Result<Option<u32>, Refusal> {
    match lookup(db, index, encode_utf8(qname)) {
        None => Ok(None),
        Some(b) => match number_of(b) {
            Some(id) => Ok(Some(id)),
            None => Err(Refusal::Corrupt),
        },
    }
}

/// One more than the last number of a table; 1 if it is empty.
pub open spec fn next_number(db: Db, primary: Table) -> Result<u32, Refusal> {
    let all = scan(db, primary, Seq::empty());
    if all.len() == 0 {
        Ok(1)
    } else {
        match number_of(all.last().0) {
            None => Err(Refusal::Corrupt),
            Some(last) => if last == u32::MAX {
                Err(Refusal::IdSpaceExhausted)
            } else {
                Ok((last + 1) as u32)
            },
        }
    }
}

/// The state with a definition under a number.
pub open spec fn defined<D: Definition>(db: Db, m: D::M, id: u32) -> Db {
    db.insert((D::primary(), number_key(id)), image::<D>(D::numbered(m, id)))
}

/// The state with a definition under a number and the number under its name.
pub open spec fn defined_anew<D: Definition>(db: Db, m: D::M, id: u32) -> Db {
    defined::<D>(db, m, id).insert((D::index(), encode_utf8(D::full_name(m))), number_key(id))
}

/// What defining comes to: the state afterwards and the number. A definition
/// that is there already stays; one that says otherwise gives way to a later
/// version and to no other.
pub open spec fn interned<D: Definition>(db: Db, m: D::M) -> Result<(Db, u32), Refusal> {
    match indexed(db, D::index(), D::full_name(m)) {
        Err(e) => Err(e),
        Ok(None) => match next_number(db, D::primary()) {
            Err(e) => Err(e),
            Ok(id) => Ok((defined_anew::<D>(db, m, id), id)),
        },
        Ok(Some(id)) => match slot::<D>(db, D::primary(), number_key(id)) {
            Slot::Corrupt => Err(Refusal::Corrupt),
            Slot::Absent => Ok((defined::<D>(db, m, id), id)),
            Slot::Row(old_m) => if D::agree(old_m, m) {
                Ok((db, id))
            } else if D::version(m) > D::version(old_m) {
                Ok((defined::<D>(db, m, id), id))
            } else {
                Err(Refusal::AlreadyExists { qname: D::full_name(m), existing: id })
            },
        },
    }
}

/// Whether the definitions can be listed where a name that is not there yet is
/// defined.
pub open spec fn intern_scanned<D: Definition>(db: Db, qname: Seq<char>) -> bool {
    indexed(db, D::index(), qname) == Ok::<_, Refusal>(None::<u32>) ==> scanned(db, D::primary(), Seq::empty())
}

/// What defining comes to is a matter of the rows alone.
pub proof fn lemma_interned_by_rows<D: Definition>(a: Db, b: Db, m: D::M)
    requires
        a.rows == b.rows,
    ensures
        match (interned::<D>(a, m), interned::<D>(b, m)) {
            (Ok(x), Ok(y)) => x.0.rows == y.0.rows && x.1 == y.1,
            (Err(e), Err(f)) => e == f,
            _ => false,
        },
{
}

/// One more than the last number of a table; 1 if it is empty.
pub fn find_next_number(wtxn: &mut WriteTransaction, primary: Table) -> (r: Result<u32, DefinitionError>)
    ensures
        r is Ok ==> scanned(wdb(*old(wtxn)), primary, Seq::empty()),
        tables_kept(*old(wtxn), *final(wtxn)),
        wdb(*final(wtxn)) == wdb(*old(wtxn)),
        match r {
            Ok(id) => next_number(wdb(*old(wtxn)), primary) == Ok::<_, Refusal>(id),
            Err(e) => e is Storage || (next_number(wdb(*old(wtxn)), primary) matches Err(f) && e.says(f)),
        },
{
    let prefix: Vec<u8> = Vec::new();
    let found = match scan_prefix(wtxn, primary, prefix.as_slice()) {
        Ok(v) => v,
        Err(e) => return Err(DefinitionError::Storage(e)),
    };
    proof {
        assert(prefix@ =~= Seq::<u8>::empty());
    }
    if found.len() == 0 {
        return Ok(1);
    }
    let last: usize = found.len() - 1;
    match read_number(found[last].0.as_slice()) {
        None => Err(DefinitionError::Corrupt),
        Some(id) => {
            if id == u32::MAX {
                Err(DefinitionError::IdSpaceExhausted)
            } else {
                Ok(id + 1)
            }
        },
    }
}

fn find_indexed(wtxn: &mut WriteTransaction, index: Table, qname: &str) -> (r: Result<Option<u32>, DefinitionError>)
    ensures
        tables_kept(*old(wtxn), *final(wtxn)),
        wdb(*final(wtxn)) == wdb(*old(wtxn)),
        match r {
            Ok(id) => indexed(wdb(*old(wtxn)), index, qname@) == Ok::<_, Refusal>(id),
            Err(e) => e is Storage || (indexed(wdb(*old(wtxn)), index, qname@) matches Err(f) && e.says(f)),
        },
{
    match get(wtxn, index, qname.as_bytes()) {
        Err(e) => Err(DefinitionError::Storage(e)),
        Ok(None) => Ok(None),
        Ok(Some(b)) => match read_number(b.as_slice()) {
            Some(id) => Ok(Some(id)),
            None => Err(DefinitionError::Corrupt),
        },
    }
}

fn define<D: Definition>(wtxn: &mut WriteTransaction, d: D, id: u32) -> (r: Result<(), DefinitionError>)
    ensures
        tables_kept(*old(wtxn), *final(wtxn)),
        r is Ok ==> wdb(*final(wtxn)) == defined::<D>(wdb(*old(wtxn)), d.model(), id),
        r matches Err(e) ==> e is Storage,
{
    let row = d.with_number(id);
    let key = make_number_key(id);
    match save(wtxn, D::primary_table(), key.as_slice(), &row) {
        Ok(()) => Ok(()),
        Err(e) => Err(DefinitionError::Storage(e)),
    }
}

/// Defines, and gives the number. The number that the definition has is not
/// looked at.
pub fn intern<D: Definition>(wtxn: &mut WriteTransaction, d: D) -> (r: Result<u32, DefinitionError>)
    ensures
        r is Ok ==> intern_scanned::<D>(wdb(*old(wtxn)), D::full_name(d.model())),
        tables_kept(*old(wtxn), *final(wtxn)),
        match r {
            Ok(id) => interned::<D>(wdb(*old(wtxn)), d.model()) == Ok::<_, Refusal>((wdb(*final(wtxn)), id)),
            Err(e) => e is Storage || (interned::<D>(wdb(*old(wtxn)), d.model()) matches Err(f) && e.says(f)),
        },
{
    let qname = d.make_full_name();
    match find_indexed(wtxn, D::index_table(), qname.as_str())? {
        None => {
            let id: u32 = find_next_number(wtxn, D::primary_table())?;
            define(wtxn, d, id)?;
            let value = make_number_key(id);
            match put(wtxn, D::index_table(), qname.as_str().as_bytes(), value.as_slice()) {
                Ok(()) => Ok(id),
                Err(e) => Err(DefinitionError::Storage(e)),
            }
        },
        Some(id) => {
            let key = make_number_key(id);
            let found: Option<D> = match load(wtxn, D::primary_table(), key.as_slice()) {
                Ok(x) => x,
                Err(e) => return Err(load_refused(e)),
            };
            match found {
                None => {
                    define(wtxn, d, id)?;
                    Ok(id)
                },
                Some(before) => {
                    if before.agrees_with(&d) {
                        Ok(id)
                    } else if d.schema_version_of() > before.schema_version_of() {
                        define(wtxn, d, id)?;
                        Ok(id)
                    } else {
                        Err(DefinitionError::AlreadyExists { qname, existing: id })
                    }
                },
            }
        },
    }
}

/// What is found under a name.
pub open spec fn named<D: Definition>(db: Db, qname: Seq<char>) -> Result<Option<D::M>, Refusal> {
    match indexed(db, D::index(), qname) {
        Err(e) => Err(e),
        Ok(None) => Ok(None),
        Ok(Some(id)) => match slot::<D>(db, D::primary(), number_key(id)) {
            Slot::Corrupt => Err(Refusal::Corrupt),
            Slot::Absent => Ok(None),
            Slot::Row(m) => Ok(Some(m)),
        },
    }
}

/// Finds a definition by its name.
pub fn find_named<D: Definition>(rtxn: &ReadTransaction, qname: &str) -> (r: Result<Option<D>, DefinitionError>)
    ensures
        r is Ok ==> opened(*rtxn, D::index()),
        match r {
            Ok(None) => named::<D>(rdb(*rtxn), qname@) == Ok::<_, Refusal>(None::<D::M>),
            Ok(Some(d)) => named::<D>(rdb(*rtxn), qname@) == Ok::<_, Refusal>(Some(d.model())),
            Err(e) => e is Storage || (named::<D>(rdb(*rtxn), qname@) matches Err(f) && e.says(f)),
        },
{
    let id: u32 = match read(rtxn, D::index_table(), qname.as_bytes()) {
        Err(e) => return Err(DefinitionError::Storage(e)),
        Ok(None) => return Ok(None),
        Ok(Some(b)) => match read_number(b.as_slice()) {
            Some(id) => id,
            None => return Err(DefinitionError::Corrupt),
        },
    };
    let key = make_number_key(id);
    match load_at(rtxn, D::primary_table(), key.as_slice()) {
        Ok(x) => Ok(x),
        Err(e) => Err(load_refused(e)),
    }
}

/// A row of a table.
pub open spec fn row_in<R: Row>(kv: (Seq<u8>, Seq<u8>)) -> Result<Option<R::M>, Refusal> {
    match parsed::<R>(kv.1) {
        Slot::Row(m) => Ok(Some(m)),
        _ => Err(Refusal::Corrupt),
    }
}

/// The rows of a table, in the order of the keys.
pub open spec fn all_rows<R: Row>(db: Db, t: Table) -> Result<Seq<R::M>, Refusal> {
    collect(scan(db, t, Seq::empty()), |kv: (Seq<u8>, Seq<u8>)| row_in::<R>(kv))
}

/// Parses rows as a scan hands them out.
pub fn parse_rows<R: Row>(found: &Vec<Entry>) -> (r: Result<Vec<R>, DefinitionError>)
    ensures
        match r {
            Ok(v) => collect(entry_models(found@), |kv: (Seq<u8>, Seq<u8>)| row_in::<R>(kv)) == Ok::<_, Refusal>(
                row_models(v@),
            ),
            Err(e) => collect(entry_models(found@), |kv: (Seq<u8>, Seq<u8>)| row_in::<R>(kv)) matches Err(f) && e.says(
                f,
            ),
        },
{
    let ghost entries = entry_models(found@);
    let ghost f = |kv: (Seq<u8>, Seq<u8>)| row_in::<R>(kv);
    let mut out: Vec<R> = Vec::new();
    let mut i: usize = 0;
    proof {
        assert(entries.take(0) =~= Seq::<(Seq<u8>, Seq<u8>)>::empty());
        assert(row_models(out@) =~= Seq::<R::M>::empty());
    }
    while i < found.len()
        invariant
            i <= found.len(),
            entries == entry_models(found@),
            f == (|kv: (Seq<u8>, Seq<u8>)| row_in::<R>(kv)),
            collect(entries.take(i as int), f) == Ok::<_, Refusal>(row_models(out@)),
        decreases found.len() - i,
    {
        proof {
            lemma_collect_step(entries, f, i as int);
            if collect(entries.take(i + 1), f) is Err {
                lemma_collect_fails(entries, f, i + 1);
            }
        }
        let row: R = match from_bytes(found[i].1.as_slice()) {
            Some(x) => x,
            None => return Err(DefinitionError::Corrupt),
        };
        let ghost before = row_models(out@);
        out.push(row);
        proof {
            assert(row_models(out@) =~= before.push(row.model()));
        }
        i = i + 1;
    }
    proof {
        assert(entries.take(i as int) =~= entries);
    }
    Ok(out)
}

/// The rows of a table, in the order of the keys.
pub fn list_rows<R: Row>(rtxn: &ReadTransaction, t: Table) -> (r: Result<Vec<R>, DefinitionError>)
    ensures
        r is Ok ==> opened(*rtxn, t),
        r is Ok ==> scanned(rdb(*rtxn), t, Seq::empty()),
        match r {
            Ok(v) => all_rows::<R>(rdb(*rtxn), t) == Ok::<_, Refusal>(row_models(v@)),
            Err(e) => e is Storage || (all_rows::<R>(rdb(*rtxn), t) matches Err(f) && e.says(f)),
        },
{
    let prefix: Vec<u8> = Vec::new();
    proof {
        assert(prefix@ =~= Seq::<u8>::empty());
    }
    match read_prefix(rtxn, t, prefix.as_slice()) {
        Ok(found) => parse_rows(&found),
        Err(e) => Err(DefinitionError::Storage(e)),
    }
}

/// The rows of a table inside a transaction, in the order of the keys.
pub fn list_rows_in<R: Row>(wtxn: &mut WriteTransaction, t: Table) -> (r: Result<Vec<R>, DefinitionError>)
    ensures
        r is Ok ==> scanned(wdb(*old(wtxn)), t, Seq::empty()),
        tables_kept(*old(wtxn), *final(wtxn)),
        wdb(*final(wtxn)) == wdb(*old(wtxn)),
        match r {
            Ok(v) => all_rows::<R>(wdb(*old(wtxn)), t) == Ok::<_, Refusal>(row_models(v@)),
            Err(e) => e is Storage || (all_rows::<R>(wdb(*old(wtxn)), t) matches Err(f) && e.says(f)),
        },
{
    let prefix: Vec<u8> = Vec::new();
    proof {
        assert(prefix@ =~= Seq::<u8>::empty());
    }
    match scan_prefix(wtxn, t, prefix.as_slice()) {
        Ok(found) => parse_rows(&found),
        Err(e) => Err(DefinitionError::Storage(e)),
    }
}

/// What was defined is found by its name, and defining it again changes nothing.
pub proof fn lemma_intern_again<D: Definition>(db: Db, m: D::M)
    requires
        forall|id: u32| fits::<D>(#[trigger] D::numbered(m, id)),
        interned::<D>(db, m) is Ok,
    ensures
        ({
            let (after, id) = interned::<D>(db, m)->Ok_0;
            &&& interned::<D>(after, m) == Ok::<_, Refusal>((after, id))
            &&& named::<D>(after, D::full_name(m)) matches Ok(Some(found)) && D::agree(found, m)
        }),
{
    let (after, id) = interned::<D>(db, m)->Ok_0;
    D::definition_facts(m, id);
    lemma_number_of_key(id);
    lemma_parsed::<D>(D::numbered(m, id));
}

/// The next number of a table whose keys are numbers is greater than every one of them,
/// and by one than some; the first is 1.
pub proof fn lemma_next_number(db: Db, primary: Table, taken: u32)
    requires
        db.rows.dom().finite(),
        forall|k: Seq<u8>| (#[trigger] lookup(db, primary, k)) is Some ==> k.len() == 4,
    ensures
        match next_number(db, primary) {
            Ok(id) => {
                &&& lookup(db, primary, be(taken as nat, 4)) is Some ==> taken < id
                &&& id == 1 || lookup(db, primary, be((id - 1) as nat, 4)) is Some
            },
            Err(Refusal::IdSpaceExhausted) => lookup(db, primary, be(0xffff_ffff, 4)) is Some,
            Err(_) => false,
        },
{
    let all = scan(db, primary, Seq::empty());
    lemma_scan_exists(db, primary, Seq::empty());
    lemma_pow256_values();
    if all.len() > 0 {
        let last = all.last().0;
        assert(all[all.len() - 1] == all.last());
        assert(lookup(db, primary, last) is Some);
        lemma_be_of_be_value(last);
        let n = number_of(last)->Some_0;
        assert(last == be(n as nat, 4));
    }
    let key = be(taken as nat, 4);
    if lookup(db, primary, key) is Some {
        assert(key.take(0) =~= Seq::<u8>::empty());
        assert(db.dom().contains((primary, key)));
        let i = choose|i: int| 0 <= i < all.len() && (#[trigger] all[i]).0 == key;
        let last = all.last().0;
        let n = number_of(last)->Some_0;
        if i < all.len() - 1 {
            assert(lex_lt(all[i].0, all[all.len() - 1].0));
            if n <= taken {
                if n < taken {
                    lemma_be_order(n as nat, taken as nat, 4);
                    lemma_lex_transitive(last, key, last);
                    lemma_lex_irreflexive(last);
                } else {
                    lemma_lex_irreflexive(key);
                }
            }
        } else {
            lemma_be_injective(n as nat, taken as nat, 4);
        }
    }
}

/// A name that is not there yet is defined under the next number: the definition under
/// the number, and the number under the name. Nothing else changes.
pub proof fn lemma_interned_anew<D: Definition>(db: Db, m: D::M, t: Table, k: Seq<u8>)
    requires
        fits::<D>(D::numbered(m, interned::<D>(db, m)->Ok_0.1)),
        interned::<D>(db, m) is Ok,
        lookup(db, D::index(), encode_utf8(D::full_name(m))) is None,
    ensures
        ({
            let (after, id) = interned::<D>(db, m)->Ok_0;
            &&& next_number(db, D::primary()) == Ok::<_, Refusal>(id)
            &&& slot::<D>(after, D::primary(), be(id as nat, 4)) == Slot::Row(D::numbered(m, id))
            &&& lookup(after, D::index(), encode_utf8(D::full_name(m))) == Some(be(id as nat, 4))
            &&& !(t == D::primary() && k == be(id as nat, 4)) && !(t == D::index() && k == encode_utf8(D::full_name(m)))
                ==> lookup(after, t, k) == lookup(db, t, k)
        }),
{
    let id = interned::<D>(db, m)->Ok_0.1;
    D::definition_facts(m, id);
    lemma_parsed::<D>(D::numbered(m, id));
}

/// A name that is there keeps its number. A definition that says the same changes
/// nothing; one that says otherwise takes the place of the stored one if it is of a later
/// version, and is refused else.
pub proof fn lemma_interned_over<D: Definition>(db: Db, m: D::M, id: u32, t: Table, k: Seq<u8>)
    requires
        fits::<D>(D::numbered(m, id)),
        lookup(db, D::index(), encode_utf8(D::full_name(m))) == Some(be(id as nat, 4)),
        slot::<D>(db, D::primary(), be(id as nat, 4)) is Row,
    ensures
        ({
            let old_m = slot::<D>(db, D::primary(), be(id as nat, 4))->Row_0;
            if D::agree(old_m, m) {
                interned::<D>(db, m) == Ok::<_, Refusal>((db, id))
            } else if D::version(m) <= D::version(old_m) {
                interned::<D>(db, m) == Err::<(Db, u32), _>(
                    Refusal::AlreadyExists { qname: D::full_name(m), existing: id },
                )
            } else {
                &&& interned::<D>(db, m) matches Ok(x)
                &&& x.1 == id
                &&& slot::<D>(x.0, D::primary(), be(id as nat, 4)) == Slot::Row(D::numbered(m, id))
                &&& !(t == D::primary() && k == be(id as nat, 4)) ==> lookup(x.0, t, k) == lookup(db, t, k)
            }
        }),
{
    lemma_number_of_key(id);
    lemma_parsed::<D>(D::numbered(m, id));
}

/// The list of the rows of a table holds a row exactly if it is stored under some key.
pub proof fn lemma_all_rows<R: Row>(db: Db, t: Table, m: R::M)
    requires
        db.rows.dom().finite(),
        all_rows::<R>(db, t) is Ok,
    ensures
        all_rows::<R>(db, t)->Ok_0.contains(m) <==> exists|k: Seq<u8>| #[trigger] slot::<R>(db, t, k) == Slot::Row(m),
{
    let entries = scan(db, t, Seq::empty());
    let f = |kv: (Seq<u8>, Seq<u8>)| row_in::<R>(kv);
    lemma_scan_exists(db, t, Seq::empty());
    lemma_collect_members(entries, f, m);
    if all_rows::<R>(db, t)->Ok_0.contains(m) {
        let i = choose|i: int| 0 <= i < entries.len() && f(#[trigger] entries[i]) == Ok::<_, Refusal>(Some(m));
        assert(lookup(db, t, entries[i].0) == Some(entries[i].1));
        assert(slot::<R>(db, t, entries[i].0) == Slot::Row(m));
    }
    if exists|k: Seq<u8>| #[trigger] slot::<R>(db, t, k) == Slot::Row(m) {
        let k = choose|k: Seq<u8>| #[trigger] slot::<R>(db, t, k) == Slot::Row(m);
        assert(k.take(0) =~= Seq::<u8>::empty());
        assert(db.dom().contains((t, k)));
        let i = choose|i: int| 0 <= i < entries.len() && (#[trigger] entries[i]).0 == k;
        assert(lookup(db, t, entries[i].0) == Some(entries[i].1));
        assert(f(entries[i]) == Ok::<_, Refusal>(Some(m)));
    }
}

} // verus!
