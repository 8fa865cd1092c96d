//! Storing, finding and removing question vectors.

use redb::{ReadTransaction, WriteTransaction};
use vstd::prelude::*;

use crate::bytes::{get_array, put_bytes};
use crate::catalog::Table;
use crate::collect::{collect, lemma_collect_fails, lemma_collect_members, lemma_collect_step};
use crate::order::has_prefix;
use crate::row::LoadError;
use crate::store::{
    del, entry_models, lemma_scan_exists, lookup, opened, put, rdb, read_prefix, scan, scan_prefix, scanned, wdb, Db,
    Entry,
};
use crate::types::{StatementId, F32};

verus! {

/// Why the vectors of questions could not be listed.
pub type StatementQuestionOpError = LoadError;

/// The numbers of a vector.
pub const VECTOR_DIM: usize = 384;

/// The bytes of a vector: 384 numbers of 4 bytes.
pub const STATEMENT_QUESTION_VECTOR_BYTES: usize = 1536;

/// Byte `k` of a 4-byte number, least significant first.
pub open spec fn le_byte(n: u32, k: int) -> u8 {
    if k == 0 {
        (n % 256) as u8
    } else if k == 1 {
        (n / 256 % 256) as u8
    } else if k == 2 {
        (n / 65536 % 256) as u8
    } else {
        (n / 16777216) as u8
    }
}

/// The bytes of a vector, each number's least significant byte first.
pub open spec fn vector_image(v: Seq<F32>) -> Seq<u8> {
    Seq::new(4 * v.len(), |j: int| le_byte(v[j / 4].bits, j % 4))
}

/// The number of four bytes.
pub open spec fn le_value(a: u8, b: u8, c: u8, d: u8) -> u32 {
    (a as int + 256 * b as int + 65536 * c as int + 16777216 * d as int) as u32
}

/// The vector of a byte string.
pub open spec fn vector_of(b: Seq<u8>) -> Seq<F32> {
    Seq::new(
        b.len() / 4,
        |i: int| F32 { bits: le_value(b[4 * i], b[4 * i + 1], b[4 * i + 2], b[4 * i + 3]) },
    )
}

/// A vector is read back from its bytes as it was.
pub proof fn lemma_vector_round_trip(v: Seq<F32>)
    ensures
        vector_of(vector_image(v)) == v,
{
    let b = vector_image(v);
    assert forall|i: int| 0 <= i < v.len() implies (#[trigger] vector_of(b)[i]) == v[i] by {
        assert((4 * i) / 4 == i && (4 * i) % 4 == 0);
        assert((4 * i + 1) / 4 == i && (4 * i + 1) % 4 == 1);
        assert((4 * i + 2) / 4 == i && (4 * i + 2) % 4 == 2);
        assert((4 * i + 3) / 4 == i && (4 * i + 3) % 4 == 3);
    }
    assert(vector_of(b) =~= v);
}

fn vector_to_bytes(vector: &[F32; 384]) -> (r: Vec<u8>)
    ensures
        r@ == vector_image(vector@),
{
    let mut out: Vec<u8> = Vec::new();
    let mut i: usize = 0;
    while i < 384
        invariant
            i <= 384,
            out@ == vector_image(vector@.take(i as int)),
        decreases 384 - i,
    {
        let n: u32 = vector[i].bits;
        out.push((n % 256) as u8);
        out.push((n / 256 % 256) as u8);
        out.push((n / 65536 % 256) as u8);
        out.push((n / 16777216) as u8);
        proof {
            let want = vector_image(vector@.take(i + 1));
            assert forall|j: int| 0 <= j < 4 * i + 4 implies out@[j] == #[trigger] want[j] by {
                if j < 4 * i {
                    assert(vector@.take(i + 1)[j / 4] == vector@.take(i as int)[j / 4]);
                } else {
                    assert(j / 4 == i);
                }
            }
            assert(out@ =~= want);
        }
        i = i + 1;
    }
    proof {
        assert(vector@.take(384) =~= vector@);
    }
    out
}

fn bytes_to_vector(bytes: &Vec<u8>) -> (r: [F32; 384])
    requires
        bytes@.len() == 1536,
    ensures
        r@ == vector_of(bytes@),
{
    let mut out: [F32; 384] = [F32 { bits: 0 };384];
    let mut i: usize = 0;
    while i < 384
        invariant
            i <= 384,
            bytes@.len() == 1536,
            forall|k: int| 0 <= k < i ==> out@[k] == #[trigger] vector_of(bytes@)[k],
        decreases 384 - i,
    {
        let at: usize = 4 * i;
        let n: u32 = bytes[at] as u32 + 256 * (bytes[at + 1] as u32) + 65536 * (bytes[at + 2] as u32) + 16777216 * (
        bytes[at + 3] as u32);
        out[i] = F32 { bits: n };
        i = i + 1;
    }
    proof {
        assert(out@ =~= vector_of(bytes@));
    }
    out
}

/// The key of a question: statement, number of the question.
pub open spec fn question_key(id: StatementId, index: u8) -> Seq<u8> {
    id.0@ + seq![index]
}

fn row_key(statement_id: StatementId, question_index: u8) -> (r: Vec<u8>)
    ensures
        r@ == question_key(statement_id, question_index),
{
    let mut k: Vec<u8> = Vec::new();
    put_bytes(&mut k, statement_id.0.as_slice());
    k.push(question_index);
    proof {
        assert(k@ =~= question_key(statement_id, question_index));
    }
    k
}

/// The state with a question's vector.
pub open spec fn with_question(db: Db, id: StatementId, index: u8, v: Seq<F32>) -> Db {
    db.insert((Table::StatementQuestionVectors, question_key(id, index)), vector_image(v))
}

/// Stores the vector of a question, in place of the one that was there.
pub fn statement_question_put(
    wtxn: &mut WriteTransaction,
    statement_id: StatementId,
    question_index: u8,
    vector: &[F32; 384],
) -> (r: Result<(), redb::Error>)
    ensures
        wdb(*final(wtxn)).home == wdb(*old(wtxn)).home,
        r is Ok ==> wdb(*final(wtxn)) == with_question(wdb(*old(wtxn)), statement_id, question_index, vector@),
{
    let key = row_key(statement_id, question_index);
    let bytes = vector_to_bytes(vector);
    put(wtxn, Table::StatementQuestionVectors, key.as_slice(), bytes.as_slice())
}

/// Whether a statement has a question's vector.
pub open spec fn has_question(db: Db, id: StatementId) -> bool {
    exists|k: Seq<u8>| #[trigger]
        db.dom().contains((Table::StatementQuestionVectors, k)) && has_prefix(k, id.0@)
}

/// Whether there is a vector among the rows that a search came back with. A
/// failed search stays a failure.
pub fn vectors_found(found: Result<Vec<Entry>, redb::Error>) -> (r: Result<bool, redb::Error>)
    ensures
        r == match found {
            Ok(v) => Ok::<_, redb::Error>(v@.len() > 0),
            Err(e) => Err(e),
        },
{
    match found {
        Ok(v) => Ok(v.len() > 0),
        Err(e) => Err(e),
    }
}

/// Whether a statement has a question's vector.
pub fn statement_question_has_vectors(rtxn: &ReadTransaction, statement_id: StatementId) -> (r: Result<
    bool,
    redb::Error,
>)
    ensures
        r is Ok ==> opened(*rtxn, Table::StatementQuestionVectors),
        r matches Ok(found) ==> found == has_question(rdb(*rtxn), statement_id),
{
    let found = read_prefix(rtxn, Table::StatementQuestionVectors, statement_id.0.as_slice());
    proof {
        if found is Ok {
            let entries = entry_models(found->Ok_0@);
            if entries.len() > 0 {
                let k = entries[0].0;
                assert(rdb(*rtxn).dom().contains((Table::StatementQuestionVectors, k)));
            }
        }
    }
    vectors_found(found)
}

/// The state without the vectors under `keys`.
pub open spec fn questions_removed(db: Db, keys: Seq<Seq<u8>>) -> Db
    decreases keys.len(),
{
    if keys.len() == 0 {
        db
    } else {
        questions_removed(db, keys.drop_last()).remove((Table::StatementQuestionVectors, keys.last()))
    }
}

/// The keys of a statement's questions.
pub open spec fn question_keys(db: Db, id: StatementId) -> Seq<Seq<u8>> {
    scan(db, Table::StatementQuestionVectors, id.0@).map_values(|kv: (Seq<u8>, Seq<u8>)| kv.0)
}

/// The keys of the rows that a search came back with.
pub open spec fn keys_found(found: Seq<Entry>) -> Seq<Seq<u8>> {
    entry_models(found).map_values(|kv: (Seq<u8>, Seq<u8>)| kv.0)
}

/// Removes the vectors that a search came back with, and tells how many there
/// were. Where there are none, nothing can fail.
pub fn remove_found(wtxn: &mut WriteTransaction, found: &Vec<Entry>) -> (r: Result<usize, redb::Error>)
    ensures
        wdb(*final(wtxn)).home == wdb(*old(wtxn)).home,
        found@.len() == 0 ==> r == Ok::<_, redb::Error>(0usize),
        r matches Ok(n) ==> {
            &&& n == found@.len()
            &&& wdb(*final(wtxn)) == questions_removed(wdb(*old(wtxn)), keys_found(found@))
        },
{
    let ghost db = wdb(*wtxn);
    let ghost keys = keys_found(found@);
    let mut i: usize = 0;
    while i < found.len()
        invariant
            i <= found.len(),
            keys == keys_found(found@),
            db == wdb(*old(wtxn)),
            wdb(*wtxn).home == db.home,
            wdb(*wtxn) == questions_removed(db, keys.take(i as int)),
        decreases found.len() - i,
    {
        del(wtxn, Table::StatementQuestionVectors, found[i].0.as_slice())?;
        i = i + 1;
        proof {
            assert(keys.take(i as int).drop_last() =~= keys.take(i as int - 1));
        }
    }
    proof {
        assert(keys.take(i as int) =~= keys);
    }
    Ok(found.len())
}

/// Removes every vector of a statement, and tells how many there were.
pub fn statement_question_delete(wtxn: &mut WriteTransaction, statement_id: StatementId) -> (r: Result<
    usize,
    redb::Error,
>)
    ensures
        r is Ok ==> scanned(wdb(*old(wtxn)), Table::StatementQuestionVectors, statement_id.0@),
        wdb(*final(wtxn)).home == wdb(*old(wtxn)).home,
        r matches Ok(n) ==> {
            &&& n == question_keys(wdb(*old(wtxn)), statement_id).len()
            &&& wdb(*final(wtxn)) == questions_removed(
                wdb(*old(wtxn)),
                question_keys(wdb(*old(wtxn)), statement_id),
            )
        },
{
    let found = scan_prefix(wtxn, Table::StatementQuestionVectors, statement_id.0.as_slice())?;
    remove_found(wtxn, &found)
}

/// A statement and the vector of one of its questions.
pub type StatementQuestionRebuildRow = (StatementId, [F32; 384]);

/// The statement and the vector of a row.
pub open spec fn question_in(kv: (Seq<u8>, Seq<u8>)) -> Result<Option<(Seq<u8>, Seq<F32>)>, ()> {
    if kv.0.len() == 17 && kv.1.len() == 1536 {
        Ok(Some((kv.0.take(16), vector_of(kv.1))))
    } else {
        Err(())
    }
}

/// The rows that were found, as they are spoken of.
pub open spec fn question_models(v: Seq<StatementQuestionRebuildRow>) -> Seq<(Seq<u8>, Seq<F32>)> {
    v.map_values(|x: StatementQuestionRebuildRow| (x.0.0@, x.1@))
}

/// Every question's vector, in the order of the keys.
pub open spec fn all_questions(db: Db) -> Result<Seq<(Seq<u8>, Seq<F32>)>, ()> {
    collect(scan(db, Table::StatementQuestionVectors, Seq::empty()), |kv: (Seq<u8>, Seq<u8>)| question_in(kv))
}

/// Every question's vector, in the order of the keys.
pub fn statement_question_iter_all(rtxn: &ReadTransaction) -> (r: Result<
    Vec<StatementQuestionRebuildRow>,
    StatementQuestionOpError,
>)
    ensures
        r is Ok ==> opened(*rtxn, Table::StatementQuestionVectors),
        r is Ok ==> scanned(rdb(*rtxn), Table::StatementQuestionVectors, Seq::empty()),
        match r {
            Ok(v) => all_questions(rdb(*rtxn)) == Ok::<_, ()>(question_models(v@)),
            Err(LoadError::Corrupt) => all_questions(rdb(*rtxn)) is Err,
            Err(LoadError::Storage(_)) => true,
        },
{
    let prefix: Vec<u8> = Vec::new();
    let found = match read_prefix(rtxn, Table::StatementQuestionVectors, prefix.as_slice()) {
        Ok(v) => v,
        Err(e) => return Err(LoadError::Storage(e)),
    };
    let ghost entries = entry_models(found@);
    let ghost f = |kv: (Seq<u8>, Seq<u8>)| question_in(kv);
    let mut out: Vec<StatementQuestionRebuildRow> = Vec::new();
    let mut i: usize = 0;
    proof {
        assert(prefix@ =~= Seq::<u8>::empty());
        assert(entries.take(0) =~= Seq::<(Seq<u8>, Seq<u8>)>::empty());
        assert(question_models(out@) =~= Seq::<(Seq<u8>, Seq<F32>)>::empty());
    }
    while i < found.len()
        invariant
            i <= found.len(),
            entries == entry_models(found@),
            f == (|kv: (Seq<u8>, Seq<u8>)| question_in(kv)),
            all_questions(rdb(*rtxn)) == collect(entries, f),
            collect(entries.take(i as int), f) == Ok::<_, ()>(question_models(out@)),
        decreases found.len() - i,
    {
        proof {
            lemma_collect_step(entries, f, i as int);
            if collect(entries.take(i + 1), f) is Err {
                lemma_collect_fails(entries, f, i + 1);
            }
        }
        if found[i].0.len() != 17 || found[i].1.len() != 1536 {
            return Err(LoadError::Corrupt);
        }
        let id = StatementId(get_array::<16>(found[i].0.as_slice(), 0));
        let v = bytes_to_vector(&found[i].1);
        let ghost before = question_models(out@);
        out.push((id, v));
        proof {
            assert(id.0@ =~= entries[i as int].0.take(16));
            assert(question_models(out@) =~= before.push((id.0@, v@)));
        }
        i = i + 1;
    }
    proof {
        assert(entries.take(i as int) =~= entries);
    }
    Ok(out)
}

proof fn lemma_removed(db: Db, keys: Seq<Seq<u8>>, t: Table, k: Seq<u8>)
    ensures
        questions_removed(db, keys).dom().contains((t, k)) <==> db.dom().contains((t, k)) && !(t
            is StatementQuestionVectors && keys.contains(k)),
        questions_removed(db, keys).dom().contains((t, k)) ==> questions_removed(db, keys)[(t, k)] == db[(t, k)],
    decreases keys.len(),
{
    if keys.len() > 0 {
        lemma_removed(db, keys.drop_last(), t, k);
        assert(keys =~= keys.drop_last().push(keys.last()));
        assert(keys.contains(k) <==> keys.drop_last().contains(k) || keys.last() == k) by {
            if keys.drop_last().contains(k) {
                let i = keys.drop_last().index_of(k);
                assert(keys[i] == k);
            }
            if keys.last() == k {
                assert(keys[keys.len() - 1] == k);
            }
        }
    }
}

/// After its vectors were removed a statement has none, and every other row is
/// as before.
pub proof fn lemma_delete_removes_all(db: Db, id: StatementId, t: Table, k: Seq<u8>)
    requires
        db.rows.dom().finite(),
    ensures
        !has_question(questions_removed(db, question_keys(db, id)), id),
        !(t is StatementQuestionVectors && has_prefix(k, id.0@)) ==> lookup(
            questions_removed(db, question_keys(db, id)),
            t,
            k,
        ) == lookup(db, t, k),
{
    let s = scan(db, Table::StatementQuestionVectors, id.0@);
    lemma_scan_exists(db, Table::StatementQuestionVectors, id.0@);
    let keys = question_keys(db, id);
    let after = questions_removed(db, keys);
    assert forall|q: Seq<u8>| #[trigger] after.dom().contains((Table::StatementQuestionVectors, q)) implies !has_prefix(
        q,
        id.0@,
    ) by {
        lemma_removed(db, keys, Table::StatementQuestionVectors, q);
        if has_prefix(q, id.0@) {
            let i = choose|i: int| 0 <= i < s.len() && (#[trigger] s[i]).0 == q;
            assert(keys[i] == q);
        }
    }
    lemma_removed(db, keys, t, k);
    if t is StatementQuestionVectors && keys.contains(k) {
        let i = keys.index_of(k);
        assert(s[i].0 == k);
    }
}

/// The bytes of a vector: four for each number, the least significant first.
pub proof fn lemma_vector_bytes(v: Seq<F32>, i: int)
    requires
        0 <= i < v.len(),
    ensures
        vector_image(v).len() == 4 * v.len(),
        v[i].bits == vector_image(v)[4 * i] + 256 * vector_image(v)[4 * i + 1] + 65536 * vector_image(v)[4 * i + 2]
            + 16777216 * vector_image(v)[4 * i + 3],
{
    assert((4 * i) / 4 == i && (4 * i) % 4 == 0);
    assert((4 * i + 1) / 4 == i && (4 * i + 1) % 4 == 1);
    assert((4 * i + 2) / 4 == i && (4 * i + 2) % 4 == 2);
    assert((4 * i + 3) / 4 == i && (4 * i + 3) % 4 == 3);
}

/// A vector that was stored is stored under the statement and the number of the
/// question, and the statement has one. Every other row is as before.
pub proof fn lemma_question_is_stored(db: Db, id: StatementId, index: u8, v: Seq<F32>, t: Table, k: Seq<u8>)
    ensures
        ({
            let after = with_question(db, id, index, v);
            &&& lookup(after, Table::StatementQuestionVectors, id.0@.push(index)) == Some(vector_image(v))
            &&& has_question(after, id)
            &&& t != Table::StatementQuestionVectors || k != id.0@.push(index) ==> lookup(after, t, k) == lookup(db, t, k)
        }),
{
    let key = question_key(id, index);
    assert(key =~= id.0@.push(index));
    assert(key.take(16) =~= id.0@);
    assert(with_question(db, id, index, v).dom().contains((Table::StatementQuestionVectors, key)));
}

/// The list of all vectors holds a statement and a vector exactly if the vector is
/// stored under a question of the statement.
pub proof fn lemma_questions_listed(db: Db, id: StatementId, v: Seq<F32>)
    requires
        db.rows.dom().finite(),
        all_questions(db) is Ok,
        v.len() == 384,
    ensures
        all_questions(db)->Ok_0.contains((id.0@, v)) <==> exists|index: u8|
            lookup(db, Table::StatementQuestionVectors, #[trigger] id.0@.push(index)) == Some(vector_image(v)),
{
    let entries = scan(db, Table::StatementQuestionVectors, Seq::empty());
    let f = |kv: (Seq<u8>, Seq<u8>)| question_in(kv);
    lemma_scan_exists(db, Table::StatementQuestionVectors, Seq::empty());
    lemma_collect_members(entries, f, (id.0@, v));
    lemma_vector_round_trip(v);
    if all_questions(db)->Ok_0.contains((id.0@, v)) {
        let i = choose|i: int| 0 <= i < entries.len() && f(#[trigger] entries[i]) == Ok::<_, ()>(Some((id.0@, v)));
        let (k, b) = entries[i];
        assert(lookup(db, Table::StatementQuestionVectors, k) == Some(b));
        assert(k =~= id.0@.push(k[16]));
        lemma_bytes_of_vector(b);
    }
    if exists|index: u8|
        lookup(db, Table::StatementQuestionVectors, #[trigger] id.0@.push(index)) == Some(vector_image(v)) {
        let index = choose|index: u8|
            lookup(db, Table::StatementQuestionVectors, #[trigger] id.0@.push(index)) == Some(vector_image(v));
        let k = id.0@.push(index);
        assert(k.take(0) =~= Seq::<u8>::empty());
        assert(k.take(16) =~= id.0@);
        assert(db.dom().contains((Table::StatementQuestionVectors, k)));
        let i = choose|i: int| 0 <= i < entries.len() && (#[trigger] entries[i]).0 == k;
        assert(lookup(db, Table::StatementQuestionVectors, entries[i].0) == Some(entries[i].1));
        assert(f(entries[i]) == Ok::<_, ()>(Some((id.0@, v))));
    }
}

/// The bytes of a number are those that it was read from.
proof fn lemma_number_bytes(a: u8, b: u8, c: u8, d: u8)
    ensures
        le_byte(le_value(a, b, c, d), 0) == a,
        le_byte(le_value(a, b, c, d), 1) == b,
        le_byte(le_value(a, b, c, d), 2) == c,
        le_byte(le_value(a, b, c, d), 3) == d,
{
    let n = le_value(a, b, c, d);
    assert(n == a + 256 * b + 65536 * c + 16777216 * d);
    assert(n / 256 == b + 256 * c + 65536 * d);
    assert(n / 65536 == c + 256 * d);
    assert(n / 16777216 == d);
}

/// Bytes are those of the vector that they are read as.
proof fn lemma_bytes_of_vector(b: Seq<u8>)
    requires
        b.len() % 4 == 0,
    ensures
        vector_image(vector_of(b)) == b,
{
    let v = vector_of(b);
    let image = vector_image(v);
    assert(image.len() == b.len());
    assert forall|j: int| 0 <= j < b.len() implies #[trigger] image[j] == b[j] by {
        let i = j / 4;
        lemma_number_bytes(b[4 * i], b[4 * i + 1], b[4 * i + 2], b[4 * i + 3]);
        assert(image[j] == le_byte(v[i].bits, j % 4));
        assert(j % 4 == 0 ==> j == 4 * i);
        assert(j % 4 == 1 ==> j == 4 * i + 1);
        assert(j % 4 == 2 ==> j == 4 * i + 2);
        assert(j % 4 == 3 ==> j == 4 * i + 3);
    }
    assert(image =~= b);
}

/// A statement has a vector exactly if a row's key begins with its identifier.
pub proof fn lemma_has_question(db: Db, id: StatementId)
    ensures
        has_question(db, id) <==> exists|k: Seq<u8>|
            (#[trigger] lookup(db, Table::StatementQuestionVectors, k)) is Some && k.len() >= 16 && k.take(16) == id.0@,
{
    if has_question(db, id) {
        let k = choose|k: Seq<u8>| #[trigger]
            db.dom().contains((Table::StatementQuestionVectors, k)) && has_prefix(k, id.0@);
        assert(lookup(db, Table::StatementQuestionVectors, k) is Some);
    }
    if exists|k: Seq<u8>|
        (#[trigger] lookup(db, Table::StatementQuestionVectors, k)) is Some && k.len() >= 16 && k.take(16) == id.0@ {
        let k = choose|k: Seq<u8>|
            (#[trigger] lookup(db, Table::StatementQuestionVectors, k)) is Some && k.len() >= 16 && k.take(16) == id.0@;
        assert(db.dom().contains((Table::StatementQuestionVectors, k)));
    }
}

} // verus!
