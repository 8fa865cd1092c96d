//! Responses that are kept for repeated requests.

use redb::WriteTransaction;
use vstd::prelude::*;

use crate::bytes::get_bytes;
use crate::catalog::Table;
use crate::cells::{cell_models, Cell};
use crate::collect::{
    collect, collect_upto, differ, lemma_collect_fails, lemma_collect_members, lemma_collect_step, lemma_upto_all,
    lemma_upto_distinct, lemma_upto_ends, lemma_upto_len, lemma_upto_members, lemma_upto_unbounded,
};
use crate::order::{lemma_lex_irreflexive, lex_lt};
use crate::row::{
    array_at, blob_cell, bytes_at, from_bytes, group_row_fields, int_at, int_cell, lemma_opt_blob_injective,
    opt_array_at, opt_blob, opt_blob_cell, parsed, slot, u8_at, CellModel, LoadError, Row, Slot,
};
use crate::store::{del, entry_models, lemma_scan_exists, lookup, scan, scan_prefix, scanned, wdb, Db};
use crate::types::MemoryId;

pub mod response_kind;

verus! {

/// How long an entry is kept by default: a day.
pub const DEFAULT_TTL_NANOS: u64 = 86_400_000_000_000;

/// A row of the `idempotency` table: the response to a request, kept for its
/// repetition.
#[derive(Clone, Debug, PartialEq)]
pub struct IdempotencyEntry<B = Vec<u8>> {
    /// A constant of [`response_kind`].
    pub response_kind: u8,
    pub memory_id_bytes: Option<[u8; 16]>,
    /// The response, to be replayed as it is.
    pub response_payload: B,
    /// The hash of the request, by which a reused identifier is told from a
    /// repeated request.
    pub request_hash: [u8; 32],
    pub created_at_unix_nanos: u64,
    /// The log position of the record that the entry stands for.
    pub lsn: u64,
}

impl Row for IdempotencyEntry {
    type M = IdempotencyEntry<Seq<u8>>;

    open spec fn model(&self) -> IdempotencyEntry<Seq<u8>> {
        IdempotencyEntry {
            response_kind: self.response_kind,
            memory_id_bytes: self.memory_id_bytes,
            response_payload: self.response_payload@,
            request_hash: self.request_hash,
            created_at_unix_nanos: self.created_at_unix_nanos,
            lsn: self.lsn,
        }
    }

    open spec fn cells(m: IdempotencyEntry<Seq<u8>>) -> Seq<CellModel> {
        seq![
            Cell::Int(m.response_kind as u64),
            opt_blob(m.memory_id_bytes),
            Cell::Blob(m.response_payload),
            Cell::Blob(m.request_hash@),
            Cell::Int(m.created_at_unix_nanos),
            Cell::Int(m.lsn),
        ]
    }

    proof fn cells_injective(a: IdempotencyEntry<Seq<u8>>, b: IdempotencyEntry<Seq<u8>>) {
        broadcast use group_row_fields;

        let x = Self::cells(a);
        let y = Self::cells(b);
        assert(x[0] == y[0]
            && x[1] == y[1]
            && x[2] == y[2]
            && x[3] == y[3]
            && x[4] == y[4]
            && x[5] == y[5]);
        lemma_opt_blob_injective(a.memory_id_bytes, b.memory_id_bytes);
        assert(a.request_hash@ == b.request_hash@);
    }

    fn to_cells(&self) -> (r: Vec<Cell<Vec<u8>>>) {
        let cells: Vec<Cell<Vec<u8>>> = vec![
            int_cell(self.response_kind as u64),
            opt_blob_cell(&self.memory_id_bytes),
            blob_cell(self.response_payload.as_slice()),
            blob_cell(self.request_hash.as_slice()),
            int_cell(self.created_at_unix_nanos),
            int_cell(self.lsn),
        ];
        proof {
            assert(cell_models(cells@) =~= Self::cells(self.model()));
        }
        cells
    }

    fn from_cells(cells: &Vec<Cell<Vec<u8>>>) -> (r: Option<Self>) {
        if cells.len() != 6 {
            proof {
                assert forall|m: IdempotencyEntry<Seq<u8>>| #[trigger] Self::cells(m) != cell_models(cells@) by {
                    assert(Self::cells(m).len() == 6);
                }
            }
            return None;
        }
        let response_kind = match u8_at(cells, 0) {
            Some(x) => x,
            None => return None,
        };
        let memory_id_bytes = match opt_array_at::<16>(cells, 1) {
            Some(x) => x,
            None => return None,
        };
        let response_payload = match bytes_at(cells, 2) {
            Some(x) => x,
            None => return None,
        };
        let request_hash = match array_at::<32>(cells, 3) {
            Some(x) => x,
            None => return None,
        };
        let created_at_unix_nanos = match int_at(cells, 4) {
            Some(x) => x,
            None => return None,
        };
        let lsn = match int_at(cells, 5) {
            Some(x) => x,
            None => return None,
        };
        let row = IdempotencyEntry {
            response_kind,
            memory_id_bytes,
            response_payload,
            request_hash,
            created_at_unix_nanos,
            lsn,
        };
        proof {
            assert(Self::cells(row.model()) =~= cell_models(cells@));
        }
        Some(row)
    }
}

/// An entry as it is spoken of.
pub type IdempotencyModel = IdempotencyEntry<Seq<u8>>;

/// Whether an entry is older than its time to live. A sum beyond the range of
/// times stands for the latest.
pub open spec fn expired(created_at_unix_nanos: u64, now_unix_nanos: u64, ttl_nanos: u64) -> bool {
    created_at_unix_nanos + ttl_nanos < now_unix_nanos
}

impl IdempotencyEntry {
    #[must_use]
    pub fn new(
        response_kind: u8,
        memory_id_bytes: Option<[u8; 16]>,
        response_payload: Vec<u8>,
        request_hash: [u8; 32],
        created_at_unix_nanos: u64,
        lsn: u64,
    ) -> (r: Self)
        ensures
            r.model() == (IdempotencyModel {
                response_kind,
                memory_id_bytes,
                response_payload: response_payload@,
                request_hash,
                created_at_unix_nanos,
                lsn,
            }),
    {
        IdempotencyEntry { response_kind, memory_id_bytes, response_payload, request_hash, created_at_unix_nanos, lsn }
    }

    #[must_use]
    pub fn memory_id(&self) -> (r: Option<MemoryId>)
        ensures
            r == match self.memory_id_bytes {
                Some(b) => Some(MemoryId(b)),
                None => None,
            },
    {
        match self.memory_id_bytes {
            Some(b) => Some(MemoryId(b)),
            None => None,
        }
    }

    /// Whether the entry is older than its time to live.
    #[must_use]
    pub fn is_expired(&self, now_unix_nanos: u64, ttl_nanos: u64) -> (r: bool)
        ensures
            r == expired(self.created_at_unix_nanos, now_unix_nanos, ttl_nanos),
    {
        self.created_at_unix_nanos.saturating_add(ttl_nanos) < now_unix_nanos
    }
}

/// The key of an entry that is expired.
pub open spec fn victim(kv: (Seq<u8>, Seq<u8>), now_unix_nanos: u64, ttl_nanos: u64) -> Result<Option<Seq<u8>>, ()> {
    match parsed::<IdempotencyEntry>(kv.1) {
        Slot::Row(m) => if expired(m.created_at_unix_nanos, now_unix_nanos, ttl_nanos) {
            Ok(Some(kv.0))
        } else {
            Ok(None)
        },
        _ => Err(()),
    }
}

/// The keys of the first `max` expired entries.
pub open spec fn victims(db: Db, now_unix_nanos: u64, ttl_nanos: u64, max: nat) -> Result<Seq<Seq<u8>>, ()> {
    collect_upto(
        scan(db, Table::Idempotency, Seq::empty()),
        |kv: (Seq<u8>, Seq<u8>)| victim(kv, now_unix_nanos, ttl_nanos),
        max,
    )
}

/// The rows without the idempotency entries under `keys`.
pub open spec fn pruned(db: Db, keys: Seq<Seq<u8>>) -> Db
    decreases keys.len(),
{
    if keys.len() == 0 {
        db
    } else {
        pruned(db, keys.drop_last()).remove((Table::Idempotency, keys.last()))
    }
}

spec fn key_models(keys: Seq<Vec<u8>>) -> Seq<Seq<u8>> {
    keys.map_values(|k: Vec<u8>| k@)
}

fn remove_all(wtxn: &mut WriteTransaction, keys: &Vec<Vec<u8>>) -> (r: Result<(), LoadError>)
    ensures
        keys@.len() == 0 ==> r is Ok,
        r is Ok ==> wdb(*final(wtxn)) == pruned(wdb(*old(wtxn)), key_models(keys@)),
        r matches Err(e) ==> e is Storage,
{
    let ghost db = wdb(*wtxn);
    let ghost models = key_models(keys@);
    let mut i: usize = 0;
    while i < keys.len()
        invariant
            i <= keys.len(),
            models == key_models(keys@),
            wdb(*wtxn) == pruned(db, models.take(i as int)),
        decreases keys.len() - i,
    {
        match del(wtxn, Table::Idempotency, keys[i].as_slice()) {
            Ok(_) => {},
            Err(e) => return Err(LoadError::Storage(e)),
        }
        i = i + 1;
        proof {
            assert(models.take(i as int).drop_last() =~= models.take(i as int - 1));
        }
    }
    proof {
        assert(models.take(i as int) =~= models);
    }
    Ok(())
}

/// Removes at most `max` expired entries, and tells how many, and whether every
/// entry was looked at before there were `max`.
pub fn prune_expired_bounded(wtxn: &mut WriteTransaction, now_unix_nanos: u64, ttl_nanos: u64, max: usize) -> (r: Result<
    (u64, bool),
    LoadError,
>)
    ensures
        r is Ok && max > 0 ==> scanned(wdb(*old(wtxn)), Table::Idempotency, Seq::empty()),
        max == 0 ==> r == Ok::<_, LoadError>((0u64, false)) && wdb(*final(wtxn)) == wdb(*old(wtxn)),
        max > 0 ==> match r {
            Ok((n, to_end)) => victims(wdb(*old(wtxn)), now_unix_nanos, ttl_nanos, max as nat) matches Ok(keys) && n
                == keys.len() && to_end == (keys.len() < max) && wdb(*final(wtxn)) == pruned(wdb(*old(wtxn)), keys),
            Err(LoadError::Corrupt) => victims(wdb(*old(wtxn)), now_unix_nanos, ttl_nanos, max as nat) is Err && wdb(
                *final(wtxn),
            ) == wdb(*old(wtxn)),
            Err(LoadError::Storage(_)) => true,
        },
{
    if max == 0 {
        return Ok((0, false));
    }
    let ghost db = wdb(*old(wtxn));
    let prefix: Vec<u8> = Vec::new();
    let found = match scan_prefix(wtxn, Table::Idempotency, prefix.as_slice()) {
        Ok(v) => v,
        Err(e) => return Err(LoadError::Storage(e)),
    };
    let ghost entries = entry_models(found@);
    let ghost f = |kv: (Seq<u8>, Seq<u8>)| victim(kv, now_unix_nanos, ttl_nanos);
    let mut keys: Vec<Vec<u8>> = Vec::new();
    let mut i: usize = 0;
    proof {
        assert(prefix@ =~= Seq::<u8>::empty());
        assert(entries.take(0) =~= Seq::<(Seq<u8>, Seq<u8>)>::empty());
        assert(key_models(keys@) =~= Seq::<Seq<u8>>::empty());
    }
    while i < found.len() && keys.len() < max
        invariant
            i <= found.len(),
            keys.len() <= max,
            db == wdb(*old(wtxn)),
            wdb(*wtxn) == db,
            entries == entry_models(found@),
            f == (|kv: (Seq<u8>, Seq<u8>)| victim(kv, now_unix_nanos, ttl_nanos)),
            victims(db, now_unix_nanos, ttl_nanos, max as nat) == collect_upto(entries, f, max as nat),
            collect_upto(entries.take(i as int), f, max as nat) == Ok::<_, ()>(key_models(keys@)),
        decreases found.len() - i,
    {
        proof {
            assert(entries.take(i + 1).drop_last() =~= entries.take(i as int));
            if collect_upto(entries.take(i + 1), f, max as nat) is Err {
                lemma_upto_ends(entries, f, max as nat, i + 1);
            }
        }
        let entry: IdempotencyEntry = match from_bytes(found[i].1.as_slice()) {
            Some(x) => x,
            None => return Err(LoadError::Corrupt),
        };
        if entry.is_expired(now_unix_nanos, ttl_nanos) {
            let ghost before = key_models(keys@);
            let key = get_bytes(found[i].0.as_slice(), 0, found[i].0.len());
            proof {
                assert(key@ =~= entries[i as int].0);
            }
            keys.push(key);
            proof {
                assert(key_models(keys@) =~= before.push(entries[i as int].0));
            }
        }
        i = i + 1;
    }
    proof {
        if i < found.len() {
            lemma_upto_ends(entries, f, max as nat, i as int);
        } else {
            assert(entries.take(i as int) =~= entries);
        }
    }
    remove_all(wtxn, &keys)?;
    Ok((keys.len() as u64, keys.len() < max))
}

/// The keys of all expired entries.
pub open spec fn all_victims(db: Db, now_unix_nanos: u64, ttl_nanos: u64) -> Result<Seq<Seq<u8>>, ()> {
    collect(
        scan(db, Table::Idempotency, Seq::empty()),
        |kv: (Seq<u8>, Seq<u8>)| victim(kv, now_unix_nanos, ttl_nanos),
    )
}

/// Removes every expired entry, and tells how many there were.
pub fn prune_expired(wtxn: &mut WriteTransaction, now_unix_nanos: u64, ttl_nanos: u64) -> (r: Result<u64, LoadError>)
    ensures
        r is Ok ==> scanned(wdb(*old(wtxn)), Table::Idempotency, Seq::empty()),
        match r {
            Ok(n) => all_victims(wdb(*old(wtxn)), now_unix_nanos, ttl_nanos) matches Ok(keys) && n == keys.len() && wdb(
                *final(wtxn),
            ) == pruned(wdb(*old(wtxn)), keys),
            Err(LoadError::Corrupt) => all_victims(wdb(*old(wtxn)), now_unix_nanos, ttl_nanos) is Err && wdb(
                *final(wtxn),
            ) == wdb(*old(wtxn)),
            Err(LoadError::Storage(_)) => true,
        },
{
    let ghost db = wdb(*old(wtxn));
    let prefix: Vec<u8> = Vec::new();
    let found = match scan_prefix(wtxn, Table::Idempotency, prefix.as_slice()) {
        Ok(v) => v,
        Err(e) => return Err(LoadError::Storage(e)),
    };
    let ghost entries = entry_models(found@);
    let ghost f = |kv: (Seq<u8>, Seq<u8>)| victim(kv, now_unix_nanos, ttl_nanos);
    let mut keys: Vec<Vec<u8>> = Vec::new();
    let mut i: usize = 0;
    proof {
        assert(prefix@ =~= Seq::<u8>::empty());
        assert(entries.take(0) =~= Seq::<(Seq<u8>, Seq<u8>)>::empty());
        assert(key_models(keys@) =~= Seq::<Seq<u8>>::empty());
    }
    while i < found.len()
        invariant
            i <= found.len(),
            keys.len() <= i,
            db == wdb(*old(wtxn)),
            wdb(*wtxn) == db,
            entries == entry_models(found@),
            f == (|kv: (Seq<u8>, Seq<u8>)| victim(kv, now_unix_nanos, ttl_nanos)),
            all_victims(db, now_unix_nanos, ttl_nanos) == collect(entries, f),
            collect(entries.take(i as int), f) == Ok::<_, ()>(key_models(keys@)),
        decreases found.len() - i,
    {
        proof {
            lemma_collect_step(entries, f, i as int);
            if collect(entries.take(i + 1), f) is Err {
                lemma_collect_fails(entries, f, i + 1);
            }
        }
        let entry: IdempotencyEntry = match from_bytes(found[i].1.as_slice()) {
            Some(x) => x,
            None => return Err(LoadError::Corrupt),
        };
        if entry.is_expired(now_unix_nanos, ttl_nanos) {
            let ghost before = key_models(keys@);
            let key = get_bytes(found[i].0.as_slice(), 0, found[i].0.len());
            proof {
                assert(key@ =~= entries[i as int].0);
            }
            keys.push(key);
            proof {
                assert(key_models(keys@) =~= before.push(entries[i as int].0));
            }
        }
        i = i + 1;
    }
    proof {
        assert(entries.take(i as int) =~= entries);
    }
    remove_all(wtxn, &keys)?;
    Ok(keys.len() as u64)
}

proof fn lemma_pruned(db: Db, keys: Seq<Seq<u8>>, t: Table, k: Seq<u8>)
    ensures
        lookup(pruned(db, keys), t, k) == if t is Idempotency && keys.contains(k) {
            None
        } else {
            lookup(db, t, k)
        },
    decreases keys.len(),
{
    if keys.len() > 0 {
        let head = keys.drop_last();
        lemma_pruned(db, head, t, k);
        if head.contains(k) {
            let i = head.index_of(k);
            assert(keys[i] == k);
        }
        if keys.last() == k {
            assert(keys[keys.len() - 1] == k);
        }
        if keys.contains(k) {
            let i = keys.index_of(k);
            if i < head.len() {
                assert(head[i] == k);
            }
        }
    }
}

/// Whether what is stored under a key is an entry that is expired.
pub open spec fn expired_at(db: Db, k: Seq<u8>, now_unix_nanos: u64, ttl_nanos: u64) -> bool {
    slot::<IdempotencyEntry>(db, Table::Idempotency, k) matches Slot::Row(m) && expired(
        m.created_at_unix_nanos,
        now_unix_nanos,
        ttl_nanos,
    )
}

proof fn lemma_victim_is_expired(db: Db, i: int, now_unix_nanos: u64, ttl_nanos: u64, k: Seq<u8>)
    requires
        db.rows.dom().finite(),
        0 <= i < scan(db, Table::Idempotency, Seq::empty()).len(),
    ensures
        ({
            let kv = scan(db, Table::Idempotency, Seq::empty())[i];
            victim(kv, now_unix_nanos, ttl_nanos) is Ok ==> (victim(kv, now_unix_nanos, ttl_nanos) == Ok::<_, ()>(
                Some(k),
            ) <==> kv.0 == k && expired_at(db, k, now_unix_nanos, ttl_nanos))
        }),
{
    lemma_scan_exists(db, Table::Idempotency, Seq::empty());
    let kv = scan(db, Table::Idempotency, Seq::empty())[i];
    assert(lookup(db, Table::Idempotency, kv.0) == Some(kv.1));
}

/// The keys of the expired entries.
pub open spec fn expired_keys(db: Db, now_unix_nanos: u64, ttl_nanos: u64) -> Set<Seq<u8>> {
    Set::new(|k: Seq<u8>| expired_at(db, k, now_unix_nanos, ttl_nanos))
}

proof fn lemma_expired_keys_finite(db: Db, now_unix_nanos: u64, ttl_nanos: u64)
    requires
        db.rows.dom().finite(),
    ensures
        expired_keys(db, now_unix_nanos, ttl_nanos).finite(),
{
    let keys = expired_keys(db, now_unix_nanos, ttl_nanos);
    let all = db.dom().map(|tk: (Table, Seq<u8>)| tk.1);
    db.dom().lemma_map_finite(|tk: (Table, Seq<u8>)| tk.1);
    assert forall|k: Seq<u8>| keys.contains(k) implies all.contains(k) by {
        assert(db.dom().contains((Table::Idempotency, k)));
        assert((Table::Idempotency, k).1 == k);
    }
    vstd::set_lib::lemma_set_subset_finite(all, keys);
}

/// The entries that are pruned are expired, and none is named twice.
proof fn lemma_victims_distinct(db: Db, now_unix_nanos: u64, ttl_nanos: u64, max: nat)
    requires
        db.rows.dom().finite(),
        victims(db, now_unix_nanos, ttl_nanos, max) is Ok,
    ensures
        ({
            let keys = victims(db, now_unix_nanos, ttl_nanos, max)->Ok_0;
            &&& keys.no_duplicates()
            &&& keys.to_set().subset_of(expired_keys(db, now_unix_nanos, ttl_nanos))
        }),
{
    let entries = scan(db, Table::Idempotency, Seq::empty());
    let f = |kv: (Seq<u8>, Seq<u8>)| victim(kv, now_unix_nanos, ttl_nanos);
    let keys = victims(db, now_unix_nanos, ttl_nanos, max)->Ok_0;
    lemma_scan_exists(db, Table::Idempotency, Seq::empty());
    assert forall|i: int, j: int| 0 <= i < j < entries.len() implies differ(
        f(#[trigger] entries[i]),
        f(#[trigger] entries[j]),
    ) by {
        assert(lex_lt(entries[i].0, entries[j].0));
        lemma_lex_irreflexive(entries[i].0);
    }
    lemma_upto_distinct(entries, f, max);
    assert forall|k: Seq<u8>| keys.contains(k) implies expired_at(db, k, now_unix_nanos, ttl_nanos) by {
        lemma_upto_members(entries, f, max, k);
        let i = choose|i: int| 0 <= i < entries.len() && f(#[trigger] entries[i]) == Ok::<_, ()>(Some(k));
        lemma_victim_is_expired(db, i, now_unix_nanos, ttl_nanos, k);
    }
}

/// Pruning removes the expired entries and nothing else, and counts each once.
pub proof fn lemma_prune(db: Db, now_unix_nanos: u64, ttl_nanos: u64, t: Table, k: Seq<u8>)
    requires
        db.rows.dom().finite(),
        all_victims(db, now_unix_nanos, ttl_nanos) is Ok,
    ensures
        lookup(pruned(db, all_victims(db, now_unix_nanos, ttl_nanos)->Ok_0), t, k) == if t is Idempotency && expired_at(
            db,
            k,
            now_unix_nanos,
            ttl_nanos,
        ) {
            None
        } else {
            lookup(db, t, k)
        },
        all_victims(db, now_unix_nanos, ttl_nanos)->Ok_0.to_set() == expired_keys(db, now_unix_nanos, ttl_nanos),
        all_victims(db, now_unix_nanos, ttl_nanos)->Ok_0.len() == expired_keys(db, now_unix_nanos, ttl_nanos).len(),
{
    let entries = scan(db, Table::Idempotency, Seq::empty());
    let f = |kv: (Seq<u8>, Seq<u8>)| victim(kv, now_unix_nanos, ttl_nanos);
    let keys = all_victims(db, now_unix_nanos, ttl_nanos)->Ok_0;
    lemma_scan_exists(db, Table::Idempotency, Seq::empty());
    lemma_pruned(db, keys, t, k);
    assert forall|x: Seq<u8>| keys.contains(x) <==> expired_at(db, x, now_unix_nanos, ttl_nanos) by {
        lemma_collect_members(entries, f, x);
        if expired_at(db, x, now_unix_nanos, ttl_nanos) {
            assert(x.take(0) =~= Seq::<u8>::empty());
            assert(db.dom().contains((Table::Idempotency, x)));
            let i = choose|i: int| 0 <= i < entries.len() && (#[trigger] entries[i]).0 == x;
            assert(f(entries[i]) is Ok);
            lemma_victim_is_expired(db, i, now_unix_nanos, ttl_nanos, x);
        }
        if keys.contains(x) {
            let i = choose|i: int| 0 <= i < entries.len() && f(#[trigger] entries[i]) == Ok::<_, ()>(Some(x));
            lemma_victim_is_expired(db, i, now_unix_nanos, ttl_nanos, x);
        }
    }
    assert(keys.to_set() =~= expired_keys(db, now_unix_nanos, ttl_nanos));
    lemma_upto_unbounded(entries, f, entries.len() + 1);
    lemma_victims_distinct(db, now_unix_nanos, ttl_nanos, entries.len() + 1);
    keys.unique_seq_to_set();
}

/// Bounded pruning removes expired entries only: as many as there are, but at most
/// `max`. With less than `max` of them it removes what pruning without a bound does.
pub proof fn lemma_prune_bounded(db: Db, now_unix_nanos: u64, ttl_nanos: u64, max: nat, t: Table, k: Seq<u8>)
    requires
        db.rows.dom().finite(),
        victims(db, now_unix_nanos, ttl_nanos, max) is Ok,
    ensures
        ({
            let keys = victims(db, now_unix_nanos, ttl_nanos, max)->Ok_0;
            let all = expired_keys(db, now_unix_nanos, ttl_nanos);
            &&& all.finite()
            &&& keys.to_set().subset_of(all)
            &&& keys.len() == if all.len() < max {
                all.len()
            } else {
                max
            }
            &&& lookup(pruned(db, keys), t, k) == if t is Idempotency && keys.contains(k) {
                None
            } else {
                lookup(db, t, k)
            }
            &&& keys.len() < max ==> all_victims(db, now_unix_nanos, ttl_nanos) == Ok::<_, ()>(keys)
        }),
{
    let entries = scan(db, Table::Idempotency, Seq::empty());
    let f = |kv: (Seq<u8>, Seq<u8>)| victim(kv, now_unix_nanos, ttl_nanos);
    let keys = victims(db, now_unix_nanos, ttl_nanos, max)->Ok_0;
    lemma_upto_len(entries, f, max);
    lemma_pruned(db, keys, t, k);
    let all = expired_keys(db, now_unix_nanos, ttl_nanos);
    lemma_expired_keys_finite(db, now_unix_nanos, ttl_nanos);
    lemma_victims_distinct(db, now_unix_nanos, ttl_nanos, max);
    keys.unique_seq_to_set();
    vstd::set_lib::lemma_len_subset(keys.to_set(), all);
    if keys.len() < max {
        lemma_upto_all(entries, f, max);
        lemma_prune(db, now_unix_nanos, ttl_nanos, t, k);
    }
}

/// Pruning takes an entry exactly if its time to live was over before now. With a bound
/// it takes no other, and takes every such one where it takes fewer than the bound.
pub proof fn lemma_pruned_by_age(db: Db, now_unix_nanos: u64, ttl_nanos: u64, max: nat, k: Seq<u8>)
    requires
        db.rows.dom().finite(),
        slot::<IdempotencyEntry>(db, Table::Idempotency, k) is Row,
    ensures
        ({
            let m = slot::<IdempotencyEntry>(db, Table::Idempotency, k)->Row_0;
            let over = m.created_at_unix_nanos + ttl_nanos < now_unix_nanos;
            &&& all_victims(db, now_unix_nanos, ttl_nanos) matches Ok(keys) ==> (lookup(
                pruned(db, keys),
                Table::Idempotency,
                k,
            ) is None <==> over)
            &&& victims(db, now_unix_nanos, ttl_nanos, max) matches Ok(keys) ==> {
                &&& keys.len() <= max
                &&& lookup(pruned(db, keys), Table::Idempotency, k) is None ==> over
                &&& keys.len() < max ==> (lookup(pruned(db, keys), Table::Idempotency, k) is None <==> over)
            }
        }),
{
    if all_victims(db, now_unix_nanos, ttl_nanos) is Ok {
        lemma_prune(db, now_unix_nanos, ttl_nanos, Table::Idempotency, k);
    }
    if victims(db, now_unix_nanos, ttl_nanos, max) is Ok {
        let keys = victims(db, now_unix_nanos, ttl_nanos, max)->Ok_0;
        lemma_prune_bounded(db, now_unix_nanos, ttl_nanos, max, Table::Idempotency, k);
        if keys.contains(k) {
            assert(keys.to_set().contains(k));
            assert(expired_keys(db, now_unix_nanos, ttl_nanos).contains(k));
        }
    }
}

} // verus!
