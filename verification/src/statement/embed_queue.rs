//! The queue of statements that wait for an embedding.

use redb::{ReadTransaction, WriteTransaction};
use vstd::prelude::*;

use crate::bytes::{be, be_value, get_be, lemma_pow256_values, put_be};
use crate::catalog::Table;
use crate::collect::{collect, lemma_collect_fails, lemma_collect_step};
use crate::row::{from_bytes, parsed, Row, Slot};
use crate::statement::crud::{id_in, put_value, read_id, remove_key};
use crate::statement::StatementOpError;
use crate::store::{
    count_if_any, entry_models, rdb, read_prefix_if_any, scan, scan_prefix, scanned, table_keys, wdb, Db,
};
use crate::tables::statement::StatementMetadata;
use crate::types::StatementId;

verus! {

/// The statement and the time that a queue entry holds.
pub open spec fn queued(kv: (Seq<u8>, Seq<u8>)) -> Result<Option<(StatementId, u64)>, StatementOpError> {
    match id_in(kv.0) {
        Err(e) => Err(e),
        Ok(id) => if kv.1.len() == 8 {
            Ok(Some((StatementId(id), be_value(kv.1) as u64)))
        } else {
            Err(StatementOpError::DecodeFailed)
        },
    }
}

/// The first `limit` entries of the queue, in key order.
pub open spec fn queue_head(db: Db, limit: nat) -> Result<Seq<(StatementId, u64)>, StatementOpError> {
    let all = scan(db, Table::StatementEmbedQueue, Seq::empty());
    collect(
        all.take(
            if limit <= all.len() {
                limit as int
            } else {
                all.len() as int
            },
        ),
        |kv: (Seq<u8>, Seq<u8>)| queued(kv),
    )
}

/// Reads at most `limit` waiting statements, each with the time it was queued.
pub fn statement_embed_queue_peek(rtxn: &ReadTransaction, limit: usize) -> (r: Result<
    Vec<(StatementId, u64)>,
    StatementOpError,
>)
    ensures
        r is Ok && limit > 0 ==> scanned(rdb(*rtxn), Table::StatementEmbedQueue, Seq::empty()),
        limit == 0 ==> r is Ok,
        r matches Ok(v) ==> queue_head(rdb(*rtxn), limit as nat) == Ok::<_, StatementOpError>(v@),
        r matches Err(e) ==> e is Storage || queue_head(rdb(*rtxn), limit as nat) == Err::<Seq<(StatementId, u64)>, _>(
            e,
        ),
{
    if limit == 0 {
        let none: Vec<(StatementId, u64)> = Vec::new();
        proof {
            assert(none@ =~= Seq::<(StatementId, u64)>::empty());
        }
        return Ok(none);
    }
    let prefix: Vec<u8> = Vec::new();
    let found = match read_prefix_if_any(rtxn, Table::StatementEmbedQueue, prefix.as_slice()) {
        Ok(v) => v,
        Err(e) => return Err(StatementOpError::Storage(e)),
    };
    let n: usize = if limit <= found.len() {
        limit
    } else {
        found.len()
    };
    let ghost f = |kv: (Seq<u8>, Seq<u8>)| queued(kv);
    let ghost entries = entry_models(found@).take(n as int);
    let mut out: Vec<(StatementId, u64)> = Vec::new();
    let mut i: usize = 0;
    proof {
        assert(prefix@ =~= Seq::<u8>::empty());
        assert(entries.take(0) =~= Seq::<(Seq<u8>, Seq<u8>)>::empty());
        lemma_pow256_values();
    }
    while i < n
        invariant
            i <= n <= found.len(),
            f == (|kv: (Seq<u8>, Seq<u8>)| queued(kv)),
            entries == entry_models(found@).take(n as int),
            queue_head(rdb(*rtxn), limit as nat) == collect(entries, f),
            collect(entries.take(i as int), f) == Ok::<_, StatementOpError>(out@),
        decreases n - i,
    {
        proof {
            lemma_collect_step(entries, f, i as int);
            if collect(entries.take(i + 1), f) is Err {
                lemma_collect_fails(entries, f, i + 1);
            }
        }
        let id = read_id(&found[i].0)?;
        if found[i].1.len() != 8 {
            return Err(StatementOpError::DecodeFailed);
        }
        let at: u64 = get_be(found[i].1.as_slice(), 0, 8);
        proof {
            assert(found@[i as int].1@.subrange(0, 8) =~= found@[i as int].1@);
        }
        out.push((StatementId(id), at));
        i = i + 1;
    }
    proof {
        assert(entries.take(i as int) =~= entries);
    }
    Ok(out)
}

/// The number of waiting statements.
pub fn statement_embed_queue_len(rtxn: &ReadTransaction) -> (r: Result<u64, StatementOpError>)
    ensures
        r matches Ok(n) ==> table_keys(rdb(*rtxn), Table::StatementEmbedQueue).finite() && n == table_keys(
            rdb(*rtxn),
            Table::StatementEmbedQueue,
        ).len(),
        r matches Err(e) ==> e is Storage,
{
    match count_if_any(rtxn, Table::StatementEmbedQueue) {
        Ok(n) => Ok(n),
        Err(e) => Err(StatementOpError::Storage(e)),
    }
}

/// Takes a statement off the queue. One that is not queued is no matter.
pub fn statement_embed_queue_remove(wtxn: &mut WriteTransaction, id: StatementId) -> (r: Result<(), StatementOpError>)
    ensures
        r is Ok ==> wdb(*final(wtxn)) == wdb(*old(wtxn)).remove((Table::StatementEmbedQueue, id.0@)),
        r matches Err(e) ==> e is Storage,
{
    remove_key(wtxn, Table::StatementEmbedQueue, id.0.as_slice())?;
    Ok(())
}

/// The rows without the queue entries of `ids`.
pub open spec fn dequeued(db: Db, ids: Seq<StatementId>) -> Db
    decreases ids.len(),
{
    if ids.len() == 0 {
        db
    } else {
        dequeued(db, ids.drop_last()).remove((Table::StatementEmbedQueue, ids.last().0@))
    }
}

/// How many of `ids` were queued when their turn came.
pub open spec fn dequeued_count(db: Db, ids: Seq<StatementId>) -> nat
    decreases ids.len(),
{
    if ids.len() == 0 {
        0
    } else {
        let before = dequeued_count(db, ids.drop_last());
        if dequeued(db, ids.drop_last()).dom().contains((Table::StatementEmbedQueue, ids.last().0@)) {
            before + 1
        } else {
            before
        }
    }
}

/// Takes statements off the queue, and tells how many were on it.
pub fn statement_embed_queue_remove_many(wtxn: &mut WriteTransaction, ids: &Vec<StatementId>) -> (r: Result<
    usize,
    StatementOpError,
>)
    ensures
        ids@.len() == 0 ==> r is Ok,
        r matches Ok(n) ==> wdb(*final(wtxn)) == dequeued(wdb(*old(wtxn)), ids@) && n == dequeued_count(
            wdb(*old(wtxn)),
            ids@,
        ),
        r matches Err(e) ==> e is Storage,
{
    let ghost db = wdb(*wtxn);
    let mut removed: usize = 0;
    let mut i: usize = 0;
    while i < ids.len()
        invariant
            removed <= i <= ids.len(),
            wdb(*wtxn) == dequeued(db, ids@.take(i as int)),
            removed == dequeued_count(db, ids@.take(i as int)),
        decreases ids.len() - i,
    {
        proof {
            assert(ids@.take(i + 1).drop_last() =~= ids@.take(i as int));
        }
        if remove_key(wtxn, Table::StatementEmbedQueue, ids[i].0.as_slice())? {
            removed = removed + 1;
        }
        i = i + 1;
    }
    proof {
        assert(ids@.take(i as int) =~= ids@);
    }
    Ok(removed)
}

/// The queue entry of a statement's row, if the statement is live.
pub open spec fn live_entry(kv: (Seq<u8>, Seq<u8>)) -> Result<Option<(Seq<u8>, u64)>, StatementOpError> {
    match parsed::<StatementMetadata>(kv.1) {
        Slot::Row(m) => if m.is_current != 0 && m.tombstoned == 0 {
            Ok(Some((m.statement_id_bytes@, m.extracted_at_unix_nanos)))
        } else {
            Ok(None)
        },
        _ => Err(StatementOpError::DecodeFailed),
    }
}

/// The queue entries of the live statements, in the order of their identifiers.
pub open spec fn live_entries(db: Db) -> Result<Seq<(Seq<u8>, u64)>, StatementOpError> {
    collect(scan(db, Table::Statements, Seq::empty()), |kv: (Seq<u8>, Seq<u8>)| live_entry(kv))
}

/// The state with entries on the queue.
pub open spec fn enqueued(db: Db, entries: Seq<(Seq<u8>, u64)>) -> Db
    decreases entries.len(),
{
    if entries.len() == 0 {
        db
    } else {
        enqueued(db, entries.drop_last()).insert(
            (Table::StatementEmbedQueue, entries.last().0),
            be(entries.last().1 as nat, 8),
        )
    }
}

spec fn held_entries(v: Seq<([u8; 16], u64)>) -> Seq<(Seq<u8>, u64)> {
    v.map_values(|x: ([u8; 16], u64)| (x.0@, x.1))
}

fn find_live(wtxn: &mut WriteTransaction) -> (r: Result<Vec<([u8; 16], u64)>, StatementOpError>)
    ensures
        r is Ok ==> scanned(wdb(*old(wtxn)), Table::Statements, Seq::empty()),
        wdb(*final(wtxn)) == wdb(*old(wtxn)),
        match r {
            Ok(v) => live_entries(wdb(*old(wtxn))) == Ok::<_, StatementOpError>(held_entries(v@)),
            Err(e) => e is Storage || live_entries(wdb(*old(wtxn))) == Err::<Seq<(Seq<u8>, u64)>, _>(e),
        },
{
    let prefix: Vec<u8> = Vec::new();
    let found = match scan_prefix(wtxn, Table::Statements, prefix.as_slice()) {
        Ok(v) => v,
        Err(e) => return Err(StatementOpError::Storage(e)),
    };
    let ghost entries = entry_models(found@);
    let ghost f = |kv: (Seq<u8>, Seq<u8>)| live_entry(kv);
    let mut out: Vec<([u8; 16], u64)> = Vec::new();
    let mut i: usize = 0;
    proof {
        assert(prefix@ =~= Seq::<u8>::empty());
        assert(entries.take(0) =~= Seq::<(Seq<u8>, Seq<u8>)>::empty());
        assert(held_entries(out@) =~= Seq::<(Seq<u8>, u64)>::empty());
    }
    while i < found.len()
        invariant
            i <= found.len(),
            wdb(*wtxn) == wdb(*old(wtxn)),
            entries == entry_models(found@),
            f == (|kv: (Seq<u8>, Seq<u8>)| live_entry(kv)),
            live_entries(wdb(*old(wtxn))) == collect(entries, f),
            collect(entries.take(i as int), f) == Ok::<_, StatementOpError>(held_entries(out@)),
        decreases found.len() - i,
    {
        proof {
            lemma_collect_step(entries, f, i as int);
            if collect(entries.take(i + 1), f) is Err {
                lemma_collect_fails(entries, f, i + 1);
            }
        }
        let m: StatementMetadata = match from_bytes(found[i].1.as_slice()) {
            Some(m) => m,
            None => return Err(StatementOpError::DecodeFailed),
        };
        if m.is_current != 0 && m.tombstoned == 0 {
            let ghost before = held_entries(out@);
            out.push((m.statement_id_bytes, m.extracted_at_unix_nanos));
            proof {
                assert(held_entries(out@) =~= before.push((m.statement_id_bytes@, m.extracted_at_unix_nanos)));
            }
        }
        i = i + 1;
    }
    proof {
        assert(entries.take(i as int) =~= entries);
    }
    Ok(out)
}

/// Puts every live statement on the queue, and tells how many there are.
pub fn statement_embed_queue_seed_all_live(wtxn: &mut WriteTransaction) -> (r: Result<usize, StatementOpError>)
    ensures
        r is Ok ==> scanned(wdb(*old(wtxn)), Table::Statements, Seq::empty()),
        match r {
            Ok(n) => live_entries(wdb(*old(wtxn))) matches Ok(s) && n == s.len() && wdb(*final(wtxn)) == enqueued(
                wdb(*old(wtxn)),
                s,
            ),
            Err(e) => e is Storage || live_entries(wdb(*old(wtxn))) == Err::<Seq<(Seq<u8>, u64)>, _>(e),
        },
{
    let ghost db = wdb(*wtxn);
    let live = find_live(wtxn)?;
    let ghost entries = held_entries(live@);
    let mut i: usize = 0;
    while i < live.len()
        invariant
            i <= live.len(),
            entries == held_entries(live@),
            wdb(*wtxn) == enqueued(db, entries.take(i as int)),
        decreases live.len() - i,
    {
        let mut at: Vec<u8> = Vec::new();
        put_be(&mut at, live[i].1, 8);
        proof {
            assert(at@ =~= be(live@[i as int].1 as nat, 8));
        }
        put_value(wtxn, Table::StatementEmbedQueue, live[i].0.as_slice(), at.as_slice())?;
        i = i + 1;
        proof {
            assert(entries.take(i as int).drop_last() =~= entries.take(i as int - 1));
        }
    }
    proof {
        assert(entries.take(i as int) =~= entries);
    }
    Ok(live.len())
}

} // verus!
