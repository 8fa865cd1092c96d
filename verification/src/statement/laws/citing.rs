//! Which statements cite a memory, and which wait for an embedding.

use vstd::prelude::*;

use crate::bytes::{be, lemma_be_len, lemma_be_of_be_value, lemma_be_value_of_be, lemma_pow256_values};
use crate::catalog::Table;
use crate::collect::{collect, lemma_collect_members};
use crate::row::{fits, slot, Slot};
use crate::statement::crud::{id_in, lemma_id_in};
use crate::statement::embed_queue::{
    dequeued, dequeued_count, enqueued, live_entries, live_entry, queue_head, queued,
};
use crate::statement::laws::{lemma_tombstone_is_final, lemma_tombstone_keeps_sound, row_sound, sound};
use crate::statement::list::{citations, citing};
use crate::statement::tombstone::{buried, tombstoned};
use crate::statement::StatementOpError;
use crate::store::{lemma_scan_exists, lookup, scan, Db};
use crate::tables::statement::{StatementMetadata, TombstoneReason};
use crate::types::{MemoryId, StatementId};

verus! {

/// A statement is found to cite a memory exactly if it is not tombstoned and an
/// entry of the evidence on its row names the memory.
pub proof fn lemma_citing_statements(db: Db, memory: MemoryId, id: StatementId)
    requires
        sound(db),
        db.rows.dom().finite(),
        citations(db, memory) is Ok,
    ensures
        citations(db, memory)->Ok_0.contains(id) <==> (slot::<StatementMetadata>(
            db,
            Table::Statements,
            id.0@,
        ) matches Slot::Row(m) && m.tombstoned == 0 && exists|i: int|
            0 <= i < m.evidence_inline.len() && (#[trigger] m.evidence_inline[i]).memory_id.0 == memory.0),
{
    let entries = scan(db, Table::Statements, Seq::empty());
    let f = |kv: (Seq<u8>, Seq<u8>)| citing(kv.1, memory);
    lemma_scan_exists(db, Table::Statements, Seq::empty());
    lemma_collect_members(entries, f, id);
    if citations(db, memory)->Ok_0.contains(id) {
        let i = choose|i: int| 0 <= i < entries.len() && f(#[trigger] entries[i]) == Ok::<_, StatementOpError>(Some(id));
        assert(lookup(db, Table::Statements, entries[i].0) == Some(entries[i].1));
        assert(row_sound(db, entries[i].0));
    }
    if slot::<StatementMetadata>(db, Table::Statements, id.0@) is Row {
        assert(lookup(db, Table::Statements, id.0@) is Some);
        assert(row_sound(db, id.0@));
        let m = slot::<StatementMetadata>(db, Table::Statements, id.0@)->Row_0;
        assert(m.statement_id_bytes =~= id.0);
        assert(id.0@.take(0) =~= Seq::<u8>::empty());
        assert(db.dom().contains((Table::Statements, id.0@)));
        let i = choose|i: int| 0 <= i < entries.len() && (#[trigger] entries[i]).0 == id.0@;
        assert(f(entries[i]) is Ok);
        assert(StatementId(m.statement_id_bytes) == id);
    }
}

/// A statement that was tombstoned cites nothing any more, and the others cite what
/// they did.
pub proof fn lemma_tombstoned_cites_nothing(
    db: Db,
    id: StatementId,
    reason: TombstoneReason,
    at: u64,
    memory: MemoryId,
    other: StatementId,
)
    requires
        sound(db),
        db.rows.dom().finite(),
        tombstoned(db, id, reason, at) is Ok,
        slot::<StatementMetadata>(db, Table::Statements, id.0@) matches Slot::Row(m) ==> fits::<StatementMetadata>(
            buried(m, reason, at),
        ),
        citations(db, memory) is Ok,
        citations(tombstoned(db, id, reason, at)->Ok_0, memory) is Ok,
    ensures
        ({
            let before = citations(db, memory)->Ok_0;
            let after = citations(tombstoned(db, id, reason, at)->Ok_0, memory)->Ok_0;
            &&& !after.contains(id)
            &&& other != id ==> (after.contains(other) <==> before.contains(other))
        }),
{
    let after = tombstoned(db, id, reason, at)->Ok_0;
    let m = slot::<StatementMetadata>(db, Table::Statements, id.0@)->Row_0;
    assert(row_sound(db, id.0@));
    assert(m.statement_id_bytes =~= id.0);
    lemma_tombstone_keeps_sound(db, id, reason, at);
    if m.tombstoned == 0 {
        lemma_tombstone_is_final(db, id, reason, at, reason, at, id.0@);
    }
    lemma_citing_statements(db, memory, id);
    lemma_citing_statements(db, memory, other);
    lemma_citing_statements(after, memory, id);
    lemma_citing_statements(after, memory, other);
    if other.0@ == id.0@ {
        assert(other.0 =~= id.0);
    }
    if other != id {
        assert(lookup(after, Table::Statements, other.0@) == lookup(db, Table::Statements, other.0@));
    }
}

// The queue of embeddings.

/// The head of the queue holds statements that wait, each with the time since which
/// it does, and as many as there are up to the limit; with a limit that is not reached
/// it holds every one.
pub proof fn lemma_queue_head(db: Db, limit: nat, id: StatementId, at: u64)
    requires
        db.rows.dom().finite(),
        queue_head(db, limit) is Ok,
    ensures
        ({
            let head = queue_head(db, limit)->Ok_0;
            &&& head.len() <= limit
            &&& head.contains((id, at)) ==> lookup(db, Table::StatementEmbedQueue, id.0@) == Some(be(at as nat, 8))
            &&& head.len() < limit ==> (lookup(db, Table::StatementEmbedQueue, id.0@) == Some(be(at as nat, 8))
                ==> head.contains((id, at)))
        }),
{
    let all = scan(db, Table::StatementEmbedQueue, Seq::empty());
    lemma_scan_exists(db, Table::StatementEmbedQueue, Seq::empty());
    let n = if limit <= all.len() {
        limit as int
    } else {
        all.len() as int
    };
    let entries = all.take(n);
    let f = |kv: (Seq<u8>, Seq<u8>)| queued(kv);
    let head = queue_head(db, limit)->Ok_0;
    lemma_queue_len(entries);
    lemma_collect_members(entries, f, (id, at));
    lemma_pow256_values();
    if head.contains((id, at)) {
        let i = choose|i: int|
            0 <= i < entries.len() && f(#[trigger] entries[i]) == Ok::<_, StatementOpError>(Some((id, at)));
        assert(entries[i] == all[i]);
        assert(lookup(db, Table::StatementEmbedQueue, all[i].0) == Some(all[i].1));
        lemma_id_of(all[i].0);
        lemma_be_of_be_value(all[i].1);
    }
    if head.len() < limit && lookup(db, Table::StatementEmbedQueue, id.0@) == Some(be(at as nat, 8)) {
        assert(n == all.len());
        assert(entries =~= all);
        assert(id.0@.take(0) =~= Seq::<u8>::empty());
        assert(db.dom().contains((Table::StatementEmbedQueue, id.0@)));
        let i = choose|i: int| 0 <= i < all.len() && (#[trigger] all[i]).0 == id.0@;
        lemma_id_in(id.0);
        lemma_be_len(at as nat, 8);
        lemma_be_value_of_be(at as nat, 8);
        assert(f(entries[i]) == Ok::<_, StatementOpError>(Some((id, at))));
    }
}

proof fn lemma_id_of(b: Seq<u8>)
    requires
        id_in(b) is Ok,
    ensures
        id_in(b)->Ok_0@ == b,
{
    lemma_some_array(b);
}

proof fn lemma_some_array(b: Seq<u8>)
    requires
        b.len() == 16,
    ensures
        exists|a: [u8; 16]| #[trigger] a@ == b,
{
    let a: [u8; 16] = [
        b[0], b[1], b[2], b[3], b[4], b[5], b[6], b[7], b[8], b[9], b[10], b[11], b[12], b[13], b[14], b[15],
    ];
    assert(a@ =~= b);
}

proof fn lemma_queue_len(entries: Seq<(Seq<u8>, Seq<u8>)>)
    ensures
        collect(entries, |kv: (Seq<u8>, Seq<u8>)| queued(kv)) matches Ok(v) ==> v.len() == entries.len(),
    decreases entries.len(),
{
    if entries.len() > 0 {
        lemma_queue_len(entries.drop_last());
    }
}

/// Taking statements off the queue takes off those and no others.
pub proof fn lemma_dequeued(db: Db, ids: Seq<StatementId>, t: Table, k: Seq<u8>)
    ensures
        lookup(dequeued(db, ids), t, k) == if t is StatementEmbedQueue && exists|i: int|
            0 <= i < ids.len() && (#[trigger] ids[i]).0@ == k {
            None
        } else {
            lookup(db, t, k)
        },
    decreases ids.len(),
{
    if ids.len() > 0 {
        let head = ids.drop_last();
        lemma_dequeued(db, head, t, k);
        if exists|i: int| 0 <= i < head.len() && (#[trigger] head[i]).0@ == k {
            let i = choose|i: int| 0 <= i < head.len() && (#[trigger] head[i]).0@ == k;
            assert(ids[i].0@ == k);
        }
        if ids.last().0@ == k {
            assert(ids[ids.len() - 1].0@ == k);
        }
        if exists|i: int| 0 <= i < ids.len() && (#[trigger] ids[i]).0@ == k {
            let i = choose|i: int| 0 <= i < ids.len() && (#[trigger] ids[i]).0@ == k;
            if i < head.len() {
                assert(head[i].0@ == k);
            }
        }
    }
}

/// Of statements that are all different, those that were on the queue are counted.
pub proof fn lemma_dequeued_count(db: Db, ids: Seq<StatementId>)
    requires
        ids.no_duplicates(),
    ensures
        dequeued_count(db, ids) == ids.filter(
            |id: StatementId| lookup(db, Table::StatementEmbedQueue, id.0@) is Some,
        ).len(),
    decreases ids.len(),
{
    let waits = |id: StatementId| lookup(db, Table::StatementEmbedQueue, id.0@) is Some;
    reveal(Seq::filter);
    if ids.len() > 0 {
        let head = ids.drop_last();
        let last = ids.last();
        lemma_dequeued_count(db, head);
        lemma_dequeued(db, head, Table::StatementEmbedQueue, last.0@);
        if exists|i: int| 0 <= i < head.len() && (#[trigger] head[i]).0@ == last.0@ {
            let i = choose|i: int| 0 <= i < head.len() && (#[trigger] head[i]).0@ == last.0@;
            assert(head[i].0 =~= last.0);
            assert(ids[i] == ids[ids.len() - 1]);
        }
    }
}

proof fn lemma_enqueued(db: Db, entries: Seq<(Seq<u8>, u64)>, t: Table, k: Seq<u8>)
    ensures
        !(t is StatementEmbedQueue) || (forall|i: int| 0 <= i < entries.len() ==> (#[trigger] entries[i]).0 != k)
            ==> lookup(enqueued(db, entries), t, k) == lookup(db, t, k),
        forall|i: int|
            #![trigger entries[i]]
            0 <= i < entries.len() && entries[i].0 == k && (forall|j: int|
                0 <= j < entries.len() && (#[trigger] entries[j]).0 == k ==> entries[j].1 == entries[i].1) ==> lookup(
                enqueued(db, entries),
                Table::StatementEmbedQueue,
                k,
            ) == Some(be(entries[i].1 as nat, 8)),
    decreases entries.len(),
{
    if entries.len() > 0 {
        let head = entries.drop_last();
        lemma_enqueued(db, head, t, k);
        assert(entries.last() == entries[entries.len() - 1]);
        if !(t is StatementEmbedQueue) || (forall|i: int| 0 <= i < entries.len() ==> (#[trigger] entries[i]).0 != k) {
            assert forall|i: int|
                t is StatementEmbedQueue && 0 <= i < head.len() implies (#[trigger] head[i]).0 != k by {
                assert(head[i] == entries[i]);
            }
        }
        assert forall|i: int|
            #![trigger entries[i]]
            0 <= i < entries.len() && entries[i].0 == k && (forall|j: int|
                0 <= j < entries.len() && (#[trigger] entries[j]).0 == k ==> entries[j].1 == entries[i].1) implies lookup(
            enqueued(db, entries),
            Table::StatementEmbedQueue,
            k,
        ) == Some(be(entries[i].1 as nat, 8)) by {
            if entries.last().0 != k {
                assert(head[i] == entries[i]);
                assert forall|j: int| 0 <= j < head.len() && (#[trigger] head[j]).0 == k implies head[j].1 == head[i].1 by {
                    assert(head[j] == entries[j]);
                }
            }
        }
    }
}

/// Seeding the queue puts every statement on it that is current and not tombstoned,
/// since its extraction, and leaves everything else as it was.
pub proof fn lemma_queue_seeded(db: Db, t: Table, k: Seq<u8>)
    requires
        sound(db),
        db.rows.dom().finite(),
        live_entries(db) is Ok,
    ensures
        lookup(enqueued(db, live_entries(db)->Ok_0), t, k) == if t is StatementEmbedQueue && (slot::<StatementMetadata>(
            db,
            Table::Statements,
            k,
        ) matches Slot::Row(m) && m.is_current == 1 && m.tombstoned == 0) {
            Some(
                be(
                    slot::<StatementMetadata>(db, Table::Statements, k)->Row_0.extracted_at_unix_nanos as nat,
                    8,
                ),
            )
        } else {
            lookup(db, t, k)
        },
{
    let rows = scan(db, Table::Statements, Seq::empty());
    lemma_scan_exists(db, Table::Statements, Seq::empty());
    let f = |kv: (Seq<u8>, Seq<u8>)| live_entry(kv);
    let entries = live_entries(db)->Ok_0;
    lemma_enqueued(db, entries, t, k);
    assert forall|i: int| 0 <= i < entries.len() implies (slot::<StatementMetadata>(
        db,
        Table::Statements,
        (#[trigger] entries[i]).0,
    ) matches Slot::Row(m) && m.is_current == 1 && m.tombstoned == 0 && entries[i].1 == m.extracted_at_unix_nanos) by {
        assert(entries.contains(entries[i]));
        lemma_collect_members(rows, f, entries[i]);
        let j = choose|j: int| 0 <= j < rows.len() && f(#[trigger] rows[j]) == Ok::<_, StatementOpError>(Some(entries[i]));
        assert(lookup(db, Table::Statements, rows[j].0) == Some(rows[j].1));
        assert(row_sound(db, rows[j].0));
    }
    if slot::<StatementMetadata>(db, Table::Statements, k) matches Slot::Row(m) && m.is_current == 1 && m.tombstoned == 0 {
        let m = slot::<StatementMetadata>(db, Table::Statements, k)->Row_0;
        assert(row_sound(db, k));
        let entry = (k, m.extracted_at_unix_nanos);
        assert(k.take(0) =~= Seq::<u8>::empty());
        assert(db.dom().contains((Table::Statements, k)));
        let j = choose|j: int| 0 <= j < rows.len() && (#[trigger] rows[j]).0 == k;
        lemma_collect_members(rows, f, entry);
        assert(f(rows[j]) == Ok::<_, StatementOpError>(Some(entry)));
        let i = entries.index_of(entry);
        assert(entries[i].0 == k);
    }
}

} // verus!
