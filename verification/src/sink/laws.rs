//! What holds of applying records.

use vstd::prelude::*;
use vstd::utf8::encode_utf8;

use crate::bytes::{be, lemma_be_len, lemma_be_value_of_be, lemma_pow256_values};
use crate::catalog::Table;
use crate::cells::cell_fits;
use crate::collect::{lemma_collect_members, lemma_collect_nothing};
use crate::row::{fits, image, lemma_parsed, slot, Row, Slot};
use crate::sink::{
    applied, checkpoint_ended, consolidated_memory, durable_after, edges_linked, encoded, forgotten, in_slot,
    memories_dropped, memories_linked, memory_changed, memory_edge_key, model_seen, opened_rows, pending_after, reclaimed,
    record_entry, saliences_applied, saliences_set, slot_keys, text_size, with_entry, with_memory,
};
use crate::storage_version::CURRENT_SCHEMA_VERSION;
use crate::store::{lemma_scan_exists, lookup, scan, Db};
use crate::tables::checkpoint::{checkpoint_key, CheckpointMeta};
use crate::tables::edge::unlinked;
use crate::tables::idempotency::{response_kind, IdempotencyEntry};
use crate::tables::memory::{active_memory, flags, memory_kind_byte, MemoryMetadata};
use crate::tables::next_lsn::{bumped, lemma_next_lsn_grows, lsn_after, stored_next_lsn};
use crate::tables::slot_version::{stored_slot_version, versioned};
use crate::tables::text::with_text;
use crate::types::{slot_of, version_of, MemoryId, F32};
use crate::wal::{
    EdgePayload, EncodePayload, ForgetPayload, ReclaimPayload, SalienceUpdate, UpdateSaliencePayload, WalPayload,
};

pub mod records;

verus! {

/// A memory's row can always be held: it has no part of variable length.
proof fn lemma_memory_fits(m: MemoryMetadata)
    ensures
        fits::<MemoryMetadata>(m),
{
    lemma_pow256_values();
    let cells = MemoryMetadata::cells(m);
    assert forall|i: int| 0 <= i < cells.len() implies cell_fits(#[trigger] cells[i]) by {}
}

/// Seeing a record again leaves the stored position as it is.
proof fn lemma_bump_again(db: Db, lsn: u64)
    requires
        bumped(db, lsn) is Ok,
    ensures
        bumped(bumped(db, lsn)->Ok_0, lsn) == bumped(db, lsn),
{
    lemma_next_lsn_grows(db, lsn);
    let d = bumped(db, lsn)->Ok_0;
    assert(bumped(d, lsn)->Ok_0 =~= d);
}

/// The edges of a record give a key the same value in two states, or leave it
/// as it is in both.
proof fn lemma_edges_value(a: Db, b: Db, edges: Seq<EdgePayload>, ts: u64, t: Table, k: Seq<u8>)
    ensures
        lookup(edges_linked(a, edges, ts), t, k) == lookup(edges_linked(b, edges, ts), t, k) || (lookup(
            edges_linked(a, edges, ts),
            t,
            k,
        ) == lookup(a, t, k) && lookup(edges_linked(b, edges, ts), t, k) == lookup(b, t, k)),
        !(t is Edges || t is EdgesReverse) ==> lookup(edges_linked(a, edges, ts), t, k) == lookup(a, t, k),
    decreases edges.len(),
{
    if edges.len() > 0 {
        lemma_edges_value(a, b, edges.drop_last(), ts, t, k);
    }
}

proof fn lemma_edges_home(db: Db, edges: Seq<EdgePayload>, ts: u64)
    ensures
        edges_linked(db, edges, ts).home == db.home,
    decreases edges.len(),
{
    if edges.len() > 0 {
        lemma_edges_home(db, edges.drop_last(), ts);
    }
}

/// The state of a new memory before the stored position is moved.
spec fn encoded_body(db: Db, lsn: u64, ts: u64, p: EncodePayload) -> Db {
    let id = p.memory_id;
    let m = active_memory(
        id,
        p.agent_id,
        p.context_id,
        slot_of(id),
        version_of(id),
        p.kind,
        p.embedding_model_fp,
        p.salience_initial,
        text_size(p.text@),
        ts,
    );
    let d1 = with_text(with_memory(db, id, m), id, p.text@);
    let d2 = with_entry(d1, p.request_id, response_kind::ENCODE, id, ts, lsn);
    let d3 = model_seen(d2, p.embedding_model_fp, ts);
    versioned(edges_linked(d3, p.edges@, ts), slot_of(id), version_of(id))
}

/// Two states with the same values are the same.
proof fn lemma_same_state(a: Db, b: Db)
    requires
        forall|t: Table, k: Seq<u8>| #[trigger] lookup(a, t, k) == lookup(b, t, k),
        a.home == b.home,
    ensures
        a == b,
{
    assert forall|tk: (Table, Seq<u8>)| a.rows.dom().contains(tk) <==> b.rows.dom().contains(tk) by {
        assert(lookup(a, tk.0, tk.1) == lookup(b, tk.0, tk.1));
    }
    assert forall|tk: (Table, Seq<u8>)| a.rows.dom().contains(tk) implies a.rows[tk] == b.rows[tk] by {
        assert(lookup(a, tk.0, tk.1) == lookup(b, tk.0, tk.1));
    }
    assert(a.rows =~= b.rows);
}

/// A new memory that is applied again changes nothing.
pub proof fn lemma_encode_again(db: Db, lsn: u64, ts: u64, p: EncodePayload)
    requires
        encoded(db, lsn, ts, p) is Ok,
    ensures
        encoded(encoded(db, lsn, ts, p)->Ok_0, lsn, ts, p) == encoded(db, lsn, ts, p),
{
    let body = encoded_body(db, lsn, ts, p);
    let d = encoded(db, lsn, ts, p)->Ok_0;
    assert(bumped(body, lsn) == Ok::<_, ()>(d));
    let again = encoded_body(d, lsn, ts, p);
    let id = p.memory_id;
    let m = active_memory(
        id,
        p.agent_id,
        p.context_id,
        slot_of(id),
        version_of(id),
        p.kind,
        p.embedding_model_fp,
        p.salience_initial,
        text_size(p.text@),
        ts,
    );
    let a = model_seen(
        with_entry(with_text(with_memory(db, id, m), id, p.text@), p.request_id, response_kind::ENCODE, id, ts, lsn),
        p.embedding_model_fp,
        ts,
    );
    let b = model_seen(
        with_entry(with_text(with_memory(d, id, m), id, p.text@), p.request_id, response_kind::ENCODE, id, ts, lsn),
        p.embedding_model_fp,
        ts,
    );
    assert forall|t: Table, k: Seq<u8>| #[trigger] lookup(again, t, k) == lookup(d, t, k) by {
        lemma_edges_value(a, b, p.edges@, ts, t, k);
        lemma_edges_value(b, a, p.edges@, ts, t, k);
        lemma_edges_value(a, b, p.edges@, ts, Table::ModelFingerprints, p.embedding_model_fp@);
    }
    lemma_edges_home(a, p.edges@, ts);
    lemma_edges_home(b, p.edges@, ts);
    lemma_same_state(again, d);
    lemma_bump_again(body, lsn);
}

/// A new memory is read back as the record says: its row, its text, the entry of
/// its request, the version of its slot and the position behind the record. Every
/// other memory is as before.
pub proof fn lemma_encoded_is_read_back(db: Db, lsn: u64, ts: u64, p: EncodePayload, other: MemoryId)
    requires
        encoded(db, lsn, ts, p) is Ok,
    ensures
        ({
            let d = encoded(db, lsn, ts, p)->Ok_0;
            let id = p.memory_id;
            &&& slot::<MemoryMetadata>(d, Table::Memories, id.0@) == Slot::Row(
                active_memory(
                    id,
                    p.agent_id,
                    p.context_id,
                    slot_of(id),
                    version_of(id),
                    p.kind,
                    p.embedding_model_fp,
                    p.salience_initial,
                    text_size(p.text@),
                    ts,
                ),
            )
            &&& lookup(d, Table::Texts, id.0@) == Some(encode_utf8(p.text@))
            &&& slot::<IdempotencyEntry>(d, Table::Idempotency, p.request_id.0@) == Slot::Row(
                record_entry(response_kind::ENCODE, id, ts, lsn),
            )
            &&& lookup(d, Table::ModelFingerprints, p.embedding_model_fp@) is Some
            &&& stored_slot_version(d, slot_of(id)) == Ok::<_, ()>(Some(version_of(id)))
            &&& stored_next_lsn(d) matches Ok(next) && next >= lsn_after(lsn)
            &&& other != id ==> lookup(d, Table::Memories, other.0@) == lookup(db, Table::Memories, other.0@) && lookup(
                d,
                Table::Texts,
                other.0@,
            ) == lookup(db, Table::Texts, other.0@)
        }),
{
    let d = encoded(db, lsn, ts, p)->Ok_0;
    let body = encoded_body(db, lsn, ts, p);
    assert(bumped(body, lsn) == Ok::<_, ()>(d));
    let id = p.memory_id;
    let m = active_memory(
        id,
        p.agent_id,
        p.context_id,
        slot_of(id),
        version_of(id),
        p.kind,
        p.embedding_model_fp,
        p.salience_initial,
        text_size(p.text@),
        ts,
    );
    let a = model_seen(
        with_entry(with_text(with_memory(db, id, m), id, p.text@), p.request_id, response_kind::ENCODE, id, ts, lsn),
        p.embedding_model_fp,
        ts,
    );
    lemma_edges_value(a, a, p.edges@, ts, Table::Memories, id.0@);
    lemma_edges_value(a, a, p.edges@, ts, Table::Memories, other.0@);
    lemma_edges_value(a, a, p.edges@, ts, Table::Texts, id.0@);
    lemma_edges_value(a, a, p.edges@, ts, Table::Texts, other.0@);
    lemma_edges_value(a, a, p.edges@, ts, Table::Idempotency, p.request_id.0@);
    lemma_edges_value(a, a, p.edges@, ts, Table::ModelFingerprints, p.embedding_model_fp@);
    lemma_memory_fits(m);
    lemma_parsed::<MemoryMetadata>(m);
    let entry = record_entry(response_kind::ENCODE, id, ts, lsn);
    lemma_pow256_values();
    let cells = IdempotencyEntry::cells(entry);
    assert forall|i: int| 0 <= i < cells.len() implies cell_fits(#[trigger] cells[i]) by {}
    lemma_parsed::<IdempotencyEntry>(entry);
    lemma_be_len(version_of(id) as nat, 4);
    lemma_be_value_of_be(version_of(id) as nat, 4);
    lemma_next_lsn_grows(body, lsn);
    if other.0@ == id.0@ {
        assert(other.0 =~= id.0);
    }
}

/// A change of a memory that gives the same when it is made twice changes
/// nothing the second time.
proof fn lemma_change_again(db: Db, id: MemoryId, f: spec_fn(MemoryMetadata) -> MemoryMetadata)
    requires
        memory_changed(db, id, f) is Ok,
        forall|m: MemoryMetadata| #[trigger] f(f(m)) == f(m),
    ensures
        memory_changed(memory_changed(db, id, f)->Ok_0, id, f) == memory_changed(db, id, f),
{
    if let Slot::Row(m) = slot::<MemoryMetadata>(db, Table::Memories, id.0@) {
        lemma_memory_fits(f(m));
        lemma_parsed::<MemoryMetadata>(f(m));
        let d = memory_changed(db, id, f)->Ok_0;
        assert(f(f(m)) == f(m));
        assert(with_memory(d, id, f(f(m))) =~= d);
    }
}

/// A change of a memory, then what does not touch memories.
proof fn lemma_change_after(db: Db, d: Db, id: MemoryId, f: spec_fn(MemoryMetadata) -> MemoryMetadata)
    requires
        memory_changed(db, id, f) == Ok::<_, ()>(db),
        forall|k: Seq<u8>| #[trigger] lookup(d, Table::Memories, k) == lookup(db, Table::Memories, k),
    ensures
        memory_changed(d, id, f) == Ok::<_, ()>(d),
{
    if let Slot::Row(m) = slot::<MemoryMetadata>(db, Table::Memories, id.0@) {
        assert(lookup(with_memory(db, id, f(m)), Table::Memories, id.0@) == Some(image::<MemoryMetadata>(f(m))));
        assert(with_memory(d, id, f(m)) =~= d);
    }
}

/// The salience that a record sets for the memory under a key: its last one.
pub open spec fn last_salience(updates: Seq<SalienceUpdate>, k: Seq<u8>) -> Option<F32>
    decreases updates.len(),
{
    if updates.len() == 0 {
        None
    } else if updates.last().memory_id.0@ == k {
        Some(updates.last().new_salience)
    } else {
        last_salience(updates.drop_last(), k)
    }
}

/// The value under a key once the saliences of a record were set.
pub open spec fn with_saliences(db: Db, updates: Seq<SalienceUpdate>, t: Table, k: Seq<u8>) -> Option<Seq<u8>> {
    match slot::<MemoryMetadata>(db, Table::Memories, k) {
        Slot::Row(m) => match last_salience(updates, k) {
            Some(salience) => if t is Memories {
                Some(image::<MemoryMetadata>(MemoryMetadata { salience, ..m }))
            } else {
                lookup(db, t, k)
            },
            None => lookup(db, t, k),
        },
        _ => lookup(db, t, k),
    }
}

/// Of the saliences that a record sets for a memory the last one stands, and
/// nothing else changes. It fails on the memories whose rows cannot be read.
pub proof fn lemma_last_salience_stands(db: Db, updates: Seq<SalienceUpdate>)
    ensures
        saliences_set(db, updates) is Ok <==> forall|i: int|
            0 <= i < updates.len() ==> !(slot::<MemoryMetadata>(
                db,
                Table::Memories,
                (#[trigger] updates[i]).memory_id.0@,
            ) is Corrupt),
        saliences_set(db, updates) matches Ok(d) ==> d.home == db.home && forall|t: Table, k: Seq<u8>| #[trigger]
            lookup(d, t, k) == with_saliences(db, updates, t, k),
    decreases updates.len(),
{
    if updates.len() > 0 {
        let head = updates.drop_last();
        let u = updates.last();
        lemma_last_salience_stands(db, head);
        let key = u.memory_id.0@;
        if saliences_set(db, head) is Ok {
            let d = saliences_set(db, head)->Ok_0;
            assert(lookup(d, Table::Memories, key) == with_saliences(db, head, Table::Memories, key));
            if let Slot::Row(m) = slot::<MemoryMetadata>(db, Table::Memories, key) {
                if let Some(salience) = last_salience(head, key) {
                    let n = MemoryMetadata { salience, ..m };
                    lemma_memory_fits(n);
                    lemma_parsed::<MemoryMetadata>(n);
                }
            }
            if let Ok(all) = saliences_set(db, updates) {
                assert forall|t: Table, k: Seq<u8>| #[trigger] lookup(all, t, k) == with_saliences(db, updates, t, k) by {
                    assert(lookup(d, t, k) == with_saliences(db, head, t, k));
                }
            }
            assert forall|i: int| 0 <= i < updates.len() && saliences_set(db, updates) is Ok implies !(slot::<
                MemoryMetadata,
            >(db, Table::Memories, (#[trigger] updates[i]).memory_id.0@) is Corrupt) by {
                if i < head.len() {
                    assert(head[i] == updates[i]);
                }
            }
        } else {
            let i = choose|i: int|
                0 <= i < head.len() && slot::<MemoryMetadata>(
                    db,
                    Table::Memories,
                    (#[trigger] head[i]).memory_id.0@,
                ) is Corrupt;
            assert(updates[i] == head[i]);
        }
        if forall|i: int|
            0 <= i < updates.len() ==> !(slot::<MemoryMetadata>(
                db,
                Table::Memories,
                (#[trigger] updates[i]).memory_id.0@,
            ) is Corrupt) {
            assert forall|i: int| 0 <= i < head.len() implies !(slot::<MemoryMetadata>(
                db,
                Table::Memories,
                (#[trigger] head[i]).memory_id.0@,
            ) is Corrupt) by {
                assert(head[i] == updates[i]);
            }
            assert(updates[updates.len() - 1] == u);
        }
    }
}

proof fn lemma_saliences_again(db: Db, lsn: u64, p: UpdateSaliencePayload)
    requires
        saliences_applied(db, lsn, p) is Ok,
    ensures
        saliences_applied(saliences_applied(db, lsn, p)->Ok_0, lsn, p) == saliences_applied(db, lsn, p),
{
    let updates = p.updates@;
    let body = saliences_set(db, updates)->Ok_0;
    let d = saliences_applied(db, lsn, p)->Ok_0;
    lemma_last_salience_stands(db, updates);
    lemma_last_salience_stands(d, updates);
    assert forall|k: Seq<u8>| #[trigger] lookup(d, Table::Memories, k) == lookup(body, Table::Memories, k) by {}
    assert forall|k: Seq<u8>|
        match (last_salience(updates, k), slot::<MemoryMetadata>(db, Table::Memories, k)) {
            (Some(salience), Slot::Row(m)) => #[trigger] slot::<MemoryMetadata>(d, Table::Memories, k) == Slot::Row(
                MemoryMetadata { salience, ..m },
            ),
            _ => slot::<MemoryMetadata>(d, Table::Memories, k) == slot::<MemoryMetadata>(db, Table::Memories, k),
        } by {
        assert(lookup(d, Table::Memories, k) == lookup(body, Table::Memories, k));
        if let (Some(salience), Slot::Row(m)) = (
            last_salience(updates, k),
            slot::<MemoryMetadata>(db, Table::Memories, k),
        ) {
            let n = MemoryMetadata { salience, ..m };
            lemma_memory_fits(n);
            lemma_parsed::<MemoryMetadata>(n);
        }
    }
    let again = saliences_set(d, updates)->Ok_0;
    assert forall|t: Table, k: Seq<u8>| #[trigger] lookup(again, t, k) == lookup(d, t, k) by {
        let s = slot::<MemoryMetadata>(d, Table::Memories, k);
        assert(lookup(d, Table::Memories, k) == lookup(body, Table::Memories, k));
    }
    lemma_same_state(again, d);
    lemma_bump_again(body, lsn);
}

/// Reclaiming a slot leaves no memory of its old version, and gives it its new
/// one. Every memory of another slot or version is as before, with its text.
pub proof fn lemma_reclaimed(db: Db, lsn: u64, p: ReclaimPayload, k: Seq<u8>)
    requires
        db.rows.dom().finite(),
        reclaimed(db, lsn, p) is Ok,
    ensures
        ({
            let d = reclaimed(db, lsn, p)->Ok_0;
            let gone = slot::<MemoryMetadata>(db, Table::Memories, k) matches Slot::Row(m) && m.slot_id == p.slot_id
                && m.slot_version == p.old_version;
            &&& lookup(d, Table::Memories, k) == if gone {
                None
            } else {
                lookup(db, Table::Memories, k)
            }
            &&& lookup(d, Table::Texts, k) == if gone {
                None
            } else {
                lookup(db, Table::Texts, k)
            }
            &&& stored_slot_version(d, p.slot_id) == Ok::<_, ()>(Some(p.new_version))
        }),
{
    let d = reclaimed(db, lsn, p)->Ok_0;
    let keys = slot_keys(db, p.slot_id, p.old_version)->Ok_0;
    let entries = scan(db, Table::Memories, Seq::empty());
    let f = |kv: (Seq<u8>, Seq<u8>)| in_slot(kv, p.slot_id, p.old_version);
    lemma_scan_exists(db, Table::Memories, Seq::empty());
    lemma_collect_members(entries, f, k);
    lemma_dropped(db, keys, Table::Memories, k);
    lemma_dropped(db, keys, Table::Texts, k);
    lemma_be_len(p.new_version as nat, 4);
    lemma_pow256_values();
    lemma_be_value_of_be(p.new_version as nat, 4);
    if lookup(db, Table::Memories, k) is Some {
        assert(k.take(0) =~= Seq::<u8>::empty());
        assert(db.dom().contains((Table::Memories, k)));
        let i = choose|i: int| 0 <= i < entries.len() && (#[trigger] entries[i]).0 == k;
        assert(lookup(db, Table::Memories, entries[i].0) == Some(entries[i].1));
        assert(f(entries[i]) is Ok);
    }
    if keys.contains(k) {
        let i = choose|i: int| 0 <= i < entries.len() && f(#[trigger] entries[i]) == Ok::<_, ()>(Some(k));
        assert(lookup(db, Table::Memories, entries[i].0) == Some(entries[i].1));
    }
}

proof fn lemma_dropped(db: Db, keys: Seq<Seq<u8>>, t: Table, k: Seq<u8>)
    ensures
        lookup(memories_dropped(db, keys), t, k) == if (t is Memories || t is Texts) && keys.contains(k) {
            None
        } else {
            lookup(db, t, k)
        },
    decreases keys.len(),
{
    if keys.len() > 0 {
        let head = keys.drop_last();
        lemma_dropped(db, head, t, k);
        if head.contains(k) {
            let i = head.index_of(k);
            assert(keys[i] == k);
        }
        if keys.last() == k {
            assert(keys[keys.len() - 1] == k);
        }
        if keys.contains(k) {
            let i = keys.index_of(k);
            if i < head.len() {
                assert(head[i] == k);
            }
        }
    }
}

/// Once a slot was reclaimed, reclaiming it again finds nothing.
proof fn lemma_reclaim_again(db: Db, lsn: u64, p: ReclaimPayload)
    requires
        db.rows.dom().finite(),
        reclaimed(db, lsn, p) is Ok,
    ensures
        reclaimed(reclaimed(db, lsn, p)->Ok_0, lsn, p) == reclaimed(db, lsn, p),
{
    let d = reclaimed(db, lsn, p)->Ok_0;
    let keys = slot_keys(db, p.slot_id, p.old_version)->Ok_0;
    let body = versioned(memories_dropped(db, keys), p.slot_id, p.new_version);
    assert forall|tk: (Table, Seq<u8>)| memories_dropped(db, keys).dom().contains(tk) implies db.dom().contains(tk) by {
        lemma_dropped(db, keys, tk.0, tk.1);
        assert(lookup(memories_dropped(db, keys), tk.0, tk.1) is Some);
    }
    vstd::set_lib::lemma_set_subset_finite(db.dom(), memories_dropped(db, keys).dom());
    let f = |kv: (Seq<u8>, Seq<u8>)| in_slot(kv, p.slot_id, p.old_version);
    let before = scan(db, Table::Memories, Seq::empty());
    let after = scan(d, Table::Memories, Seq::empty());
    lemma_scan_exists(db, Table::Memories, Seq::empty());
    lemma_scan_exists(d, Table::Memories, Seq::empty());
    assert forall|i: int| 0 <= i < after.len() implies f(#[trigger] after[i]) == Ok::<_, ()>(None::<Seq<u8>>) by {
        let k = after[i].0;
        lemma_reclaimed(db, lsn, p, k);
        assert(lookup(d, Table::Memories, k) == Some(after[i].1));
        assert(db.dom().contains((Table::Memories, k)));
        let j = choose|j: int| 0 <= j < before.len() && (#[trigger] before[j]).0 == k;
        assert(lookup(db, Table::Memories, before[j].0) == Some(before[j].1));
        lemma_collect_members(before, f, k);
        assert(f(before[j]) is Ok);
    }
    lemma_collect_nothing(after, f);
    assert(versioned(d, p.slot_id, p.new_version) =~= d);
    lemma_bump_again(body, lsn);
}

proof fn lemma_forget_again(db: Db, lsn: u64, ts: u64, p: ForgetPayload)
    requires
        forgotten(db, lsn, ts, p) is Ok,
    ensures
        forgotten(forgotten(db, lsn, ts, p)->Ok_0, lsn, ts, p) == forgotten(db, lsn, ts, p),
{
    let f = |m: MemoryMetadata|
        MemoryMetadata { flags: m.flags | flags::HARD_FORGOTTEN, forgot_at_unix_nanos: Some(ts), ..m };
    assert forall|m: MemoryMetadata| #[trigger] f(f(m)) == f(m) by {
        let x = m.flags;
        assert((x | 2u32) | 2u32 == x | 2u32) by (bit_vector);
    }
    let changed = memory_changed(db, p.memory_id, f)->Ok_0;
    lemma_change_again(db, p.memory_id, f);
    let body = with_entry(changed, p.request_id, response_kind::FORGET, p.memory_id, ts, lsn);
    let d = bumped(body, lsn)->Ok_0;
    assert(forgotten(db, lsn, ts, p) == Ok::<_, ()>(d));
    lemma_change_after(changed, d, p.memory_id, f);
    assert(with_entry(d, p.request_id, response_kind::FORGET, p.memory_id, ts, lsn) =~= d);
    lemma_bump_again(body, lsn);
}

/// A change of a memory and the position behind its record, twice.
proof fn lemma_changed_and_bumped_again(
    db: Db,
    lsn: u64,
    id: MemoryId,
    f: spec_fn(MemoryMetadata) -> MemoryMetadata,
)
    requires
        memory_changed(db, id, f) matches Ok(d) && bumped(d, lsn) is Ok,
        forall|m: MemoryMetadata| #[trigger] f(f(m)) == f(m),
    ensures
        ({
            let d = bumped(memory_changed(db, id, f)->Ok_0, lsn)->Ok_0;
            memory_changed(d, id, f) == Ok::<_, ()>(d) && bumped(d, lsn) == Ok::<_, ()>(d)
        }),
{
    let changed = memory_changed(db, id, f)->Ok_0;
    let d = bumped(changed, lsn)->Ok_0;
    lemma_change_again(db, id, f);
    lemma_change_after(changed, d, id, f);
    lemma_bump_again(changed, lsn);
}

/// A record that is applied a second time changes nothing, so a log can be
/// replayed from before the last record that was applied. The end of a
/// checkpoint is such a record unless its beginning was seen since the store was
/// taken into use: the first time forgets when it began.
pub proof fn lemma_replay(db: Db, pending: Map<u64, u64>, lsn: u64, ts: u64, payload: WalPayload)
    requires
        db.rows.dom().finite(),
        applied(db, pending, lsn, ts, payload) is Ok,
        payload matches WalPayload::CheckpointEnd(p) ==> !pending.dom().contains(p.checkpoint_id),
    ensures
        ({
            let d = applied(db, pending, lsn, ts, payload)->Ok_0;
            applied(d, pending_after(pending, payload), lsn, ts, payload) == Ok::<_, ()>(d)
        }),
{
    let d = applied(db, pending, lsn, ts, payload)->Ok_0;
    match payload {
        WalPayload::Encode(p) => {
            lemma_encode_again(db, lsn, ts, p);
        },
        WalPayload::Forget(p) => {
            lemma_forget_again(db, lsn, ts, p);
        },
        WalPayload::Link(p) => {
            let body = memories_linked(db, p.source, p.edge_kind, p.target, p.weight, p.origin, ts);
            lemma_bump_again(body, lsn);
            assert(memories_linked(d, p.source, p.edge_kind, p.target, p.weight, p.origin, ts) =~= d);
        },
        WalPayload::Unlink(p) => {
            let key = memory_edge_key(p.source, p.edge_kind, p.target);
            lemma_bump_again(unlinked(db, key), lsn);
            assert(unlinked(d, key) =~= d);
        },
        WalPayload::UpdateSalience(p) => {
            lemma_saliences_again(db, lsn, p);
        },
        WalPayload::Reclaim(p) => {
            lemma_reclaim_again(db, lsn, p);
        },
        WalPayload::Consolidate(p) => {
            let id = p.new_memory_id;
            let m = consolidated_memory(id, p.embedding_model_fp, text_size(p.text@), ts);
            let body = versioned(with_text(with_memory(db, id, m), id, p.text@), slot_of(id), version_of(id));
            lemma_bump_again(body, lsn);
            assert(versioned(with_text(with_memory(d, id, m), id, p.text@), slot_of(id), version_of(id)) =~= d);
        },
        WalPayload::UpdateKind(p) => {
            let f = |m: MemoryMetadata| MemoryMetadata { kind: memory_kind_byte(p.new_kind), ..m };
            lemma_changed_and_bumped_again(db, lsn, p.memory_id, f);
        },
        WalPayload::UpdateContext(p) => {
            let f = |m: MemoryMetadata| MemoryMetadata { context_id: p.new_context_id.0, ..m };
            lemma_changed_and_bumped_again(db, lsn, p.memory_id, f);
        },
        WalPayload::MigrateEmbedding(p) => {
            let f = |m: MemoryMetadata| MemoryMetadata { embedding_model_fp: p.new_fingerprint, ..m };
            lemma_changed_and_bumped_again(db, lsn, p.memory_id, f);
        },
        WalPayload::CheckpointEnd(p) => {
            let body = db.insert(
                (Table::Checkpoints, checkpoint_key(p.checkpoint_id)),
                image::<CheckpointMeta>(
                    CheckpointMeta {
                        checkpoint_id: p.checkpoint_id,
                        durable_lsn: p.durable_lsn,
                        arena_capacity_at_checkpoint: p.arena_capacity,
                        metadata_version_at_checkpoint: CURRENT_SCHEMA_VERSION as u64,
                        started_at_unix_nanos: 0,
                        completed_at_unix_nanos: ts,
                    },
                ),
            );
            lemma_bump_again(body, lsn);
            let again = checkpoint_ended(d, lsn, ts, p, 0);
            assert(again->Ok_0 =~= d);
        },
        _ => {
            lemma_bump_again(db, lsn);
        },
    }
}

/// Forgetting a memory marks its row and keeps its text. Every other memory is as
/// before.
pub proof fn lemma_forgotten(db: Db, lsn: u64, ts: u64, p: ForgetPayload, k: Seq<u8>)
    requires
        forgotten(db, lsn, ts, p) is Ok,
    ensures
        ({
            let d = forgotten(db, lsn, ts, p)->Ok_0;
            &&& lookup(d, Table::Texts, k) == lookup(db, Table::Texts, k)
            &&& k != p.memory_id.0@ ==> lookup(d, Table::Memories, k) == lookup(db, Table::Memories, k)
            &&& slot::<MemoryMetadata>(d, Table::Memories, p.memory_id.0@) == match slot::<MemoryMetadata>(
                db,
                Table::Memories,
                p.memory_id.0@,
            ) {
                Slot::Row(m) => Slot::Row(
                    MemoryMetadata { flags: m.flags | flags::HARD_FORGOTTEN, forgot_at_unix_nanos: Some(ts), ..m },
                ),
                other => other,
            }
        }),
{
    if let Slot::Row(m) = slot::<MemoryMetadata>(db, Table::Memories, p.memory_id.0@) {
        let n = MemoryMetadata { flags: m.flags | flags::HARD_FORGOTTEN, forgot_at_unix_nanos: Some(ts), ..m };
        lemma_memory_fits(n);
        lemma_parsed::<MemoryMetadata>(n);
    }
}

/// The position up to which the log is in the store never goes back.
pub proof fn lemma_durable_grows(durable: u64, payload: WalPayload)
    ensures
        durable_after(durable, payload) >= durable,
{
}

/// A database that is taken into use has its version: a fresh one gets it, and nothing
/// else of it changes; any other is left as it is.
pub proof fn lemma_opened_rows(db: Db, t: Table, k: Seq<u8>)
    ensures
        ({
            let fresh = lookup(db, Table::SchemaMeta, encode_utf8("schema_version"@)) is None;
            let there = opened_rows(db);
            &&& fresh && t is SchemaMeta && k == encode_utf8("schema_version"@) ==> there.dom().contains((t, k)) && there[(
            t,
            k,
            )] == be(2, 4)
            &&& !(fresh && t is SchemaMeta && k == encode_utf8("schema_version"@)) ==> {
                &&& there.dom().contains((t, k)) <==> lookup(db, t, k) is Some
                &&& there.dom().contains((t, k)) ==> Some(there[(t, k)]) == lookup(db, t, k)
            }
        }),
{
}

} // verus!
