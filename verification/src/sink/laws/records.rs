//! What each record of the log leaves, row by row.

use vstd::prelude::*;
use vstd::utf8::encode_utf8;

use crate::bytes::{be, be_value, lemma_be_len, lemma_be_value_of_be, lemma_pow256_values, zeros};
use crate::catalog::Table;
use crate::cells::cell_fits;
use crate::row::{fits, image, lemma_parsed, slot, Row, Slot};
use crate::sink::laws::{lemma_edges_value, lemma_last_salience_stands, lemma_memory_fits, lemma_reclaimed};
use crate::sink::{
    applied, consolidated_memory, durable_after, edges_linked, memories_linked, memory_edge_key, model_seen,
    pending_after, record_edge_data, record_entry, text_size, with_entry, with_memory,
};
use crate::store::{lookup, Db};
use crate::tables::checkpoint::CheckpointMeta;
use crate::tables::edge::laws::lemma_walk_meets;
use crate::tables::edge::{
    lemma_key_injective, unlinked, walk, EdgeData, EdgeDataModel, EdgeKey, EdgeKind, EdgeKindRef, NodeRef,
};
use crate::tables::idempotency::{IdempotencyEntry, IdempotencyModel};
use crate::tables::memory::{active_memory, MemoryKind, MemoryMetadata};
use crate::tables::model_fingerprint::ModelInfo;
use crate::tables::text::with_text;
use crate::types::{slot_of, version_of, MemoryId, F32};
use crate::wal::{
    CheckpointEndPayload, ConsolidatePayload, EdgeOrigin, EdgePayload, EncodePayload, ForgetPayload, LinkPayload,
    MigrateEmbeddingPayload, ReclaimPayload, UnlinkPayload, UpdateContextPayload, UpdateKindPayload,
    UpdateSaliencePayload, WalPayload,
};

verus! {

/// An edge of the log between two memories, from the first to the second.
pub open spec fn edge_between(source: MemoryId, kind: EdgeKind, target: MemoryId, z: [u8; 16]) -> EdgeKey {
    EdgeKey {
        from: NodeRef::Memory(source),
        kind: EdgeKindRef::Builtin(kind),
        to: NodeRef::Memory(target),
        disambiguator: z,
    }
}

/// The data of an edge of the log: 0 stands for one that was stated, 1 for one that
/// was derived, and it is a client's in either case.
pub open spec fn edge_of_log(weight: F32, origin: EdgeOrigin, ts: u64) -> EdgeDataModel {
    EdgeData {
        weight,
        origin: match origin {
            EdgeOrigin::Explicit => 0,
            EdgeOrigin::AutoDerived => 1,
        },
        derived_by: 0,
        created_at_unix_nanos: ts,
        annotation: None,
    }
}

/// Sixteen zero bytes.
pub open spec fn is_zero(z: [u8; 16]) -> bool {
    forall|i: int| 0 <= i < 16 ==> #[trigger] z@[i] == 0
}

proof fn lemma_is_zero(z: [u8; 16])
    requires
        is_zero(z),
    ensures
        z == zeros::<16>(),
{
    assert(z@ =~= Seq::new(16, |i: int| 0u8));
    assert(z =~= zeros::<16>());
}

proof fn lemma_edge_of_log(weight: F32, origin: EdgeOrigin, ts: u64)
    ensures
        record_edge_data(weight, origin, ts) == edge_of_log(weight, origin, ts),
        fits::<EdgeData>(edge_of_log(weight, origin, ts)),
{
    lemma_pow256_values();
    let cells = EdgeData::<String>::cells(edge_of_log(weight, origin, ts));
    assert forall|i: int| 0 <= i < cells.len() implies cell_fits(#[trigger] cells[i]) by {}
}

/// A link leaves an edge from its source to its target: under its source it leads to
/// the target, under its target it leads back to the source, with the weight, origin
/// and time of the record. Only similarity and contradiction hold in both directions;
/// of any other kind no edge is made from the target to the source. No other edge
/// changes.
pub proof fn lemma_link_record(
    db: Db,
    pending: Map<u64, u64>,
    lsn: u64,
    ts: u64,
    p: LinkPayload,
    z: [u8; 16],
    other: EdgeKey,
)
    requires
        applied(db, pending, lsn, ts, WalPayload::Link(p)) is Ok,
        is_zero(z),
    ensures
        ({
            let d = applied(db, pending, lsn, ts, WalPayload::Link(p))->Ok_0;
            let there = EdgeKey {
                from: NodeRef::Memory(p.source),
                kind: EdgeKindRef::Builtin(p.edge_kind),
                to: NodeRef::Memory(p.target),
                disambiguator: z,
            };
            let back = EdgeKey {
                from: NodeRef::Memory(p.target),
                kind: EdgeKindRef::Builtin(p.edge_kind),
                to: NodeRef::Memory(p.source),
                disambiguator: z,
            };
            let both = p.edge_kind == EdgeKind::SimilarTo || p.edge_kind == EdgeKind::Contradicts;
            let data = edge_of_log(p.weight, p.origin, ts);
            &&& slot::<EdgeData>(d, Table::Edges, there.image()) == Slot::Row(data)
            &&& slot::<EdgeData>(d, Table::EdgesReverse, back.image()) == Slot::Row(data)
            &&& both ==> slot::<EdgeData>(d, Table::Edges, back.image()) == Slot::Row(data)
            &&& both ==> slot::<EdgeData>(d, Table::EdgesReverse, there.image()) == Slot::Row(data)
            &&& other != there && !(both && other == back) ==> lookup(d, Table::Edges, other.image()) == lookup(
                db,
                Table::Edges,
                other.image(),
            )
            &&& other != back && !(both && other == there) ==> lookup(d, Table::EdgesReverse, other.image()) == lookup(
                db,
                Table::EdgesReverse,
                other.image(),
            )
        }),
{
    lemma_is_zero(z);
    lemma_edge_of_log(p.weight, p.origin, ts);
    lemma_parsed::<EdgeData>(edge_of_log(p.weight, p.origin, ts));
    let there = edge_between(p.source, p.edge_kind, p.target, z);
    let back = edge_between(p.target, p.edge_kind, p.source, z);
    assert(there == memory_edge_key(p.source, p.edge_kind, p.target));
    assert(there.flipped() == back && back.flipped() == there);
    if other.image() == there.image() {
        lemma_key_injective(other, there);
    }
    if other.image() == back.image() {
        lemma_key_injective(other, back);
    }
    if there.image() == back.image() {
        lemma_key_injective(there, back);
    }
}

/// After a link a walk from the source meets an edge of that kind and weight to the
/// target, and a walk to the target meets one from the source.
pub proof fn lemma_link_record_is_walked(
    db: Db,
    pending: Map<u64, u64>,
    lsn: u64,
    ts: u64,
    p: LinkPayload,
    z: [u8; 16],
    kind_filter: Option<EdgeKindRef>,
)
    requires
        db.rows.dom().finite(),
        applied(db, pending, lsn, ts, WalPayload::Link(p)) is Ok,
        is_zero(z),
        kind_filter is None || kind_filter == Some(EdgeKindRef::Builtin(p.edge_kind)),
    ensures
        ({
            let d = applied(db, pending, lsn, ts, WalPayload::Link(p))->Ok_0;
            let data = edge_of_log(p.weight, p.origin, ts);
            let label = EdgeKindRef::Builtin(p.edge_kind);
            &&& walk(d, Table::Edges, NodeRef::Memory(p.source), kind_filter) matches Ok(rows) ==> rows.contains(
                (label, NodeRef::Memory(p.target), z, data),
            )
            &&& walk(d, Table::EdgesReverse, NodeRef::Memory(p.target), kind_filter) matches Ok(rows)
                ==> rows.contains((label, NodeRef::Memory(p.source), z, data))
        }),
{
    let d = applied(db, pending, lsn, ts, WalPayload::Link(p))->Ok_0;
    lemma_is_zero(z);
    let data = edge_of_log(p.weight, p.origin, ts);
    lemma_edge_of_log(p.weight, p.origin, ts);
    let there = edge_between(p.source, p.edge_kind, p.target, z);
    let back = edge_between(p.target, p.edge_kind, p.source, z);
    assert(there == memory_edge_key(p.source, p.edge_kind, p.target));
    assert(there.flipped() == back && back.flipped() == there);
    if walk(d, Table::Edges, NodeRef::Memory(p.source), kind_filter) is Ok {
        lemma_walk_meets(d, Table::Edges, there, data, kind_filter);
    }
    if walk(d, Table::EdgesReverse, NodeRef::Memory(p.target), kind_filter) is Ok {
        lemma_walk_meets(d, Table::EdgesReverse, back, data, kind_filter);
    }
}

/// The removal of a link removes the edge from its source to its target, and one that
/// holds in both directions in both. No other edge changes.
pub proof fn lemma_unlink_record(
    db: Db,
    pending: Map<u64, u64>,
    lsn: u64,
    ts: u64,
    p: UnlinkPayload,
    z: [u8; 16],
    other: EdgeKey,
)
    requires
        applied(db, pending, lsn, ts, WalPayload::Unlink(p)) is Ok,
        is_zero(z),
    ensures
        ({
            let d = applied(db, pending, lsn, ts, WalPayload::Unlink(p))->Ok_0;
            let there = EdgeKey {
                from: NodeRef::Memory(p.source),
                kind: EdgeKindRef::Builtin(p.edge_kind),
                to: NodeRef::Memory(p.target),
                disambiguator: z,
            };
            let back = EdgeKey {
                from: NodeRef::Memory(p.target),
                kind: EdgeKindRef::Builtin(p.edge_kind),
                to: NodeRef::Memory(p.source),
                disambiguator: z,
            };
            let both = p.edge_kind == EdgeKind::SimilarTo || p.edge_kind == EdgeKind::Contradicts;
            &&& lookup(d, Table::Edges, there.image()) is None
            &&& lookup(d, Table::EdgesReverse, back.image()) is None
            &&& both ==> lookup(d, Table::Edges, back.image()) is None && lookup(
                d,
                Table::EdgesReverse,
                there.image(),
            ) is None
            &&& other != there && !(both && other == back) ==> lookup(d, Table::Edges, other.image()) == lookup(
                db,
                Table::Edges,
                other.image(),
            )
            &&& other != back && !(both && other == there) ==> lookup(d, Table::EdgesReverse, other.image()) == lookup(
                db,
                Table::EdgesReverse,
                other.image(),
            )
        }),
{
    lemma_is_zero(z);
    let there = edge_between(p.source, p.edge_kind, p.target, z);
    let back = edge_between(p.target, p.edge_kind, p.source, z);
    assert(there == memory_edge_key(p.source, p.edge_kind, p.target));
    assert(there.flipped() == back && back.flipped() == there);
    if other.image() == there.image() {
        lemma_key_injective(other, there);
    }
    if other.image() == back.image() {
        lemma_key_injective(other, back);
    }
    if there.image() == back.image() {
        lemma_key_injective(there, back);
    }
}

/// Edges that come after an edge, on other pairs of memories or of other kinds.
pub open spec fn last_of_its_pair(edges: Seq<EdgePayload>, i: int) -> bool {
    forall|j: int|
        i < j < edges.len() ==> {
            let e = #[trigger] edges[j];
            e.kind != edges[i].kind || !(e.source == edges[i].source && e.target == edges[i].target || e.source
                == edges[i].target && e.target == edges[i].source)
        }
}

proof fn lemma_edges_stay(db: Db, edges: Seq<EdgePayload>, ts: u64, i: int)
    requires
        0 <= i < edges.len(),
        last_of_its_pair(edges, i),
    ensures
        ({
            let e = edges[i];
            let d = edges_linked(db, edges, ts);
            let there = memory_edge_key(e.source, e.kind, e.target);
            let value = crate::row::image::<EdgeData>(record_edge_data(e.weight, e.origin, ts));
            &&& lookup(d, Table::Edges, there.image()) == Some(value)
            &&& lookup(d, Table::EdgesReverse, there.flipped().image()) == Some(value)
        }),
    decreases edges.len(),
{
    let e = edges[i];
    let there = memory_edge_key(e.source, e.kind, e.target);
    let head = edges.drop_last();
    let n = edges.last();
    let new = memory_edge_key(n.source, n.kind, n.target);
    if i < edges.len() - 1 {
        assert(head[i] == edges[i]);
        assert forall|j: int| i < j < head.len() implies {
            let e = #[trigger] head[j];
            e.kind != head[i].kind || !(e.source == head[i].source && e.target == head[i].target || e.source
                == head[i].target && e.target == head[i].source)
        } by {
            assert(head[j] == edges[j]);
        }
        lemma_edges_stay(db, head, ts, i);
        assert(n == edges[edges.len() - 1]);
        assert(there.flipped().flipped() == there && new.flipped().flipped() == new);
        if there.image() == new.image() {
            lemma_key_injective(there, new);
        }
        if there.image() == new.flipped().image() {
            lemma_key_injective(there, new.flipped());
        }
        if there.flipped().image() == new.image() {
            lemma_key_injective(there.flipped(), new);
        }
        if there.flipped().image() == new.flipped().image() {
            lemma_key_injective(there.flipped(), new.flipped());
        }
    }
}

/// A new memory leaves each edge of its record, from its source to its target, with
/// its weight, origin and time. Of edges of one kind on one pair the last one counts.
pub proof fn lemma_encoded_edge(
    db: Db,
    pending: Map<u64, u64>,
    lsn: u64,
    ts: u64,
    p: EncodePayload,
    z: [u8; 16],
    i: int,
)
    requires
        applied(db, pending, lsn, ts, WalPayload::Encode(p)) is Ok,
        is_zero(z),
        0 <= i < p.edges@.len(),
        last_of_its_pair(p.edges@, i),
    ensures
        ({
            let d = applied(db, pending, lsn, ts, WalPayload::Encode(p))->Ok_0;
            let e = p.edges@[i];
            let there = EdgeKey {
                from: NodeRef::Memory(e.source),
                kind: EdgeKindRef::Builtin(e.kind),
                to: NodeRef::Memory(e.target),
                disambiguator: z,
            };
            let back = EdgeKey {
                from: NodeRef::Memory(e.target),
                kind: EdgeKindRef::Builtin(e.kind),
                to: NodeRef::Memory(e.source),
                disambiguator: z,
            };
            let data = edge_of_log(e.weight, e.origin, ts);
            &&& slot::<EdgeData>(d, Table::Edges, there.image()) == Slot::Row(data)
            &&& slot::<EdgeData>(d, Table::EdgesReverse, back.image()) == Slot::Row(data)
        }),
{
    let e = p.edges@[i];
    lemma_is_zero(z);
    lemma_edge_of_log(e.weight, e.origin, ts);
    lemma_parsed::<EdgeData>(edge_of_log(e.weight, e.origin, ts));
    let id = p.memory_id;
    let m = active_memory(
        id,
        p.agent_id,
        p.context_id,
        slot_of(id),
        version_of(id),
        p.kind,
        p.embedding_model_fp,
        p.salience_initial,
        text_size(p.text@),
        ts,
    );
    let d1 = with_text(with_memory(db, id, m), id, p.text@);
    let d2 = with_entry(d1, p.request_id, 1, id, ts, lsn);
    let d3 = model_seen(d2, p.embedding_model_fp, ts);
    lemma_edges_stay(d3, p.edges@, ts, i);
    let there = edge_between(e.source, e.kind, e.target, z);
    assert(there == memory_edge_key(e.source, e.kind, e.target));
    assert(there.flipped() == edge_between(e.target, e.kind, e.source, z));
}

/// A new memory is stored as its record says, field by field: with the agent,
/// context, kind, salience and model of the record, at the slot and version of its
/// identifier, active, unread and just made. Its text is stored, an entry with number
/// 1 answers its request when that comes again, and no other memory, text or entry
/// changes.
pub proof fn lemma_encode_record(
    db: Db,
    pending: Map<u64, u64>,
    lsn: u64,
    ts: u64,
    p: EncodePayload,
    t: Table,
    k: Seq<u8>,
)
    requires
        applied(db, pending, lsn, ts, WalPayload::Encode(p)) is Ok,
    ensures
        ({
            let d = applied(db, pending, lsn, ts, WalPayload::Encode(p))->Ok_0;
            let id = p.memory_id.0;
            &&& slot::<MemoryMetadata>(d, Table::Memories, id@) matches Slot::Row(m) && {
                &&& m.memory_id_bytes == id
                &&& m.agent_id_bytes == p.agent_id.0
                &&& m.context_id == p.context_id.0
                &&& m.slot_id == be_value(id@.subrange(2, 10)) as u64
                &&& m.slot_version == be_value(id@.subrange(10, 14)) as u32
                &&& m.kind == match p.kind {
                    MemoryKind::Episodic => 0u8,
                    MemoryKind::Semantic => 1u8,
                    MemoryKind::Consolidated => 2u8,
                }
                &&& encode_utf8(p.text@).len() <= 0xffff_ffff ==> m.text_size == encode_utf8(p.text@).len()
                &&& m.created_at_unix_nanos == ts && m.last_accessed_at_unix_nanos == ts
                &&& m.forgot_at_unix_nanos is None && m.tombstoned_at_unix_nanos is None
                &&& m.consolidated_at_unix_nanos is None
                &&& m.salience == p.salience_initial && m.salience_initial == p.salience_initial
                &&& m.embedding_model_fp == p.embedding_model_fp
                &&& m.access_count == 0 && m.flags == 1
            }
            &&& lookup(d, Table::Texts, id@) == Some(encode_utf8(p.text@))
            &&& slot::<IdempotencyEntry>(d, Table::Idempotency, p.request_id.0@) matches Slot::Row(e) && {
                &&& e.response_kind == 1
                &&& e.memory_id_bytes == Some(id)
                &&& e.created_at_unix_nanos == ts
                &&& e.lsn == lsn
            }
            &&& lookup(d, Table::ModelFingerprints, p.embedding_model_fp@) == match lookup(
                db,
                Table::ModelFingerprints,
                p.embedding_model_fp@,
            ) {
                Some(b) => Some(b),
                None => Some(
                    image::<ModelInfo>(
                        ModelInfo {
                            model_name: Seq::<char>::empty(),
                            seen_at_unix_nanos: ts,
                            memory_count_at_fingerprint: 0,
                        },
                    ),
                ),
            }
            &&& lookup(d, Table::SlotVersions, be(be_value(id@.subrange(2, 10)), 8)) == Some(
                be(be_value(id@.subrange(10, 14)), 4),
            )
            &&& !(t is Memories && k == id@ || t is Texts && k == id@ || t is Idempotency && k == p.request_id.0@ || t
                is ModelFingerprints && k == p.embedding_model_fp@ || t is Edges || t is EdgesReverse || t is SlotVersions
                && k == be(be_value(id@.subrange(2, 10)), 8) || t is NextLsn) ==> lookup(d, t, k) == lookup(db, t, k)
        }),
{
    let id = p.memory_id;
    let m = active_memory(
        id,
        p.agent_id,
        p.context_id,
        slot_of(id),
        version_of(id),
        p.kind,
        p.embedding_model_fp,
        p.salience_initial,
        text_size(p.text@),
        ts,
    );
    let d1 = with_text(with_memory(db, id, m), id, p.text@);
    let d2 = with_entry(d1, p.request_id, 1, id, ts, lsn);
    let d3 = model_seen(d2, p.embedding_model_fp, ts);
    lemma_edges_value(d3, d3, p.edges@, ts, Table::Memories, id.0@);
    lemma_edges_value(d3, d3, p.edges@, ts, Table::Texts, id.0@);
    lemma_edges_value(d3, d3, p.edges@, ts, Table::Idempotency, p.request_id.0@);
    lemma_edges_value(d3, d3, p.edges@, ts, Table::ModelFingerprints, p.embedding_model_fp@);
    lemma_edges_value(d3, d3, p.edges@, ts, t, k);
    lemma_memory_fits(m);
    lemma_parsed::<MemoryMetadata>(m);
    lemma_entry_fits(record_entry(1, id, ts, lsn));
    lemma_parsed::<IdempotencyEntry>(record_entry(1, id, ts, lsn));
    lemma_pow256_values();
    lemma_value_bounded(id.0@.subrange(2, 10));
    lemma_value_bounded(id.0@.subrange(10, 14));
}

proof fn lemma_entry_fits(e: IdempotencyModel)
    requires
        e.response_payload.len() == 0,
    ensures
        fits::<IdempotencyEntry>(e),
{
    lemma_pow256_values();
    let cells = IdempotencyEntry::<Vec<u8>>::cells(e);
    assert forall|i: int| 0 <= i < cells.len() implies cell_fits(#[trigger] cells[i]) by {}
}

proof fn lemma_value_bounded(s: Seq<u8>)
    ensures
        0 <= be_value(s) < crate::bytes::pow256(s.len()),
    decreases s.len(),
{
    if s.len() > 0 {
        lemma_value_bounded(s.drop_last());
    }
}

/// Forgetting marks a memory that is there with the second bit and the time, and
/// leaves the rest of its row, its text and every other row as they were. An entry
/// with number 2 answers the request when it comes again.
pub proof fn lemma_forget_record(
    db: Db,
    pending: Map<u64, u64>,
    lsn: u64,
    ts: u64,
    p: ForgetPayload,
    t: Table,
    k: Seq<u8>,
)
    requires
        applied(db, pending, lsn, ts, WalPayload::Forget(p)) is Ok,
    ensures
        ({
            let d = applied(db, pending, lsn, ts, WalPayload::Forget(p))->Ok_0;
            let was = slot::<MemoryMetadata>(db, Table::Memories, p.memory_id.0@);
            &&& slot::<MemoryMetadata>(d, Table::Memories, p.memory_id.0@) == match was {
                Slot::Row(m) => Slot::Row(
                    MemoryMetadata { flags: m.flags | 2u32, forgot_at_unix_nanos: Some(ts), ..m },
                ),
                _ => Slot::Absent,
            }
            &&& slot::<IdempotencyEntry>(d, Table::Idempotency, p.request_id.0@) matches Slot::Row(e) && {
                &&& e.response_kind == 2
                &&& e.memory_id_bytes == Some(p.memory_id.0)
                &&& e.created_at_unix_nanos == ts
                &&& e.lsn == lsn
            }
            &&& !(t is Memories && k == p.memory_id.0@ || t is Idempotency && k == p.request_id.0@ || t is NextLsn)
                ==> lookup(d, t, k) == lookup(db, t, k)
        }),
{
    if let Slot::Row(m) = slot::<MemoryMetadata>(db, Table::Memories, p.memory_id.0@) {
        let n = MemoryMetadata { flags: m.flags | 2u32, forgot_at_unix_nanos: Some(ts), ..m };
        lemma_memory_fits(n);
        lemma_parsed::<MemoryMetadata>(n);
    }
    let e = record_entry(2, p.memory_id, ts, lsn);
    lemma_entry_fits(e);
    lemma_parsed::<IdempotencyEntry>(e);
}

/// What a record changes of a memory that is there: the one field that it names.
/// Every other row is as before.
pub proof fn lemma_update_records(
    db: Db,
    pending: Map<u64, u64>,
    lsn: u64,
    ts: u64,
    kind: UpdateKindPayload,
    context: UpdateContextPayload,
    model: MigrateEmbeddingPayload,
    t: Table,
    k: Seq<u8>,
)
    ensures
        applied(db, pending, lsn, ts, WalPayload::UpdateKind(kind)) matches Ok(d) ==> {
            &&& slot::<MemoryMetadata>(d, Table::Memories, kind.memory_id.0@) == match slot::<MemoryMetadata>(
                db,
                Table::Memories,
                kind.memory_id.0@,
            ) {
                Slot::Row(m) => Slot::Row(
                    MemoryMetadata {
                        kind: match kind.new_kind {
                            MemoryKind::Episodic => 0u8,
                            MemoryKind::Semantic => 1u8,
                            MemoryKind::Consolidated => 2u8,
                        },
                        ..m
                    },
                ),
                _ => Slot::Absent,
            }
            &&& !(t is Memories && k == kind.memory_id.0@ || t is NextLsn) ==> lookup(d, t, k) == lookup(db, t, k)
        },
        applied(db, pending, lsn, ts, WalPayload::UpdateContext(context)) matches Ok(d) ==> {
            &&& slot::<MemoryMetadata>(d, Table::Memories, context.memory_id.0@) == match slot::<MemoryMetadata>(
                db,
                Table::Memories,
                context.memory_id.0@,
            ) {
                Slot::Row(m) => Slot::Row(MemoryMetadata { context_id: context.new_context_id.0, ..m }),
                _ => Slot::Absent,
            }
            &&& !(t is Memories && k == context.memory_id.0@ || t is NextLsn) ==> lookup(d, t, k) == lookup(db, t, k)
        },
        applied(db, pending, lsn, ts, WalPayload::MigrateEmbedding(model)) matches Ok(d) ==> {
            &&& slot::<MemoryMetadata>(d, Table::Memories, model.memory_id.0@) == match slot::<MemoryMetadata>(
                db,
                Table::Memories,
                model.memory_id.0@,
            ) {
                Slot::Row(m) => Slot::Row(MemoryMetadata { embedding_model_fp: model.new_fingerprint, ..m }),
                _ => Slot::Absent,
            }
            &&& !(t is Memories && k == model.memory_id.0@ || t is NextLsn) ==> lookup(d, t, k) == lookup(db, t, k)
        },
{
    if let Slot::Row(m) = slot::<MemoryMetadata>(db, Table::Memories, kind.memory_id.0@) {
        let n = MemoryMetadata {
            kind: match kind.new_kind {
                MemoryKind::Episodic => 0u8,
                MemoryKind::Semantic => 1u8,
                MemoryKind::Consolidated => 2u8,
            },
            ..m
        };
        lemma_memory_fits(n);
        lemma_parsed::<MemoryMetadata>(n);
    }
    if let Slot::Row(m) = slot::<MemoryMetadata>(db, Table::Memories, context.memory_id.0@) {
        let n = MemoryMetadata { context_id: context.new_context_id.0, ..m };
        lemma_memory_fits(n);
        lemma_parsed::<MemoryMetadata>(n);
    }
    if let Slot::Row(m) = slot::<MemoryMetadata>(db, Table::Memories, model.memory_id.0@) {
        let n = MemoryMetadata { embedding_model_fp: model.new_fingerprint, ..m };
        lemma_memory_fits(n);
        lemma_parsed::<MemoryMetadata>(n);
    }
}

/// A record of saliences gives each memory that it names, and that is there, the last
/// salience that it has for it. Every other row is as before.
pub proof fn lemma_salience_record(
    db: Db,
    pending: Map<u64, u64>,
    lsn: u64,
    ts: u64,
    p: UpdateSaliencePayload,
    i: int,
    t: Table,
    k: Seq<u8>,
)
    requires
        applied(db, pending, lsn, ts, WalPayload::UpdateSalience(p)) is Ok,
        0 <= i < p.updates@.len(),
        forall|j: int| i < j < p.updates@.len() ==> (#[trigger] p.updates@[j]).memory_id != p.updates@[i].memory_id,
    ensures
        ({
            let d = applied(db, pending, lsn, ts, WalPayload::UpdateSalience(p))->Ok_0;
            let u = p.updates@[i];
            &&& slot::<MemoryMetadata>(d, Table::Memories, u.memory_id.0@) == match slot::<MemoryMetadata>(
                db,
                Table::Memories,
                u.memory_id.0@,
            ) {
                Slot::Row(m) => Slot::Row(MemoryMetadata { salience: u.new_salience, ..m }),
                _ => Slot::Absent,
            }
            &&& !(t is NextLsn) && !(t is Memories && exists|j: int|
                0 <= j < p.updates@.len() && (#[trigger] p.updates@[j]).memory_id.0@ == k) ==> lookup(d, t, k)
                == lookup(db, t, k)
        }),
{
    let u = p.updates@[i];
    lemma_last_salience_stands(db, p.updates@);
    lemma_last_is(p.updates@, i);
    let body = crate::sink::saliences_set(db, p.updates@)->Ok_0;
    assert(lookup(body, t, k) == crate::sink::laws::with_saliences(db, p.updates@, t, k));
    assert(lookup(body, Table::Memories, u.memory_id.0@) == crate::sink::laws::with_saliences(
        db,
        p.updates@,
        Table::Memories,
        u.memory_id.0@,
    ));
    assert(!(slot::<MemoryMetadata>(db, Table::Memories, p.updates@[i].memory_id.0@) is Corrupt));
    if let Slot::Row(m) = slot::<MemoryMetadata>(db, Table::Memories, u.memory_id.0@) {
        let n = MemoryMetadata { salience: u.new_salience, ..m };
        lemma_memory_fits(n);
        lemma_parsed::<MemoryMetadata>(n);
    }
    lemma_last_is_some(p.updates@, k);
}

proof fn lemma_last_is(updates: Seq<crate::wal::SalienceUpdate>, i: int)
    requires
        0 <= i < updates.len(),
        forall|j: int| i < j < updates.len() ==> (#[trigger] updates[j]).memory_id != updates[i].memory_id,
    ensures
        crate::sink::laws::last_salience(updates, updates[i].memory_id.0@) == Some(updates[i].new_salience),
    decreases updates.len(),
{
    if i < updates.len() - 1 {
        let head = updates.drop_last();
        assert(head[i] == updates[i]);
        assert forall|j: int| i < j < head.len() implies (#[trigger] head[j]).memory_id != head[i].memory_id by {
            assert(head[j] == updates[j]);
        }
        lemma_last_is(head, i);
        let last = updates[updates.len() - 1];
        if last.memory_id.0@ == updates[i].memory_id.0@ {
            assert(last.memory_id.0 =~= updates[i].memory_id.0);
        }
    }
}

proof fn lemma_last_is_some(updates: Seq<crate::wal::SalienceUpdate>, k: Seq<u8>)
    ensures
        crate::sink::laws::last_salience(updates, k) is Some ==> exists|j: int|
            0 <= j < updates.len() && (#[trigger] updates[j]).memory_id.0@ == k,
    decreases updates.len(),
{
    if updates.len() > 0 {
        let head = updates.drop_last();
        lemma_last_is_some(head, k);
        if updates.last().memory_id.0@ == k {
            assert(updates[updates.len() - 1].memory_id.0@ == k);
        } else if crate::sink::laws::last_salience(head, k) is Some {
            let j = choose|j: int| 0 <= j < head.len() && (#[trigger] head[j]).memory_id.0@ == k;
            assert(updates[j].memory_id.0@ == k);
        }
    }
}

/// A consolidation leaves a memory of the third kind, half as salient as can be, with
/// the model and text of the record and no agent or context, at the slot and version
/// of its identifier. Every other memory is as before.
pub proof fn lemma_consolidate_record(
    db: Db,
    pending: Map<u64, u64>,
    lsn: u64,
    ts: u64,
    p: ConsolidatePayload,
    t: Table,
    k: Seq<u8>,
)
    requires
        applied(db, pending, lsn, ts, WalPayload::Consolidate(p)) is Ok,
    ensures
        ({
            let d = applied(db, pending, lsn, ts, WalPayload::Consolidate(p))->Ok_0;
            let id = p.new_memory_id.0;
            &&& slot::<MemoryMetadata>(d, Table::Memories, id@) matches Slot::Row(m) && {
                &&& m.memory_id_bytes == id
                &&& m.context_id == 0
                &&& m.slot_id == be_value(id@.subrange(2, 10)) as u64
                &&& m.slot_version == be_value(id@.subrange(10, 14)) as u32
                &&& m.kind == 2
                &&& encode_utf8(p.text@).len() <= 0xffff_ffff ==> m.text_size == encode_utf8(p.text@).len()
                &&& m.created_at_unix_nanos == ts && m.last_accessed_at_unix_nanos == ts
                &&& m.consolidated_at_unix_nanos == Some(ts)
                &&& m.forgot_at_unix_nanos is None && m.tombstoned_at_unix_nanos is None
                &&& m.salience.bits == 0x3f00_0000 && m.salience_initial.bits == 0x3f00_0000
                &&& m.embedding_model_fp == p.embedding_model_fp
                &&& m.access_count == 0 && m.flags == 1
            }
            &&& lookup(d, Table::Texts, id@) == Some(encode_utf8(p.text@))
            &&& lookup(d, Table::SlotVersions, be(be_value(id@.subrange(2, 10)), 8)) == Some(
                be(be_value(id@.subrange(10, 14)), 4),
            )
            &&& !((t is Memories || t is Texts) && k == id@ || t is SlotVersions || t is NextLsn) ==> lookup(d, t, k)
                == lookup(db, t, k)
        }),
{
    let id = p.new_memory_id;
    let m = consolidated_memory(id, p.embedding_model_fp, text_size(p.text@), ts);
    lemma_memory_fits(m);
    lemma_parsed::<MemoryMetadata>(m);
    lemma_pow256_values();
    lemma_value_bounded(id.0@.subrange(2, 10));
    lemma_value_bounded(id.0@.subrange(10, 14));
}

/// The end of a checkpoint leaves its row: with the position and capacity of the
/// record, the time of the record as its end, and the time at which it was seen to
/// begin, or 0 if it was not. The position up to which the log is in the store is then
/// at least that of the record. Beginning a checkpoint notes its time and no row.
pub proof fn lemma_checkpoint_records(
    db: Db,
    pending: Map<u64, u64>,
    lsn: u64,
    ts: u64,
    p: CheckpointEndPayload,
    durable: u64,
    t: Table,
    k: Seq<u8>,
)
    requires
        applied(db, pending, lsn, ts, WalPayload::CheckpointEnd(p)) is Ok,
    ensures
        ({
            let d = applied(db, pending, lsn, ts, WalPayload::CheckpointEnd(p))->Ok_0;
            &&& slot::<CheckpointMeta>(d, Table::Checkpoints, be(p.checkpoint_id as nat, 8)) matches Slot::Row(m) && {
                &&& m.checkpoint_id == p.checkpoint_id
                &&& m.durable_lsn == p.durable_lsn
                &&& m.arena_capacity_at_checkpoint == p.arena_capacity
                &&& m.metadata_version_at_checkpoint == 2
                &&& m.completed_at_unix_nanos == ts
                &&& pending.dom().contains(p.checkpoint_id) ==> m.started_at_unix_nanos == pending[p.checkpoint_id]
                &&& !pending.dom().contains(p.checkpoint_id) ==> m.started_at_unix_nanos == 0
            }
            &&& !(t is Checkpoints && k == be(p.checkpoint_id as nat, 8) || t is NextLsn) ==> lookup(d, t, k)
                == lookup(db, t, k)
            &&& durable_after(durable, WalPayload::CheckpointEnd(p)) >= p.durable_lsn
            &&& durable_after(durable, WalPayload::CheckpointEnd(p)) >= durable
            &&& durable_after(durable, WalPayload::CheckpointEnd(p)) == durable || durable_after(
                durable,
                WalPayload::CheckpointEnd(p),
            ) == p.durable_lsn
            &&& pending_after(pending, WalPayload::CheckpointEnd(p)) == pending.remove(p.checkpoint_id)
        }),
{
    let d = applied(db, pending, lsn, ts, WalPayload::CheckpointEnd(p))->Ok_0;
    let meta = CheckpointMeta {
        checkpoint_id: p.checkpoint_id,
        durable_lsn: p.durable_lsn,
        arena_capacity_at_checkpoint: p.arena_capacity,
        metadata_version_at_checkpoint: 2,
        started_at_unix_nanos: if pending.dom().contains(p.checkpoint_id) {
            pending[p.checkpoint_id]
        } else {
            0
        },
        completed_at_unix_nanos: ts,
    };
    lemma_pow256_values();
    let cells = CheckpointMeta::cells(meta);
    assert forall|i: int| 0 <= i < cells.len() implies cell_fits(#[trigger] cells[i]) by {}
    lemma_parsed::<CheckpointMeta>(meta);
}

/// A checkpoint that begins is noted with its time, and nothing else is; only the end
/// of a checkpoint moves the position up to which the log is in the store.
pub proof fn lemma_checkpoint_begins(
    pending: Map<u64, u64>,
    durable: u64,
    payload: WalPayload,
    begin: crate::wal::CheckpointBeginPayload,
)
    ensures
        pending_after(pending, WalPayload::CheckpointBegin(begin)) == pending.insert(
            begin.checkpoint_id,
            begin.started_at_unix_nanos,
        ),
        !(payload is CheckpointBegin) && !(payload is CheckpointEnd) ==> pending_after(pending, payload) == pending,
        !(payload is CheckpointEnd) ==> durable_after(durable, payload) == durable,
{
}

/// Whatever a record is, the stored position is behind it afterwards, and never goes
/// back.
pub proof fn lemma_position_is_behind(db: Db, pending: Map<u64, u64>, lsn: u64, ts: u64, payload: WalPayload, before: u64)
    requires
        db.rows.dom().finite(),
        applied(db, pending, lsn, ts, payload) is Ok,
        lookup(db, Table::NextLsn, Seq::empty()) == if before == 0 {
            None
        } else {
            Some(be(before as nat, 8))
        },
    ensures
        lookup(applied(db, pending, lsn, ts, payload)->Ok_0, Table::NextLsn, Seq::empty()) == Some(
            be(
                if lsn < before || lsn == 0xffff_ffff_ffff_ffff {
                    if lsn < before {
                        before as nat
                    } else {
                        0xffff_ffff_ffff_ffff
                    }
                } else {
                    (lsn + 1) as nat
                },
                8,
            ),
        ),
{
    lemma_pow256_values();
    lemma_be_len(before as nat, 8);
    lemma_be_value_of_be(before as nat, 8);
    lemma_body_keeps_position(db, pending, lsn, ts, payload);
}

/// The rows before the position is moved.
proof fn lemma_body_keeps_position(db: Db, pending: Map<u64, u64>, lsn: u64, ts: u64, payload: WalPayload)
    requires
        db.rows.dom().finite(),
        applied(db, pending, lsn, ts, payload) is Ok,
    ensures
        exists|body: Db|
            #[trigger] crate::tables::next_lsn::bumped(body, lsn) == applied(db, pending, lsn, ts, payload) && lookup(
                body,
                Table::NextLsn,
                Seq::empty(),
            ) == lookup(db, Table::NextLsn, Seq::empty()),
{
    let key = Seq::<u8>::empty();
    match payload {
        WalPayload::Encode(p) => {
            let body = crate::sink::laws::encoded_body(db, lsn, ts, p);
            let id = p.memory_id;
            let m = active_memory(
                id,
                p.agent_id,
                p.context_id,
                slot_of(id),
                version_of(id),
                p.kind,
                p.embedding_model_fp,
                p.salience_initial,
                text_size(p.text@),
                ts,
            );
            let d1 = with_text(with_memory(db, id, m), id, p.text@);
            let d3 = model_seen(with_entry(d1, p.request_id, 1, id, ts, lsn), p.embedding_model_fp, ts);
            lemma_edges_value(d3, d3, p.edges@, ts, Table::NextLsn, key);
            assert(crate::tables::next_lsn::bumped(body, lsn) == applied(db, pending, lsn, ts, payload));
        },
        WalPayload::Forget(p) => {
            let f = |m: MemoryMetadata|
                MemoryMetadata {
                    flags: m.flags | crate::tables::memory::flags::HARD_FORGOTTEN,
                    forgot_at_unix_nanos: Some(ts),
                    ..m
                };
            let body = with_entry(
                crate::sink::memory_changed(db, p.memory_id, f)->Ok_0,
                p.request_id,
                2,
                p.memory_id,
                ts,
                lsn,
            );
            assert(crate::tables::next_lsn::bumped(body, lsn) == applied(db, pending, lsn, ts, payload));
        },
        WalPayload::Link(p) => {
            let body = memories_linked(db, p.source, p.edge_kind, p.target, p.weight, p.origin, ts);
            assert(crate::tables::next_lsn::bumped(body, lsn) == applied(db, pending, lsn, ts, payload));
        },
        WalPayload::Unlink(p) => {
            let body = unlinked(db, memory_edge_key(p.source, p.edge_kind, p.target));
            assert(crate::tables::next_lsn::bumped(body, lsn) == applied(db, pending, lsn, ts, payload));
        },
        WalPayload::UpdateSalience(p) => {
            let body = crate::sink::saliences_set(db, p.updates@)->Ok_0;
            lemma_last_salience_stands(db, p.updates@);
            assert(lookup(body, Table::NextLsn, key) == crate::sink::laws::with_saliences(
                db,
                p.updates@,
                Table::NextLsn,
                key,
            ));
            assert(crate::tables::next_lsn::bumped(body, lsn) == applied(db, pending, lsn, ts, payload));
        },
        WalPayload::Reclaim(p) => {
            let keys = crate::sink::slot_keys(db, p.slot_id, p.old_version)->Ok_0;
            let dropped = crate::sink::memories_dropped(db, keys);
            crate::sink::laws::lemma_dropped(db, keys, Table::NextLsn, key);
            let body = crate::tables::slot_version::versioned(dropped, p.slot_id, p.new_version);
            assert(crate::tables::next_lsn::bumped(body, lsn) == applied(db, pending, lsn, ts, payload));
        },
        WalPayload::Consolidate(p) => {
            let id = p.new_memory_id;
            let m = consolidated_memory(id, p.embedding_model_fp, text_size(p.text@), ts);
            let body = crate::tables::slot_version::versioned(
                with_text(with_memory(db, id, m), id, p.text@),
                slot_of(id),
                version_of(id),
            );
            assert(crate::tables::next_lsn::bumped(body, lsn) == applied(db, pending, lsn, ts, payload));
        },
        WalPayload::UpdateKind(p) => {
            let f = |m: MemoryMetadata|
                MemoryMetadata { kind: crate::tables::memory::memory_kind_byte(p.new_kind), ..m };
            let body = crate::sink::memory_changed(db, p.memory_id, f)->Ok_0;
            assert(crate::tables::next_lsn::bumped(body, lsn) == applied(db, pending, lsn, ts, payload));
        },
        WalPayload::UpdateContext(p) => {
            let f = |m: MemoryMetadata| MemoryMetadata { context_id: p.new_context_id.0, ..m };
            let body = crate::sink::memory_changed(db, p.memory_id, f)->Ok_0;
            assert(crate::tables::next_lsn::bumped(body, lsn) == applied(db, pending, lsn, ts, payload));
        },
        WalPayload::MigrateEmbedding(p) => {
            let f = |m: MemoryMetadata| MemoryMetadata { embedding_model_fp: p.new_fingerprint, ..m };
            let body = crate::sink::memory_changed(db, p.memory_id, f)->Ok_0;
            assert(crate::tables::next_lsn::bumped(body, lsn) == applied(db, pending, lsn, ts, payload));
        },
        WalPayload::CheckpointEnd(p) => {
            let d = applied(db, pending, lsn, ts, payload)->Ok_0;
            let meta = CheckpointMeta {
                checkpoint_id: p.checkpoint_id,
                durable_lsn: p.durable_lsn,
                arena_capacity_at_checkpoint: p.arena_capacity,
                metadata_version_at_checkpoint: 2,
                started_at_unix_nanos: crate::sink::started_at(pending, p.checkpoint_id),
                completed_at_unix_nanos: ts,
            };
            let body = db.insert(
                (Table::Checkpoints, be(p.checkpoint_id as nat, 8)),
                crate::row::image::<CheckpointMeta>(meta),
            );
            assert(crate::tables::next_lsn::bumped(body, lsn) == applied(db, pending, lsn, ts, payload));
        },
        _ => {
            assert(crate::tables::next_lsn::bumped(db, lsn) == applied(db, pending, lsn, ts, payload));
        },
    }
}

/// The records that begin a checkpoint, or begin, commit or abort a transaction, leave
/// every row but the position as it is.
pub proof fn lemma_idle_records(db: Db, pending: Map<u64, u64>, lsn: u64, ts: u64, payload: WalPayload, t: Table, k: Seq<u8>)
    requires
        applied(db, pending, lsn, ts, payload) is Ok,
        payload is CheckpointBegin || payload is TxnBegin || payload is TxnCommit || payload is TxnAbort,
        !(t is NextLsn),
    ensures
        lookup(applied(db, pending, lsn, ts, payload)->Ok_0, t, k) == lookup(db, t, k),
{
}

/// Reclaiming a slot drops the memories of its old version with their texts, and gives
/// the slot its new version. Every other row but the position is as it was.
pub proof fn lemma_reclaim_record(
    db: Db,
    pending: Map<u64, u64>,
    lsn: u64,
    ts: u64,
    p: ReclaimPayload,
    t: Table,
    k: Seq<u8>,
)
    requires
        db.rows.dom().finite(),
        applied(db, pending, lsn, ts, WalPayload::Reclaim(p)) is Ok,
        !(t is NextLsn),
    ensures
        lookup(applied(db, pending, lsn, ts, WalPayload::Reclaim(p))->Ok_0, t, k) == if (t is Memories || t is Texts) && (
        slot::<MemoryMetadata>(db, Table::Memories, k) matches Slot::Row(m) && m.slot_id == p.slot_id && m.slot_version
            == p.old_version) {
            None
        } else if t is SlotVersions && k == be(p.slot_id as nat, 8) {
            Some(be(p.new_version as nat, 4))
        } else {
            lookup(db, t, k)
        },
{
    lemma_reclaimed(db, lsn, p, k);
    let keys = crate::sink::slot_keys(db, p.slot_id, p.old_version)->Ok_0;
    crate::sink::laws::lemma_dropped(db, keys, t, k);
}

} // verus!
