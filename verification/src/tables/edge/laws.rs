//! What holds of edges: the order of their keys, and what walks find.

use vstd::prelude::*;

use crate::bytes::{be, lemma_be_len, lemma_be_of_be_value, lemma_be_order, lemma_lex_join, lemma_pow256_values};
use crate::catalog::Table;
use crate::collect::lemma_collect_members;
use crate::order::{has_prefix, lemma_lex_irreflexive, lex_lt};
use crate::row::{fits, image, lemma_parsed, slot, Slot};
use crate::store::{lemma_scan_exists, lookup, scan, Db};
use crate::tables::edge::{
    builtin_filter, decoded_key, edge_at, kind_at, lemma_key_injective, lemma_key_round_trip, lemma_link_is_found, linked,
    memory_edges, memory_walk, node_at, unlinked, walk, walk_prefix, walked_edge, EdgeData, EdgeDataModel, EdgeKey,
    EdgeKind, EdgeKindRef, EdgeOpError, EdgeRowModel, NodeRef,
};
use crate::types::MemoryId;

verus! {

/// Memories come before entities, and each by the bytes of their identifiers.
pub open spec fn node_before(a: NodeRef, b: NodeRef) -> bool {
    a.tag() < b.tag() || (a.tag() == b.tag() && lex_lt(a.id()@, b.id()@))
}

/// Builtin kinds come first, then mentions, then relation types by number.
pub open spec fn kind_before(a: EdgeKindRef, b: EdgeKindRef) -> bool {
    match (a, b) {
        (EdgeKindRef::Builtin(x), EdgeKindRef::Builtin(y)) => x.byte() < y.byte(),
        (EdgeKindRef::Builtin(_), _) => true,
        (EdgeKindRef::Mentions, EdgeKindRef::Typed(_)) => true,
        (EdgeKindRef::Typed(x), EdgeKindRef::Typed(y)) => x.0 < y.0,
        _ => false,
    }
}

/// Keys go by source, then label, then target, then disambiguator.
pub open spec fn key_before(a: EdgeKey, b: EdgeKey) -> bool {
    ||| node_before(a.from, b.from)
    ||| a.from == b.from && kind_before(a.kind, b.kind)
    ||| a.from == b.from && a.kind == b.kind && node_before(a.to, b.to)
    ||| a.from == b.from && a.kind == b.kind && a.to == b.to && lex_lt(a.disambiguator@, b.disambiguator@)
}

proof fn lemma_node_order(a: NodeRef, b: NodeRef)
    ensures
        lex_lt(a.image(), b.image()) <==> node_before(a, b),
        a.image() == b.image() ==> a == b,
{
    assert(a.image()[0] == a.tag() && b.image()[0] == b.tag());
    assert(a.image().skip(1) =~= a.id()@);
    assert(b.image().skip(1) =~= b.id()@);
    if a.image() == b.image() {
        assert(a.id() =~= b.id());
    }
}

/// The bytes of labels, each followed by something, are ordered by the labels
/// first.
proof fn lemma_kind_order(a: EdgeKindRef, b: EdgeKindRef, s: Seq<u8>, t: Seq<u8>)
    ensures
        lex_lt(a.image() + s, b.image() + t) <==> kind_before(a, b) || (a == b && lex_lt(s, t)),
{
    lemma_pow256_values();
    reveal_with_fuel(lex_lt, 3);
    if let EdgeKindRef::Typed(x) = a {
        lemma_be_len(x.0 as nat, 4);
    }
    if let EdgeKindRef::Typed(y) = b {
        lemma_be_len(y.0 as nat, 4);
    }
    let l = a.image() + s;
    let r = b.image() + t;
    assert(l[0] == a.image()[0]);
    assert(r[0] == b.image()[0]);
    match (a, b) {
        (EdgeKindRef::Builtin(x), EdgeKindRef::Builtin(y)) => {
            lemma_lex_join(a.image(), b.image(), s, t);
            assert(a.image().skip(1) =~= seq![x.byte()]);
            assert(b.image().skip(1) =~= seq![y.byte()]);
            assert(a.image().skip(1)[0] == x.byte() && b.image().skip(1)[0] == y.byte());
            assert(a.image().skip(1).skip(1) =~= Seq::<u8>::empty());
            assert(b.image().skip(1).skip(1) =~= Seq::<u8>::empty());
            if a.image() == b.image() {
                assert(a.image()[1] == b.image()[1]);
            }
        },
        (EdgeKindRef::Mentions, EdgeKindRef::Mentions) => {
            lemma_lex_join(a.image(), b.image(), s, t);
            assert(a.image().skip(1) =~= Seq::<u8>::empty());
        },
        (EdgeKindRef::Typed(x), EdgeKindRef::Typed(y)) => {
            lemma_lex_join(a.image(), b.image(), s, t);
            assert(a.image().skip(1) =~= be(x.0 as nat, 4));
            assert(b.image().skip(1) =~= be(y.0 as nat, 4));
            lemma_be_order(x.0 as nat, y.0 as nat, 4);
            lemma_be_order(y.0 as nat, x.0 as nat, 4);
            if a.image() == b.image() {
                lemma_lex_irreflexive(be(x.0 as nat, 4));
            }
        },
        _ => {},
    }
}

/// The bytes of keys are in the order of the keys, so a walk by bytes meets edges
/// in the order of label, other end and disambiguator.
pub proof fn lemma_keys_in_order(a: EdgeKey, b: EdgeKey)
    ensures
        lex_lt(a.image(), b.image()) <==> key_before(a, b),
{
    let a3 = a.to.image() + a.disambiguator@;
    let b3 = b.to.image() + b.disambiguator@;
    let a2 = a.kind.image() + a3;
    let b2 = b.kind.image() + b3;
    assert(a.image() =~= a.from.image() + a2);
    assert(b.image() =~= b.from.image() + b2);
    lemma_lex_join(a.from.image(), b.from.image(), a2, b2);
    lemma_node_order(a.from, b.from);
    lemma_kind_order(a.kind, b.kind, a3, b3);
    lemma_lex_join(a.to.image(), b.to.image(), a.disambiguator@, b.disambiguator@);
    lemma_node_order(a.to, b.to);
}

/// A walk meets every edge that is stored at its node.
pub proof fn lemma_walk_meets(db: Db, t: Table, k: EdgeKey, m: EdgeDataModel, kind_filter: Option<EdgeKindRef>)
    requires
        db.rows.dom().finite(),
        fits::<EdgeData>(m),
        lookup(db, t, k.image()) == Some(image::<EdgeData>(m)),
        kind_filter is None || kind_filter == Some(k.kind),
        walk(db, t, k.from, kind_filter) is Ok,
    ensures
        walk(db, t, k.from, kind_filter)->Ok_0.contains((k.kind, k.to, k.disambiguator, m)),
{
    let prefix = walk_prefix(k.from, kind_filter);
    let entries = scan(db, t, prefix);
    let f = |kv: (Seq<u8>, Seq<u8>)| walked_edge(k.from, kind_filter, kv);
    lemma_scan_exists(db, t, prefix);
    assert(has_prefix(k.image(), prefix)) by {
        assert(k.image().take(prefix.len() as int) =~= prefix);
    }
    assert(db.dom().contains((t, k.image())));
    let i = choose|i: int| 0 <= i < entries.len() && (#[trigger] entries[i]).0 == k.image();
    assert(lookup(db, t, entries[i].0) == Some(entries[i].1));
    lemma_key_round_trip(k);
    lemma_parsed::<EdgeData>(m);
    lemma_collect_members(entries, f, (k.kind, k.to, k.disambiguator, m));
    assert(f(entries[i]) == Ok::<_, EdgeOpError>(Some((k.kind, k.to, k.disambiguator, m))));
}

/// After linking, a walk from the source meets the edge, and a walk to the target
/// meets it with the source as its other end.
pub proof fn lemma_link_is_walked(db: Db, k: EdgeKey, m: EdgeDataModel, kind_filter: Option<EdgeKindRef>)
    requires
        db.rows.dom().finite(),
        fits::<EdgeData>(m),
        kind_filter is None || kind_filter == Some(k.kind),
    ensures
        walk(linked(db, k, image::<EdgeData>(m)), Table::Edges, k.from, kind_filter) matches Ok(rows) ==> rows.contains(
            (k.kind, k.to, k.disambiguator, m),
        ),
        walk(linked(db, k, image::<EdgeData>(m)), Table::EdgesReverse, k.to, kind_filter) matches Ok(rows)
            ==> rows.contains((k.kind, k.from, k.disambiguator, m)),
{
    let d = linked(db, k, image::<EdgeData>(m));
    lemma_link_is_found(db, k, image::<EdgeData>(m));
    if walk(d, Table::Edges, k.from, kind_filter) is Ok {
        lemma_walk_meets(d, Table::Edges, k, m, kind_filter);
    }
    if walk(d, Table::EdgesReverse, k.to, kind_filter) is Ok {
        lemma_walk_meets(d, Table::EdgesReverse, k.flipped(), m, kind_filter);
    }
}

proof fn lemma_some_id(b: Seq<u8>)
    requires
        b.len() == 16,
    ensures
        exists|a: [u8; 16]| #[trigger] a@ == b,
{
    let a: [u8; 16] = [
        b[0], b[1], b[2], b[3], b[4], b[5], b[6], b[7], b[8], b[9], b[10], b[11], b[12], b[13], b[14], b[15],
    ];
    assert(a@ =~= b);
}

proof fn lemma_node_at(b: Seq<u8>, at: int)
    requires
        0 <= at,
        at + 17 <= b.len(),
        node_at(b, at) is Ok,
    ensures
        node_at(b, at)->Ok_0.image() == b.subrange(at, at + 17),
{
    lemma_some_id(b.subrange(at + 1, at + 17));
    assert(node_at(b, at)->Ok_0.image() =~= b.subrange(at, at + 17));
}

/// Bytes that are read as a key are the bytes of that key.
pub proof fn lemma_decoded_key(b: Seq<u8>)
    requires
        decoded_key(b) is Ok,
    ensures
        decoded_key(b)->Ok_0.image() == b,
{
    let k = decoded_key(b)->Ok_0;
    let n = kind_at(b, 17)->Ok_0.1;
    let at = 17 + n;
    lemma_node_at(b, 0);
    lemma_node_at(b, at);
    lemma_some_id(b.subrange(at + 17, at + 33));
    if let EdgeKindRef::Typed(t) = k.kind {
        lemma_pow256_values();
        lemma_be_of_be_value(b.subrange(18, 22));
    }
    assert(k.kind.image() =~= b.subrange(17, at));
    assert(k.image() =~= b.subrange(0, 17) + b.subrange(17, at) + b.subrange(at, at + 17) + b.subrange(at + 17, at + 33));
    assert(k.image() =~= b);
}

/// A walk meets edges of its node alone, with the label that was asked for, as they
/// are stored.
pub proof fn lemma_walked_is_stored(
    db: Db,
    t: Table,
    anchor: NodeRef,
    kind_filter: Option<EdgeKindRef>,
    kind: EdgeKindRef,
    to: NodeRef,
    disambiguator: [u8; 16],
    m: EdgeDataModel,
)
    requires
        db.rows.dom().finite(),
        walk(db, t, anchor, kind_filter) is Ok,
        walk(db, t, anchor, kind_filter)->Ok_0.contains((kind, to, disambiguator, m)),
    ensures
        slot::<EdgeData>(db, t, (EdgeKey { from: anchor, kind, to, disambiguator }).image()) == Slot::Row(m),
        kind_filter is None || kind_filter == Some(kind),
{
    let prefix = walk_prefix(anchor, kind_filter);
    let entries = scan(db, t, prefix);
    let f = |kv: (Seq<u8>, Seq<u8>)| walked_edge(anchor, kind_filter, kv);
    lemma_scan_exists(db, t, prefix);
    lemma_collect_members(entries, f, (kind, to, disambiguator, m));
    let i = choose|i: int|
        0 <= i < entries.len() && f(#[trigger] entries[i]) == Ok::<_, EdgeOpError>(Some((kind, to, disambiguator, m)));
    assert(lookup(db, t, entries[i].0) == Some(entries[i].1));
    lemma_decoded_key(entries[i].0);
    let k = decoded_key(entries[i].0)->Ok_0;
    assert(k == (EdgeKey { from: anchor, kind, to, disambiguator }));
}

proof fn lemma_memory_edges(rows: Seq<EdgeRowModel>, kind: EdgeKind, to: MemoryId, m: EdgeDataModel)
    ensures
        memory_edges(rows).contains((kind, to, m)) <==> exists|d: [u8; 16]| #[trigger]
            rows.contains((EdgeKindRef::Builtin(kind), NodeRef::Memory(to), d, m)),
    decreases rows.len(),
{
    if rows.len() > 0 {
        let head = rows.drop_last();
        let last = rows.last();
        let before = memory_edges(head);
        let all = memory_edges(rows);
        lemma_memory_edges(head, kind, to, m);
        assert(rows =~= head.push(last));
        if all.contains((kind, to, m)) {
            let i = all.index_of((kind, to, m));
            if i < before.len() {
                assert(before[i] == (kind, to, m));
                let d = choose|d: [u8; 16]| #[trigger]
                    head.contains((EdgeKindRef::Builtin(kind), NodeRef::Memory(to), d, m));
                let j = head.index_of((EdgeKindRef::Builtin(kind), NodeRef::Memory(to), d, m));
                assert(rows[j] == head[j]);
                assert(rows.contains((EdgeKindRef::Builtin(kind), NodeRef::Memory(to), d, m)));
            } else {
                assert(rows[rows.len() - 1] == last);
                assert(rows.contains((EdgeKindRef::Builtin(kind), NodeRef::Memory(to), last.2, m)));
            }
        }
        if exists|d: [u8; 16]| #[trigger] rows.contains((EdgeKindRef::Builtin(kind), NodeRef::Memory(to), d, m)) {
            let d = choose|d: [u8; 16]| #[trigger]
                rows.contains((EdgeKindRef::Builtin(kind), NodeRef::Memory(to), d, m));
            let row = (EdgeKindRef::Builtin(kind), NodeRef::Memory(to), d, m);
            let j = rows.index_of(row);
            if j < head.len() {
                assert(head[j] == row);
                assert(head.contains(row));
                let i = before.index_of((kind, to, m));
                assert(all[i] == (kind, to, m));
            } else {
                assert(all[before.len() as int] == (kind, to, m));
            }
        }
    }
}

/// The list of the edges between memories at a memory holds an edge exactly if one of
/// that builtin kind, other end and data is stored at the memory in the table, and the
/// kind is the one that was asked for.
pub proof fn lemma_memory_walk(
    db: Db,
    t: Table,
    anchor: MemoryId,
    asked: Option<EdgeKind>,
    kind: EdgeKind,
    to: MemoryId,
    m: EdgeDataModel,
)
    requires
        db.rows.dom().finite(),
        memory_walk(db, t, anchor, asked) is Ok,
    ensures
        memory_walk(db, t, anchor, asked)->Ok_0.contains((kind, to, m)) <==> (asked is None || asked == Some(kind))
            && exists|d: [u8; 16]| #[trigger]
            slot::<EdgeData>(
                db,
                t,
                (EdgeKey {
                    from: NodeRef::Memory(anchor),
                    kind: EdgeKindRef::Builtin(kind),
                    to: NodeRef::Memory(to),
                    disambiguator: d,
                }).image(),
            ) == Slot::Row(m),
{
    let from = NodeRef::Memory(anchor);
    let label = EdgeKindRef::Builtin(kind);
    let filter = builtin_filter(asked);
    let rows = walk(db, t, from, filter)->Ok_0;
    lemma_memory_edges(rows, kind, to, m);
    if memory_edges(rows).contains((kind, to, m)) {
        let d = choose|d: [u8; 16]| #[trigger] rows.contains((label, NodeRef::Memory(to), d, m));
        lemma_walked_is_stored(db, t, from, filter, label, NodeRef::Memory(to), d, m);
    }
    if (asked is None || asked == Some(kind)) && exists|d: [u8; 16]| #[trigger]
        slot::<EdgeData>(
            db,
            t,
            (EdgeKey { from, kind: label, to: NodeRef::Memory(to), disambiguator: d }).image(),
        ) == Slot::Row(m) {
        let d = choose|d: [u8; 16]| #[trigger]
            slot::<EdgeData>(
                db,
                t,
                (EdgeKey { from, kind: label, to: NodeRef::Memory(to), disambiguator: d }).image(),
            ) == Slot::Row(m);
        let k = EdgeKey { from, kind: label, to: NodeRef::Memory(to), disambiguator: d };
        lemma_walk_meets(db, t, k, m, filter);
        assert(rows.contains((label, NodeRef::Memory(to), d, m)));
    }
}

/// An edge of similarity or contradiction holds both ways; no other does.
pub open spec fn holds_both_ways(kind: EdgeKindRef) -> bool {
    kind == EdgeKindRef::Builtin(EdgeKind::SimilarTo) || kind == EdgeKindRef::Builtin(EdgeKind::Contradicts)
}

/// Linking stores the edge from its source and under its target, and one that holds
/// both ways also the other way round. Every other edge, and every other table, is as
/// before.
pub proof fn lemma_linked(db: Db, k: EdgeKey, value: Seq<u8>, other: EdgeKey, t: Table, x: Seq<u8>)
    ensures
        ({
            let after = linked(db, k, value);
            let back = EdgeKey { from: k.to, kind: k.kind, to: k.from, disambiguator: k.disambiguator };
            let touched = other == k || holds_both_ways(k.kind) && other == back;
            let turned = EdgeKey {
                from: other.to,
                kind: other.kind,
                to: other.from,
                disambiguator: other.disambiguator,
            };
            &&& lookup(after, Table::Edges, other.image()) == if touched {
                Some(value)
            } else {
                lookup(db, Table::Edges, other.image())
            }
            &&& lookup(after, Table::EdgesReverse, turned.image()) == if touched {
                Some(value)
            } else {
                lookup(db, Table::EdgesReverse, turned.image())
            }
            &&& !(t is Edges || t is EdgesReverse) ==> lookup(after, t, x) == lookup(db, t, x)
        }),
{
    let back = EdgeKey { from: k.to, kind: k.kind, to: k.from, disambiguator: k.disambiguator };
    let turned = EdgeKey { from: other.to, kind: other.kind, to: other.from, disambiguator: other.disambiguator };
    lemma_images_differ(other, k);
    lemma_images_differ(other, back);
    lemma_images_differ(turned, k);
    lemma_images_differ(turned, back);
}

proof fn lemma_images_differ(a: EdgeKey, b: EdgeKey)
    ensures
        a.image() == b.image() <==> a == b,
{
    if a.image() == b.image() {
        lemma_key_injective(a, b);
    }
}

/// Unlinking removes the edge from its source and under its target, and one that holds
/// both ways also the other way round. Every other edge, and every other table, is as
/// before.
pub proof fn lemma_unlinked(db: Db, k: EdgeKey, other: EdgeKey, t: Table, x: Seq<u8>)
    ensures
        ({
            let after = unlinked(db, k);
            let back = EdgeKey { from: k.to, kind: k.kind, to: k.from, disambiguator: k.disambiguator };
            let touched = other == k || holds_both_ways(k.kind) && other == back;
            let turned = EdgeKey {
                from: other.to,
                kind: other.kind,
                to: other.from,
                disambiguator: other.disambiguator,
            };
            &&& lookup(after, Table::Edges, other.image()) == if touched {
                None
            } else {
                lookup(db, Table::Edges, other.image())
            }
            &&& lookup(after, Table::EdgesReverse, turned.image()) == if touched {
                None
            } else {
                lookup(db, Table::EdgesReverse, turned.image())
            }
            &&& !(t is Edges || t is EdgesReverse) ==> lookup(after, t, x) == lookup(db, t, x)
        }),
{
    let back = EdgeKey { from: k.to, kind: k.kind, to: k.from, disambiguator: k.disambiguator };
    let turned = EdgeKey { from: other.to, kind: other.kind, to: other.from, disambiguator: other.disambiguator };
    lemma_images_differ(other, k);
    lemma_images_differ(other, back);
    lemma_images_differ(turned, k);
    lemma_images_differ(turned, back);
}

/// The data of an edge is what is stored under its source, label, target and
/// disambiguator: what was linked is read back, and what was unlinked is not there.
pub proof fn lemma_edge_is_read_back(db: Db, k: EdgeKey, m: EdgeDataModel)
    requires
        fits::<EdgeData>(m),
    ensures
        edge_at(linked(db, k, image::<EdgeData>(m)), k) == Ok::<_, EdgeOpError>(Some(m)),
        edge_at(unlinked(db, k), k) == Ok::<_, EdgeOpError>(None::<EdgeDataModel>),
        slot::<EdgeData>(db, Table::Edges, k.image()) is Corrupt ==> edge_at(db, k) == Err::<
            Option<EdgeDataModel>,
            _,
        >(EdgeOpError::Corrupt),
{
    lemma_linked(db, k, image::<EdgeData>(m), k, Table::Edges, k.image());
    lemma_unlinked(db, k, k, Table::Edges, k.image());
    lemma_parsed::<EdgeData>(m);
}

} // verus!
