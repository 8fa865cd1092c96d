//! Edges between memories and entities.
//!
//! Each edge is stored twice: under its source in `edges_v2`, and under its
//! target in `edges_reverse_v2`. A symmetric builtin edge between two nodes is
//! stored in both directions.

use redb::{ReadTransaction, WriteTransaction};
use vstd::prelude::*;

use crate::bytes::{
    be, be_value, get_array, get_be, lemma_be_len, lemma_be_value_of_be, lemma_pow256_values, put_be, put_bytes,
};
use crate::catalog::Table;
use crate::cells::{cell_models, Cell};
use crate::collect::{collect, lemma_collect_fails, lemma_collect_step};
use crate::row::{
    from_bytes, group_row_fields, image, int_at, int_cell, lemma_opt_text_injective, load_at, opt_text, opt_text_at,
    opt_text_cell, opt_view, parsed, save, slot, u32_at, u8_at, CellModel, LoadError, Row, Slot,
};
use crate::store::{
    del, entry_models, lookup, opened, put, rdb, read_prefix, scan, scanned, tables_kept, wdb, Db, Entry,
};
use crate::types::{id_eq, EntityId, MemoryId, RelationTypeId, F32};

pub mod derived_by;
pub mod laws;
pub mod origin;

verus! {

/// What is stored of an edge, in both tables.
#[derive(Clone, Debug, PartialEq)]
pub struct EdgeData<T = String> {
    pub weight: F32,
    /// A constant of [`origin`].
    pub origin: u8,
    /// A constant of [`derived_by`].
    pub derived_by: u8,
    pub created_at_unix_nanos: u64,
    pub annotation: Option<T>,
}

impl Row for EdgeData {
    type M = EdgeData<Seq<char>>;

    open spec fn model(&self) -> EdgeData<Seq<char>> {
        EdgeData {
            weight: self.weight,
            origin: self.origin,
            derived_by: self.derived_by,
            created_at_unix_nanos: self.created_at_unix_nanos,
            annotation: opt_view(self.annotation),
        }
    }

    open spec fn cells(m: EdgeData<Seq<char>>) -> Seq<CellModel> {
        seq![
            Cell::Int(m.weight.bits as u64),
            Cell::Int(m.origin as u64),
            Cell::Int(m.derived_by as u64),
            Cell::Int(m.created_at_unix_nanos),
            opt_text(m.annotation),
        ]
    }

    proof fn cells_injective(a: EdgeData<Seq<char>>, b: EdgeData<Seq<char>>) {
        broadcast use group_row_fields;

        let x = Self::cells(a);
        let y = Self::cells(b);
        assert(x[0] == y[0]
            && x[1] == y[1]
            && x[2] == y[2]
            && x[3] == y[3]
            && x[4] == y[4]);
        lemma_opt_text_injective(a.annotation, b.annotation);
    }

    fn to_cells(&self) -> (r: Vec<Cell<Vec<u8>>>) {
        let cells: Vec<Cell<Vec<u8>>> = vec![
            int_cell(self.weight.bits as u64),
            int_cell(self.origin as u64),
            int_cell(self.derived_by as u64),
            int_cell(self.created_at_unix_nanos),
            opt_text_cell(&self.annotation),
        ];
        proof {
            assert(cell_models(cells@) =~= Self::cells(self.model()));
        }
        cells
    }

    fn from_cells(cells: &Vec<Cell<Vec<u8>>>) -> (r: Option<Self>) {
        if cells.len() != 5 {
            proof {
                assert forall|m: EdgeData<Seq<char>>| #[trigger] Self::cells(m) != cell_models(cells@) by {
                    assert(Self::cells(m).len() == 5);
                }
            }
            return None;
        }
        let weight = match u32_at(cells, 0) {
            Some(x) => F32 { bits: x },
            None => return None,
        };
        let origin = match u8_at(cells, 1) {
            Some(x) => x,
            None => return None,
        };
        let derived_by = match u8_at(cells, 2) {
            Some(x) => x,
            None => return None,
        };
        let created_at_unix_nanos = match int_at(cells, 3) {
            Some(x) => x,
            None => return None,
        };
        let annotation = match opt_text_at(cells, 4) {
            Some(x) => x,
            None => return None,
        };
        let row = EdgeData {
            weight,
            origin,
            derived_by,
            created_at_unix_nanos,
            annotation,
        };
        proof {
            assert(Self::cells(row.model()) =~= cell_models(cells@));
        }
        Some(row)
    }
}

/// Edge data as it is spoken of.
pub type EdgeDataModel = EdgeData<Seq<char>>;

impl EdgeData {
    /// Edge data without an annotation.
    #[must_use]
    pub fn new(weight: F32, origin: u8, derived_by: u8, created_at_unix_nanos: u64) -> (r: Self)
        ensures
            r.model() == (EdgeDataModel { weight, origin, derived_by, created_at_unix_nanos, annotation: None }),
    {
        EdgeData { weight, origin, derived_by, created_at_unix_nanos, annotation: None }
    }

    /// A copy of the data.
    pub fn copy(&self) -> (r: Self)
        ensures
            r.model() == self.model(),
    {
        EdgeData {
            weight: self.weight,
            origin: self.origin,
            derived_by: self.derived_by,
            created_at_unix_nanos: self.created_at_unix_nanos,
            annotation: match &self.annotation {
                Some(s) => Some(s.as_str().to_owned()),
                None => None,
            },
        }
    }
}

/// A node of the graph.
#[derive(Clone, Copy, Debug, PartialEq, Eq)]
pub enum NodeRef {
    Memory(MemoryId),
    Entity(EntityId),
}

impl NodeRef {
    pub open spec fn tag(self) -> u8 {
        match self {
            NodeRef::Memory(_) => 0,
            NodeRef::Entity(_) => 1,
        }
    }

    pub open spec fn id(self) -> [u8; 16] {
        match self {
            NodeRef::Memory(m) => m.0,
            NodeRef::Entity(e) => e.0,
        }
    }

    /// The tag, then the identifier.
    pub open spec fn image(self) -> Seq<u8> {
        seq![self.tag()] + self.id()@
    }

    pub fn put(&self, out: &mut Vec<u8>)
        ensures
            final(out)@ == old(out)@ + self.image(),
    {
        match self {
            NodeRef::Memory(m) => {
                out.push(0);
                put_bytes(out, m.0.as_slice());
            },
            NodeRef::Entity(e) => {
                out.push(1);
                put_bytes(out, e.0.as_slice());
            },
        }
        proof {
            assert(out@ =~= old(out)@ + self.image());
        }
    }

    /// The 17 bytes of the node.
    #[must_use]
    pub fn to_bytes(&self) -> (r: [u8; 17])
        ensures
            r@ == self.image(),
    {
        let mut out: Vec<u8> = Vec::new();
        self.put(&mut out);
        proof {
            assert(out@ =~= self.image());
        }
        let r = get_array::<17>(out.as_slice(), 0);
        proof {
            assert(r@ =~= self.image());
        }
        r
    }

    /// Whether two nodes are the same.
    pub fn same(&self, other: &NodeRef) -> (r: bool)
        ensures
            r == (*self == *other),
    {
        match (self, other) {
            (NodeRef::Memory(a), NodeRef::Memory(b)) => id_eq(&a.0, &b.0),
            (NodeRef::Entity(a), NodeRef::Entity(b)) => id_eq(&a.0, &b.0),
            _ => false,
        }
    }
}

/// Why bytes are no node.
#[derive(Clone, Copy, Debug, PartialEq, Eq, Structural)]
pub enum NodeRefError {
    UnknownTag(u8),
}

/// The node that begins at `at`. There must be 17 bytes.
pub open spec fn node_at(b: Seq<u8>, at: int) -> Result<NodeRef, NodeRefError> {
    let id = choose|id: [u8; 16]| id@ == b.subrange(at + 1, at + 17);
    if b[at] == 0 {
        Ok(NodeRef::Memory(MemoryId(id)))
    } else if b[at] == 1 {
        Ok(NodeRef::Entity(EntityId(id)))
    } else {
        Err(NodeRefError::UnknownTag(b[at]))
    }
}

fn read_node(b: &[u8], at: usize) -> (r: Result<NodeRef, NodeRefError>)
    requires
        at + 17 <= b@.len(),
    ensures
        r == node_at(b@, at as int),
        r matches Ok(n) ==> n.image() == b@.subrange(at as int, at + 17),
{
    let end: usize = b.len();
    let tag: u8 = b[at];
    let id = get_array::<16>(b, at + 1);
    proof {
        let x = choose|x: [u8; 16]| x@ == b@.subrange(at + 1, at + 17);
        assert(x =~= id);
        assert(b@.subrange(at as int, at + 17) =~= seq![tag] + id@);
    }
    match tag {
        0 => Ok(NodeRef::Memory(MemoryId(id))),
        1 => Ok(NodeRef::Entity(EntityId(id))),
        x => Err(NodeRefError::UnknownTag(x)),
    }
}

/// The builtin kinds of edges between memories.
#[derive(Clone, Copy, Debug, PartialEq, Eq, Structural)]
pub enum EdgeKind {
    Caused,
    FollowedBy,
    DerivedFrom,
    SimilarTo,
    Contradicts,
    Supports,
    References,
    PartOf,
}

impl EdgeKind {
    pub open spec fn byte(self) -> u8 {
        match self {
            EdgeKind::Caused => 0,
            EdgeKind::FollowedBy => 1,
            EdgeKind::DerivedFrom => 2,
            EdgeKind::SimilarTo => 3,
            EdgeKind::Contradicts => 4,
            EdgeKind::Supports => 5,
            EdgeKind::References => 6,
            EdgeKind::PartOf => 7,
        }
    }

    pub open spec fn of_byte(b: u8) -> Option<EdgeKind> {
        if b == 0 {
            Some(EdgeKind::Caused)
        } else if b == 1 {
            Some(EdgeKind::FollowedBy)
        } else if b == 2 {
            Some(EdgeKind::DerivedFrom)
        } else if b == 3 {
            Some(EdgeKind::SimilarTo)
        } else if b == 4 {
            Some(EdgeKind::Contradicts)
        } else if b == 5 {
            Some(EdgeKind::Supports)
        } else if b == 6 {
            Some(EdgeKind::References)
        } else if b == 7 {
            Some(EdgeKind::PartOf)
        } else {
            None
        }
    }

    #[must_use]
    pub fn as_u8(self) -> (r: u8)
        ensures
            r == self.byte(),
    {
        match self {
            EdgeKind::Caused => 0,
            EdgeKind::FollowedBy => 1,
            EdgeKind::DerivedFrom => 2,
            EdgeKind::SimilarTo => 3,
            EdgeKind::Contradicts => 4,
            EdgeKind::Supports => 5,
            EdgeKind::References => 6,
            EdgeKind::PartOf => 7,
        }
    }

    #[must_use]
    pub fn from_u8(b: u8) -> (r: Option<EdgeKind>)
        ensures
            r == EdgeKind::of_byte(b),
    {
        match b {
            0 => Some(EdgeKind::Caused),
            1 => Some(EdgeKind::FollowedBy),
            2 => Some(EdgeKind::DerivedFrom),
            3 => Some(EdgeKind::SimilarTo),
            4 => Some(EdgeKind::Contradicts),
            5 => Some(EdgeKind::Supports),
            6 => Some(EdgeKind::References),
            7 => Some(EdgeKind::PartOf),
            _ => None,
        }
    }

    /// A relation that holds in both directions if it holds in one.
    pub open spec fn symmetric(self) -> bool {
        self == EdgeKind::SimilarTo || self == EdgeKind::Contradicts
    }

    #[must_use]
    pub fn is_symmetric(self) -> (r: bool)
        ensures
            r == self.symmetric(),
    {
        self == EdgeKind::SimilarTo || self == EdgeKind::Contradicts
    }
}

/// The label of an edge.
#[derive(Clone, Copy, Debug, PartialEq, Eq, Structural)]
pub enum EdgeKindRef {
    Builtin(EdgeKind),
    /// A memory mentions an entity.
    Mentions,
    /// A declared relation type.
    Typed(RelationTypeId),
}

/// Why bytes are no label.
#[derive(Clone, Copy, Debug, PartialEq, Eq, Structural)]
pub enum EdgeKindRefError {
    Short,
    UnknownTag(u8),
    UnknownBuiltin(u8),
}

impl EdgeKindRef {
    /// A tag, then the builtin kind or the relation type.
    pub open spec fn image(self) -> Seq<u8> {
        match self {
            EdgeKindRef::Builtin(k) => seq![0u8, k.byte()],
            EdgeKindRef::Mentions => seq![1u8],
            EdgeKindRef::Typed(t) => seq![2u8] + be(t.0 as nat, 4),
        }
    }

    /// The number of bytes of the label.
    #[must_use]
    pub fn encoded_len(&self) -> (r: usize)
        ensures
            r == self.image().len(),
            1 <= r <= 5,
    {
        proof {
            if let EdgeKindRef::Typed(t) = *self {
                lemma_be_len(t.0 as nat, 4);
            }
        }
        match self {
            EdgeKindRef::Builtin(_) => 2,
            EdgeKindRef::Mentions => 1,
            EdgeKindRef::Typed(_) => 5,
        }
    }

    pub fn encode_into(&self, out: &mut Vec<u8>)
        ensures
            final(out)@ == old(out)@ + self.image(),
    {
        match self {
            EdgeKindRef::Builtin(k) => {
                out.push(0);
                out.push(k.as_u8());
            },
            EdgeKindRef::Mentions => {
                out.push(1);
            },
            EdgeKindRef::Typed(t) => {
                out.push(2);
                put_be(out, t.0 as u64, 4);
            },
        }
        proof {
            assert(out@ =~= old(out)@ + self.image());
        }
    }
}

/// The label that begins at `at`, and its length.
pub open spec fn kind_at(b: Seq<u8>, at: int) -> Result<(EdgeKindRef, int), EdgeKindRefError> {
    if at >= b.len() {
        Err(EdgeKindRefError::Short)
    } else if b[at] == 0 {
        if at + 2 > b.len() {
            Err(EdgeKindRefError::Short)
        } else {
            match EdgeKind::of_byte(b[at + 1]) {
                Some(k) => Ok((EdgeKindRef::Builtin(k), 2)),
                None => Err(EdgeKindRefError::UnknownBuiltin(b[at + 1])),
            }
        }
    } else if b[at] == 1 {
        Ok((EdgeKindRef::Mentions, 1))
    } else if b[at] == 2 {
        if at + 5 > b.len() {
            Err(EdgeKindRefError::Short)
        } else {
            Ok((EdgeKindRef::Typed(RelationTypeId(be_value(b.subrange(at + 1, at + 5)) as u32)), 5))
        }
    } else {
        Err(EdgeKindRefError::UnknownTag(b[at]))
    }
}

fn read_kind(b: &[u8], at: usize) -> (r: Result<(EdgeKindRef, usize), EdgeKindRefError>)
    requires
        at <= b@.len(),
    ensures
        r matches Ok(x) ==> kind_at(b@, at as int) == Ok::<_, EdgeKindRefError>((x.0, x.1 as int)) && 1 <= x.1 <= 5
            && at + x.1 <= b@.len() && x.0.image() == b@.subrange(at as int, at + x.1),
        r matches Err(e) ==> kind_at(b@, at as int) == Err::<(EdgeKindRef, int), _>(e),
{
    let end: usize = b.len();
    if at >= end {
        return Err(EdgeKindRefError::Short);
    }
    match b[at] {
        0 => {
            if end - at < 2 {
                return Err(EdgeKindRefError::Short);
            }
            match EdgeKind::from_u8(b[at + 1]) {
                Some(k) => {
                    proof {
                        assert(b@.subrange(at as int, at + 2) =~= seq![0u8, k.byte()]);
                    }
                    Ok((EdgeKindRef::Builtin(k), 2))
                },
                None => Err(EdgeKindRefError::UnknownBuiltin(b[at + 1])),
            }
        },
        1 => {
            proof {
                assert(b@.subrange(at as int, at + 1) =~= seq![1u8]);
            }
            Ok((EdgeKindRef::Mentions, 1))
        },
        2 => {
            if end - at < 5 {
                return Err(EdgeKindRefError::Short);
            }
            proof {
                lemma_pow256_values();
            }
            let t: u32 = get_be(b, at + 1, 4) as u32;
            proof {
                assert(b@.subrange(at as int, at + 5) =~= seq![2u8] + be(t as nat, 4));
            }
            Ok((EdgeKindRef::Typed(RelationTypeId(t)), 5))
        },
        x => Err(EdgeKindRefError::UnknownTag(x)),
    }
}

/// The key of an edge. The disambiguator tells typed relations between the same
/// nodes apart; it is zero for every other kind.
#[derive(Clone, Copy, Debug, PartialEq, Eq)]
pub struct EdgeKey {
    pub from: NodeRef,
    pub kind: EdgeKindRef,
    pub to: NodeRef,
    pub disambiguator: [u8; 16],
}

/// Why bytes are no edge key.
#[derive(Clone, Copy, Debug, PartialEq, Eq, Structural)]
pub enum EdgeKeyError {
    /// The key has this many bytes, and too few.
    Short(usize),
    /// So many bytes follow the disambiguator.
    Trailing(usize),
    BadNodeRef(NodeRefError),
    BadEdgeKind(EdgeKindRefError),
}

/// The key that a byte string is.
pub open spec fn decoded_key(b: Seq<u8>) -> Result<EdgeKey, EdgeKeyError> {
    if b.len() < 17 {
        Err(EdgeKeyError::Short(b.len() as usize))
    } else {
        match node_at(b, 0) {
            Err(e) => Err(EdgeKeyError::BadNodeRef(e)),
            Ok(from) => match kind_at(b, 17) {
                Err(e) => Err(EdgeKeyError::BadEdgeKind(e)),
                Ok((kind, n)) => {
                    let to_at = 17 + n;
                    if b.len() < to_at + 33 {
                        Err(EdgeKeyError::Short(b.len() as usize))
                    } else {
                        match node_at(b, to_at) {
                            Err(e) => Err(EdgeKeyError::BadNodeRef(e)),
                            Ok(to) => if b.len() != to_at + 33 {
                                Err(EdgeKeyError::Trailing((b.len() - (to_at + 33)) as usize))
                            } else {
                                Ok(
                                    EdgeKey {
                                        from,
                                        kind,
                                        to,
                                        disambiguator: choose|d: [u8; 16]| d@ == b.subrange(to_at + 17, to_at + 33),
                                    },
                                )
                            },
                        }
                    }
                },
            },
        }
    }
}

impl EdgeKey {
    /// Source, label, target, disambiguator.
    pub open spec fn image(self) -> Seq<u8> {
        Seq::<u8>::empty() + self.from.image() + self.kind.image() + self.to.image() + self.disambiguator@
    }

    /// The key of the same edge under its target.
    pub open spec fn flipped(self) -> EdgeKey {
        EdgeKey { from: self.to, to: self.from, ..self }
    }

    /// The number of bytes of the key.
    #[must_use]
    pub fn encoded_len(&self) -> (r: usize)
        ensures
            r == self.image().len(),
            51 <= r <= 55,
    {
        17 + self.kind.encoded_len() + 17 + 16
    }

    #[must_use]
    pub fn encode(&self) -> (r: Vec<u8>)
        ensures
            r@ == self.image(),
    {
        let mut out: Vec<u8> = Vec::new();
        self.from.put(&mut out);
        self.kind.encode_into(&mut out);
        self.to.put(&mut out);
        put_bytes(&mut out, self.disambiguator.as_slice());
        out
    }

    /// Reads a key. Nothing may follow the disambiguator.
    pub fn decode(bytes: &[u8]) -> (r: Result<Self, EdgeKeyError>)
        ensures
            r == decoded_key(bytes@),
            r matches Ok(k) ==> k.image() == bytes@,
    {
        let len: usize = bytes.len();
        if len < 17 {
            return Err(EdgeKeyError::Short(len));
        }
        let from = match read_node(bytes, 0) {
            Ok(n) => n,
            Err(e) => return Err(EdgeKeyError::BadNodeRef(e)),
        };
        let (kind, n) = match read_kind(bytes, 17) {
            Ok(x) => x,
            Err(e) => return Err(EdgeKeyError::BadEdgeKind(e)),
        };
        let to_at: usize = 17 + n;
        if len < to_at + 33 {
            return Err(EdgeKeyError::Short(len));
        }
        let to = match read_node(bytes, to_at) {
            Ok(n) => n,
            Err(e) => return Err(EdgeKeyError::BadNodeRef(e)),
        };
        let disambiguator = get_array::<16>(bytes, to_at + 17);
        if len != to_at + 33 {
            return Err(EdgeKeyError::Trailing(len - (to_at + 33)));
        }
        let k = EdgeKey { from, kind, to, disambiguator };
        proof {
            let d = choose|d: [u8; 16]| d@ == bytes@.subrange(to_at + 17, to_at + 33);
            assert(d =~= disambiguator);
            assert(k.image() =~= bytes@.subrange(0, 17) + bytes@.subrange(17, to_at as int) + bytes@.subrange(
                to_at as int,
                to_at + 17,
            ) + bytes@.subrange(to_at + 17, to_at + 33));
            assert(k.image() =~= bytes@);
        }
        Ok(k)
    }

    /// The head of every key with this source.
    #[must_use]
    pub fn from_prefix(from: NodeRef) -> (r: [u8; 17])
        ensures
            r@ == from.image(),
    {
        from.to_bytes()
    }

    /// The head of every key with this source and label.
    #[must_use]
    pub fn from_kind_prefix(from: NodeRef, kind: EdgeKindRef) -> (r: Vec<u8>)
        ensures
            r@ == Seq::<u8>::empty() + from.image() + kind.image(),
    {
        let mut out: Vec<u8> = Vec::new();
        from.put(&mut out);
        kind.encode_into(&mut out);
        out
    }
}

/// A key is read back from its bytes as it was.
pub proof fn lemma_key_round_trip(k: EdgeKey)
    ensures
        decoded_key(k.image()) == Ok::<_, EdgeKeyError>(k),
{
    let b = k.image();
    lemma_pow256_values();
    if let EdgeKindRef::Typed(t) = k.kind {
        lemma_be_len(t.0 as nat, 4);
        lemma_be_value_of_be(t.0 as nat, 4);
        assert(b.subrange(18, 22) =~= be(t.0 as nat, 4));
    }
    let n = k.kind.image().len() as int;
    let at = 17 + n;
    assert(b.subrange(1, 17) =~= k.from.id()@);
    assert(b.subrange(at + 1, at + 17) =~= k.to.id()@);
    assert(b.subrange(at + 17, at + 33) =~= k.disambiguator@);
    let f = choose|id: [u8; 16]| id@ == b.subrange(1, 17);
    assert(f =~= k.from.id());
    let g = choose|id: [u8; 16]| id@ == b.subrange(at + 1, at + 17);
    assert(g =~= k.to.id());
    let d = choose|d: [u8; 16]| d@ == b.subrange(at + 17, at + 33);
    assert(d =~= k.disambiguator);
}

/// Two keys with the same bytes are the same.
pub proof fn lemma_key_injective(a: EdgeKey, b: EdgeKey)
    requires
        a.image() == b.image(),
    ensures
        a == b,
{
    lemma_key_round_trip(a);
    lemma_key_round_trip(b);
}

/// Why an operation on edges failed.
#[derive(Debug)]
pub enum EdgeOpError {
    /// The store failed.
    Storage(redb::Error),
    KeyDecode(EdgeKeyError),
    /// A stored value is no edge data.
    Corrupt,
}

/// The disambiguator of every edge that is not a typed relation.
#[must_use]
pub fn zero_disambiguator() -> (r: [u8; 16])
    ensures
        r@ == Seq::new(16, |i: int| 0u8),
{
    let r: [u8; 16] = [0u8; 16];
    proof {
        assert(r@ =~= Seq::new(16, |i: int| 0u8));
    }
    r
}

// Linking and unlinking.

/// Whether an edge of this label is stored in both directions.
pub open spec fn mirrored(kind: EdgeKindRef) -> bool {
    kind matches EdgeKindRef::Builtin(k) && k.symmetric()
}

fn symmetric_auto_mirror(kind: EdgeKindRef) -> (r: bool)
    ensures
        r == mirrored(kind),
{
    match kind {
        EdgeKindRef::Builtin(k) => k.is_symmetric(),
        _ => false,
    }
}

/// The rows with one directed edge, under its source and under its target.
pub open spec fn paired(db: Db, k: EdgeKey, value: Seq<u8>) -> Db {
    db.insert((Table::Edges, k.image()), value).insert((Table::EdgesReverse, k.flipped().image()), value)
}

/// The rows without one directed edge.
pub open spec fn unpaired(db: Db, k: EdgeKey) -> Db {
    db.remove((Table::Edges, k.image())).remove((Table::EdgesReverse, k.flipped().image()))
}

/// What linking two nodes does: a symmetric edge is stored in both directions.
pub open spec fn linked(db: Db, k: EdgeKey, value: Seq<u8>) -> Db {
    let d = paired(db, k, value);
    if mirrored(k.kind) && k.from != k.to {
        paired(d, k.flipped(), value)
    } else {
        d
    }
}

/// What unlinking two nodes does.
pub open spec fn unlinked(db: Db, k: EdgeKey) -> Db {
    let d = unpaired(db, k);
    if mirrored(k.kind) && k.from != k.to {
        unpaired(d, k.flipped())
    } else {
        d
    }
}

fn insert_pair(txn: &mut WriteTransaction, k: EdgeKey, data: &EdgeData) -> (r: Result<(), EdgeOpError>)
    ensures
        tables_kept(*old(txn), *final(txn)),
        r is Ok ==> wdb(*final(txn)) == paired(wdb(*old(txn)), k, image::<EdgeData>(data.model())),
        r matches Err(e) ==> e is Storage,
{
    let fwd = k.encode();
    let rev = EdgeKey { from: k.to, kind: k.kind, to: k.from, disambiguator: k.disambiguator }.encode();
    match save(txn, Table::Edges, fwd.as_slice(), data) {
        Ok(()) => {},
        Err(e) => return Err(EdgeOpError::Storage(e)),
    }
    match save(txn, Table::EdgesReverse, rev.as_slice(), data) {
        Ok(()) => Ok(()),
        Err(e) => Err(EdgeOpError::Storage(e)),
    }
}

fn remove_pair(txn: &mut WriteTransaction, k: EdgeKey) -> (r: Result<bool, EdgeOpError>)
    ensures
        tables_kept(*old(txn), *final(txn)),
        r is Ok ==> wdb(*final(txn)) == unpaired(wdb(*old(txn)), k),
        r matches Ok(found) ==> found == wdb(*old(txn)).dom().contains((Table::Edges, k.image())),
        r matches Err(e) ==> e is Storage,
{
    let fwd = k.encode();
    let rev = EdgeKey { from: k.to, kind: k.kind, to: k.from, disambiguator: k.disambiguator }.encode();
    let found: bool = match del(txn, Table::Edges, fwd.as_slice()) {
        Ok(x) => x,
        Err(e) => return Err(EdgeOpError::Storage(e)),
    };
    match del(txn, Table::EdgesReverse, rev.as_slice()) {
        Ok(_) => Ok(found),
        Err(e) => Err(EdgeOpError::Storage(e)),
    }
}

/// Stores an edge. A typed relation is told apart by its own identifier; every
/// other kind takes [`zero_disambiguator`].
pub fn link(
    wtxn: &mut WriteTransaction,
    from: NodeRef,
    kind: EdgeKindRef,
    to: NodeRef,
    disambiguator: [u8; 16],
    data: &EdgeData,
) -> (r: Result<(), EdgeOpError>)
    ensures
        tables_kept(*old(wtxn), *final(wtxn)),
        r is Ok ==> wdb(*final(wtxn)) == linked(
            wdb(*old(wtxn)),
            EdgeKey { from, kind, to, disambiguator },
            image::<EdgeData>(data.model()),
        ),
        r matches Err(e) ==> e is Storage,
{
    insert_pair(wtxn, EdgeKey { from, kind, to, disambiguator }, data)?;
    if symmetric_auto_mirror(kind) && !from.same(&to) {
        insert_pair(wtxn, EdgeKey { from: to, kind, to: from, disambiguator }, data)?;
    }
    Ok(())
}

/// Removes an edge, and tells whether it was stored under its source.
pub fn unlink(wtxn: &mut WriteTransaction, from: NodeRef, kind: EdgeKindRef, to: NodeRef, disambiguator: [u8; 16]) -> (r:
    Result<bool, EdgeOpError>)
    ensures
        tables_kept(*old(wtxn), *final(wtxn)),
        r is Ok ==> wdb(*final(wtxn)) == unlinked(wdb(*old(wtxn)), EdgeKey { from, kind, to, disambiguator }),
        r matches Ok(found) ==> found == wdb(*old(wtxn)).dom().contains(
            (Table::Edges, (EdgeKey { from, kind, to, disambiguator }).image()),
        ),
        r matches Err(e) ==> e is Storage,
{
    let found: bool = remove_pair(wtxn, EdgeKey { from, kind, to, disambiguator })?;
    if symmetric_auto_mirror(kind) && !from.same(&to) {
        remove_pair(wtxn, EdgeKey { from: to, kind, to: from, disambiguator })?;
    }
    Ok(found)
}

/// Unlinking undoes linking, where none of the rows was there before.
pub proof fn lemma_unlink_undoes_link(db: Db, k: EdgeKey, value: Seq<u8>)
    requires
        !db.dom().contains((Table::Edges, k.image())),
        !db.dom().contains((Table::EdgesReverse, k.flipped().image())),
        mirrored(k.kind) ==> !db.dom().contains((Table::Edges, k.flipped().image())) && !db.dom().contains(
            (Table::EdgesReverse, k.image()),
        ),
    ensures
        unlinked(linked(db, k, value), k) == db,
{
    assert(k.flipped().flipped() == k);
    assert(unlinked(linked(db, k, value), k) =~= db);
}

/// Every edge is stored under its source exactly if it is stored under its
/// target, with the same data.
pub open spec fn in_sync(db: Db) -> bool {
    forall|k: EdgeKey|
        lookup(db, Table::Edges, #[trigger] k.image()) == lookup(db, Table::EdgesReverse, k.flipped().image())
}

proof fn lemma_pair_keeps_sync(db: Db, k: EdgeKey, value: Seq<u8>)
    requires
        in_sync(db),
    ensures
        in_sync(paired(db, k, value)),
        in_sync(unpaired(db, k)),
{
    assert forall|j: EdgeKey|
        lookup(paired(db, k, value), Table::Edges, #[trigger] j.image()) == lookup(
            paired(db, k, value),
            Table::EdgesReverse,
            j.flipped().image(),
        ) && lookup(unpaired(db, k), Table::Edges, j.image()) == lookup(
            unpaired(db, k),
            Table::EdgesReverse,
            j.flipped().image(),
        ) by {
        assert(lookup(db, Table::Edges, j.image()) == lookup(db, Table::EdgesReverse, j.flipped().image()));
        if j.image() == k.image() {
            lemma_key_injective(j, k);
        }
        if j.flipped().image() == k.flipped().image() {
            lemma_key_injective(j.flipped(), k.flipped());
            assert(j == k);
        }
    }
}

/// Linking keeps both tables in step.
pub proof fn lemma_link_keeps_sync(db: Db, k: EdgeKey, value: Seq<u8>)
    requires
        in_sync(db),
    ensures
        in_sync(linked(db, k, value)),
{
    lemma_pair_keeps_sync(db, k, value);
    lemma_pair_keeps_sync(paired(db, k, value), k.flipped(), value);
}

/// Unlinking keeps both tables in step.
pub proof fn lemma_unlink_keeps_sync(db: Db, k: EdgeKey)
    requires
        in_sync(db),
    ensures
        in_sync(unlinked(db, k)),
{
    lemma_pair_keeps_sync(db, k, Seq::empty());
    lemma_pair_keeps_sync(unpaired(db, k), k.flipped(), Seq::empty());
}

/// After linking, the edge is stored from its source, and a symmetric one from
/// its target too.
pub proof fn lemma_link_is_found(db: Db, k: EdgeKey, value: Seq<u8>)
    ensures
        lookup(linked(db, k, value), Table::Edges, k.image()) == Some(value),
        lookup(linked(db, k, value), Table::EdgesReverse, k.flipped().image()) == Some(value),
        mirrored(k.kind) ==> lookup(linked(db, k, value), Table::Edges, k.flipped().image()) == Some(value),
{
    if k.from == k.to {
        assert(k.flipped() == k);
    }
}

/// After unlinking, the edge is stored nowhere.
pub proof fn lemma_unlink_is_gone(db: Db, k: EdgeKey)
    ensures
        lookup(unlinked(db, k), Table::Edges, k.image()) is None,
        lookup(unlinked(db, k), Table::EdgesReverse, k.flipped().image()) is None,
        mirrored(k.kind) ==> lookup(unlinked(db, k), Table::Edges, k.flipped().image()) is None,
{
    if k.from == k.to {
        assert(k.flipped() == k);
    }
}

// Reading edges.

/// The data of an edge.
pub open spec fn edge_at(db: Db, k: EdgeKey) -> Result<Option<EdgeDataModel>, EdgeOpError> {
    match slot::<EdgeData>(db, Table::Edges, k.image()) {
        Slot::Absent => Ok(None),
        Slot::Corrupt => Err(EdgeOpError::Corrupt),
        Slot::Row(m) => Ok(Some(m)),
    }
}

/// Fetches the data of an edge.
pub fn edge_get(rtxn: &ReadTransaction, from: NodeRef, kind: EdgeKindRef, to: NodeRef, disambiguator: [u8; 16]) -> (r:
    Result<Option<EdgeData>, EdgeOpError>)
    ensures
        r is Ok ==> opened(*rtxn, Table::Edges),
        r matches Ok(None) ==> edge_at(rdb(*rtxn), EdgeKey { from, kind, to, disambiguator }) == Ok::<_, EdgeOpError>(
            None::<EdgeDataModel>,
        ),
        r matches Ok(Some(d)) ==> edge_at(rdb(*rtxn), EdgeKey { from, kind, to, disambiguator }) == Ok::<
            _,
            EdgeOpError,
        >(Some(d.model())),
        r matches Err(e) ==> e is Storage || edge_at(rdb(*rtxn), EdgeKey { from, kind, to, disambiguator }) == Err::<
            Option<EdgeDataModel>,
            _,
        >(e),
{
    let key = EdgeKey { from, kind, to, disambiguator }.encode();
    match load_at::<EdgeData>(rtxn, Table::Edges, key.as_slice()) {
        Ok(x) => Ok(x),
        Err(LoadError::Storage(e)) => Err(EdgeOpError::Storage(e)),
        Err(LoadError::Corrupt) => Err(EdgeOpError::Corrupt),
    }
}

/// An edge as a walk hands it out: label, other end, disambiguator, data.
pub type EdgeRow = (EdgeKindRef, NodeRef, [u8; 16], EdgeData);

/// Such an edge as it is spoken of.
pub type EdgeRowModel = (EdgeKindRef, NodeRef, [u8; 16], EdgeDataModel);

/// Edges as they are spoken of.
pub open spec fn edge_row_models(v: Seq<EdgeRow>) -> Seq<EdgeRowModel> {
    v.map_values(|x: EdgeRow| (x.0, x.1, x.2, x.3.model()))
}

/// The head of the keys that a walk looks at.
pub open spec fn walk_prefix(anchor: NodeRef, kind_filter: Option<EdgeKindRef>) -> Seq<u8> {
    match kind_filter {
        Some(k) => Seq::<u8>::empty() + anchor.image() + k.image(),
        None => anchor.image(),
    }
}

/// The edge that an entry holds, if it is one of those the walk asks for.
pub open spec fn walked_edge(anchor: NodeRef, kind_filter: Option<EdgeKindRef>, kv: (Seq<u8>, Seq<u8>)) -> Result<
    Option<EdgeRowModel>,
    EdgeOpError,
> {
    match decoded_key(kv.0) {
        Err(e) => Err(EdgeOpError::KeyDecode(e)),
        Ok(k) => if k.from != anchor || (kind_filter matches Some(want) && k.kind != want) {
            Ok(None)
        } else {
            match parsed::<EdgeData>(kv.1) {
                Slot::Row(m) => Ok(Some((k.kind, k.to, k.disambiguator, m))),
                _ => Err(EdgeOpError::Corrupt),
            }
        },
    }
}

/// The edges at a node in one of the two tables, in key order.
pub open spec fn walk(db: Db, t: Table, anchor: NodeRef, kind_filter: Option<EdgeKindRef>) -> Result<
    Seq<EdgeRowModel>,
    EdgeOpError,
> {
    collect(
        scan(db, t, walk_prefix(anchor, kind_filter)),
        |kv: (Seq<u8>, Seq<u8>)| walked_edge(anchor, kind_filter, kv),
    )
}

fn read_walked_edge(anchor: &NodeRef, kind_filter: &Option<EdgeKindRef>, kv: &Entry) -> (r: Result<
    Option<EdgeRow>,
    EdgeOpError,
>)
    ensures
        r matches Ok(None) ==> walked_edge(*anchor, *kind_filter, (kv.0@, kv.1@)) == Ok::<_, EdgeOpError>(
            None::<EdgeRowModel>,
        ),
        r matches Ok(Some(x)) ==> walked_edge(*anchor, *kind_filter, (kv.0@, kv.1@)) == Ok::<_, EdgeOpError>(
            Some((x.0, x.1, x.2, x.3.model())),
        ),
        r matches Err(e) ==> walked_edge(*anchor, *kind_filter, (kv.0@, kv.1@)) == Err::<Option<EdgeRowModel>, _>(e),
{
    let k = match EdgeKey::decode(kv.0.as_slice()) {
        Ok(k) => k,
        Err(e) => return Err(EdgeOpError::KeyDecode(e)),
    };
    if !k.from.same(anchor) {
        return Ok(None);
    }
    if let Some(want) = kind_filter {
        if k.kind != *want {
            return Ok(None);
        }
    }
    match from_bytes::<EdgeData>(kv.1.as_slice()) {
        Some(d) => Ok(Some((k.kind, k.to, k.disambiguator, d))),
        None => Err(EdgeOpError::Corrupt),
    }
}

fn range_scan(rtxn: &ReadTransaction, t: Table, anchor: NodeRef, kind_filter: Option<EdgeKindRef>) -> (r: Result<
    Vec<EdgeRow>,
    EdgeOpError,
>)
    ensures
        r is Ok ==> opened(*rtxn, t),
        r is Ok ==> scanned(rdb(*rtxn), t, walk_prefix(anchor, kind_filter)),
        r matches Ok(v) ==> walk(rdb(*rtxn), t, anchor, kind_filter) == Ok::<_, EdgeOpError>(edge_row_models(v@)),
        r matches Err(e) ==> e is Storage || walk(rdb(*rtxn), t, anchor, kind_filter) == Err::<Seq<EdgeRowModel>, _>(
            e,
        ),
{
    let prefix: Vec<u8> = match kind_filter {
        Some(k) => EdgeKey::from_kind_prefix(anchor, k),
        None => {
            let mut p: Vec<u8> = Vec::new();
            anchor.put(&mut p);
            proof {
                assert(p@ =~= anchor.image());
            }
            p
        },
    };
    let found = match read_prefix(rtxn, t, prefix.as_slice()) {
        Ok(v) => v,
        Err(e) => return Err(EdgeOpError::Storage(e)),
    };
    let ghost entries = entry_models(found@);
    let ghost f = |kv: (Seq<u8>, Seq<u8>)| walked_edge(anchor, kind_filter, kv);
    let mut out: Vec<EdgeRow> = Vec::new();
    let mut i: usize = 0;
    proof {
        assert(entries.take(0) =~= Seq::<(Seq<u8>, Seq<u8>)>::empty());
        assert(edge_row_models(out@) =~= Seq::<EdgeRowModel>::empty());
    }
    while i < found.len()
        invariant
            i <= found.len(),
            entries == entry_models(found@),
            f == (|kv: (Seq<u8>, Seq<u8>)| walked_edge(anchor, kind_filter, kv)),
            collect(entries.take(i as int), f) == Ok::<_, EdgeOpError>(edge_row_models(out@)),
            walk(rdb(*rtxn), t, anchor, kind_filter) == collect(entries, f),
        decreases found.len() - i,
    {
        proof {
            lemma_collect_step(entries, f, i as int);
            if collect(entries.take(i + 1), f) is Err {
                lemma_collect_fails(entries, f, i + 1);
            }
        }
        if let Some(x) = read_walked_edge(&anchor, &kind_filter, &found[i])? {
            let ghost before = edge_row_models(out@);
            let ghost xm = (x.0, x.1, x.2, x.3.model());
            out.push(x);
            proof {
                assert(edge_row_models(out@) =~= before.push(xm));
            }
        }
        i = i + 1;
    }
    proof {
        assert(entries.take(i as int) =~= entries);
    }
    Ok(out)
}

/// The edges from a node, in the order of label, target and disambiguator; with
/// a filter, those of one label.
pub fn walk_outgoing(rtxn: &ReadTransaction, from: NodeRef, kind_filter: Option<EdgeKindRef>) -> (r: Result<
    Vec<EdgeRow>,
    EdgeOpError,
>)
    ensures
        r is Ok ==> opened(*rtxn, Table::Edges),
        r is Ok ==> scanned(rdb(*rtxn), Table::Edges, walk_prefix(from, kind_filter)),
        r matches Ok(v) ==> walk(rdb(*rtxn), Table::Edges, from, kind_filter) == Ok::<_, EdgeOpError>(
            edge_row_models(v@),
        ),
        r matches Err(e) ==> e is Storage || walk(rdb(*rtxn), Table::Edges, from, kind_filter) == Err::<
            Seq<EdgeRowModel>,
            _,
        >(e),
{
    range_scan(rtxn, Table::Edges, from, kind_filter)
}

/// The edges to a node, in the order of label, source and disambiguator; with a
/// filter, those of one label.
pub fn walk_incoming(rtxn: &ReadTransaction, to: NodeRef, kind_filter: Option<EdgeKindRef>) -> (r: Result<
    Vec<EdgeRow>,
    EdgeOpError,
>)
    ensures
        r is Ok ==> opened(*rtxn, Table::EdgesReverse),
        r is Ok ==> scanned(rdb(*rtxn), Table::EdgesReverse, walk_prefix(to, kind_filter)),
        r matches Ok(v) ==> walk(rdb(*rtxn), Table::EdgesReverse, to, kind_filter) == Ok::<_, EdgeOpError>(
            edge_row_models(v@),
        ),
        r matches Err(e) ==> e is Storage || walk(rdb(*rtxn), Table::EdgesReverse, to, kind_filter) == Err::<
            Seq<EdgeRowModel>,
            _,
        >(e),
{
    range_scan(rtxn, Table::EdgesReverse, to, kind_filter)
}

/// A builtin edge between memories: kind, other end, data.
pub type MemoryEdge = (EdgeKind, MemoryId, EdgeData);

/// Such an edge as it is spoken of.
pub type MemoryEdgeModel = (EdgeKind, MemoryId, EdgeDataModel);

/// Edges as they are spoken of.
pub open spec fn memory_edge_models(v: Seq<MemoryEdge>) -> Seq<MemoryEdgeModel> {
    v.map_values(|x: MemoryEdge| (x.0, x.1, x.2.model()))
}

/// The builtin edges to memories among edges, in order.
pub open spec fn memory_edges(rows: Seq<EdgeRowModel>) -> Seq<MemoryEdgeModel>
    decreases rows.len(),
{
    if rows.len() == 0 {
        Seq::empty()
    } else {
        let before = memory_edges(rows.drop_last());
        match (rows.last().0, rows.last().1) {
            (EdgeKindRef::Builtin(k), NodeRef::Memory(m)) => before.push((k, m, rows.last().3)),
            _ => before,
        }
    }
}

fn keep_memory_edges(rows: &Vec<EdgeRow>) -> (r: Vec<MemoryEdge>)
    ensures
        memory_edge_models(r@) == memory_edges(edge_row_models(rows@)),
{
    let ghost models = edge_row_models(rows@);
    let mut out: Vec<MemoryEdge> = Vec::new();
    let mut i: usize = 0;
    proof {
        assert(models.take(0) =~= Seq::<EdgeRowModel>::empty());
        assert(memory_edge_models(out@) =~= Seq::<MemoryEdgeModel>::empty());
    }
    while i < rows.len()
        invariant
            i <= rows.len(),
            models == edge_row_models(rows@),
            memory_edge_models(out@) == memory_edges(models.take(i as int)),
        decreases rows.len() - i,
    {
        proof {
            assert(models.take(i + 1).drop_last() =~= models.take(i as int));
        }
        if let (EdgeKindRef::Builtin(k), NodeRef::Memory(m)) = (rows[i].0, rows[i].1) {
            let ghost before = memory_edge_models(out@);
            out.push((k, m, rows[i].3.copy()));
            proof {
                assert(memory_edge_models(out@) =~= before.push((k, m, models[i as int].3)));
            }
        }
        i = i + 1;
    }
    proof {
        assert(models.take(i as int) =~= models);
    }
    out
}

/// The label filter of a builtin kind.
pub open spec fn builtin_filter(kind: Option<EdgeKind>) -> Option<EdgeKindRef> {
    match kind {
        Some(k) => Some(EdgeKindRef::Builtin(k)),
        None => None,
    }
}

/// The builtin edges between memories at a node of one table.
pub open spec fn memory_walk(db: Db, t: Table, anchor: MemoryId, kind: Option<EdgeKind>) -> Result<
    Seq<MemoryEdgeModel>,
    EdgeOpError,
> {
    match walk(db, t, NodeRef::Memory(anchor), builtin_filter(kind)) {
        Err(e) => Err(e),
        Ok(rows) => Ok(memory_edges(rows)),
    }
}

fn make_builtin_filter(kind: Option<EdgeKind>) -> (r: Option<EdgeKindRef>)
    ensures
        r == builtin_filter(kind),
{
    match kind {
        Some(k) => Some(EdgeKindRef::Builtin(k)),
        None => None,
    }
}

/// The builtin edges from a memory to memories.
pub fn list_memory_edges_from(rtxn: &ReadTransaction, from: MemoryId, kind: Option<EdgeKind>) -> (r: Result<
    Vec<MemoryEdge>,
    EdgeOpError,
>)
    ensures
        r is Ok ==> opened(*rtxn, Table::Edges),
        r is Ok ==> scanned(rdb(*rtxn), Table::Edges, walk_prefix(NodeRef::Memory(from), builtin_filter(kind))),
        r matches Ok(v) ==> memory_walk(rdb(*rtxn), Table::Edges, from, kind) == Ok::<_, EdgeOpError>(
            memory_edge_models(v@),
        ),
        r matches Err(e) ==> e is Storage || memory_walk(rdb(*rtxn), Table::Edges, from, kind) == Err::<
            Seq<MemoryEdgeModel>,
            _,
        >(e),
{
    let rows = walk_outgoing(rtxn, NodeRef::Memory(from), make_builtin_filter(kind))?;
    Ok(keep_memory_edges(&rows))
}

/// The builtin edges to a memory from memories.
pub fn list_memory_edges_to(rtxn: &ReadTransaction, to: MemoryId, kind: Option<EdgeKind>) -> (r: Result<
    Vec<MemoryEdge>,
    EdgeOpError,
>)
    ensures
        r is Ok ==> opened(*rtxn, Table::EdgesReverse),
        r is Ok ==> scanned(rdb(*rtxn), Table::EdgesReverse, walk_prefix(NodeRef::Memory(to), builtin_filter(kind))),
        r matches Ok(v) ==> memory_walk(rdb(*rtxn), Table::EdgesReverse, to, kind) == Ok::<_, EdgeOpError>(
            memory_edge_models(v@),
        ),
        r matches Err(e) ==> e is Storage || memory_walk(rdb(*rtxn), Table::EdgesReverse, to, kind) == Err::<
            Seq<MemoryEdgeModel>,
            _,
        >(e),
{
    let rows = walk_incoming(rtxn, NodeRef::Memory(to), make_builtin_filter(kind))?;
    Ok(keep_memory_edges(&rows))
}

} // verus!
