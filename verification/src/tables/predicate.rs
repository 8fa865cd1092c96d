//! Registered predicates.

use vstd::prelude::*;

use crate::cells::{cell_models, Cell};
use crate::row::{
    flag, flag_at, flag_cell, group_row_fields, int_at, int_cell, text, text_at, text_cell, u32_at, u8_at, CellModel,
    Row,
};
use crate::types::{PredicateId, StatementKind};

verus! {

/// How a predicate came to be registered.
#[derive(Clone, Copy, Debug, PartialEq, Eq, Structural)]
pub enum SchemaOrigin {
    /// By an uploaded schema.
    SchemaDeclared { version: u32 },
    /// By a statement that used it while no schema declared it.
    ImplicitFromWrite { first_seen_lsn: u64 },
}

impl SchemaOrigin {
    pub open spec fn tag_spec(self) -> u8 {
        match self {
            SchemaOrigin::SchemaDeclared { .. } => 0,
            SchemaOrigin::ImplicitFromWrite { .. } => 1,
        }
    }

    pub open spec fn payload_spec(self) -> u64 {
        match self {
            SchemaOrigin::SchemaDeclared { version } => version as u64,
            SchemaOrigin::ImplicitFromWrite { first_seen_lsn } => first_seen_lsn,
        }
    }

    /// Tag 0 is a declared origin with the low 32 bits of the payload, tag 1 an
    /// implicit one. A tag that is not known reads as declared, of version 0.
    pub open spec fn decode_spec(tag: u8, payload: u64) -> SchemaOrigin {
        if tag == 1 {
            SchemaOrigin::ImplicitFromWrite { first_seen_lsn: payload }
        } else if tag == 0 {
            SchemaOrigin::SchemaDeclared { version: (payload % 0x1_0000_0000) as u32 }
        } else {
            SchemaOrigin::SchemaDeclared { version: 0 }
        }
    }

    /// The stored tag byte.
    #[must_use]
    pub fn tag(self) -> (r: u8)
        ensures
            r == self.tag_spec(),
    {
        match self {
            SchemaOrigin::SchemaDeclared { .. } => 0,
            SchemaOrigin::ImplicitFromWrite { .. } => 1,
        }
    }

    /// The stored payload word.
    #[must_use]
    pub fn payload(self) -> (r: u64)
        ensures
            r == self.payload_spec(),
    {
        match self {
            SchemaOrigin::SchemaDeclared { version } => version as u64,
            SchemaOrigin::ImplicitFromWrite { first_seen_lsn } => first_seen_lsn,
        }
    }

    #[must_use]
    pub fn decode(tag: u8, payload: u64) -> (r: Self)
        ensures
            r == SchemaOrigin::decode_spec(tag, payload),
    {
        match tag {
            0 => SchemaOrigin::SchemaDeclared { version: (payload % 0x1_0000_0000) as u32 },
            1 => SchemaOrigin::ImplicitFromWrite { first_seen_lsn: payload },
            _ => SchemaOrigin::SchemaDeclared { version: 0 },
        }
    }

    /// Whether the row was authored by a schema.
    #[must_use]
    pub fn is_schema_declared(self) -> (r: bool)
        ensures
            r == (self is SchemaDeclared),
    {
        match self {
            SchemaOrigin::SchemaDeclared { .. } => true,
            SchemaOrigin::ImplicitFromWrite { .. } => false,
        }
    }
}

/// An origin is read back from its tag and payload as it was.
pub proof fn lemma_origin_round_trip(o: SchemaOrigin)
    ensures
        SchemaOrigin::decode_spec(o.tag_spec(), o.payload_spec()) == o,
{
}

/// A predicate. `T` is `String`, or `Seq<char>` where one is only spoken of.
#[derive(Clone, Debug, PartialEq)]
pub struct Predicate<T = String> {
    pub id: PredicateId,
    pub namespace: T,
    pub name: T,
    pub kind_constraint: Option<StatementKind>,
    pub object_type_constraint_byte: u8,
    pub schema_version: u32,
    pub description: T,
    pub is_stateful: bool,
}

impl Predicate {
    pub open spec fn model(&self) -> Predicate<Seq<char>> {
        Predicate {
            id: self.id,
            namespace: self.namespace@,
            name: self.name@,
            kind_constraint: self.kind_constraint,
            object_type_constraint_byte: self.object_type_constraint_byte,
            schema_version: self.schema_version,
            description: self.description@,
            is_stateful: self.is_stateful,
        }
    }
}

/// A row of the `predicates` table. Namespace and name together are unique; the
/// `predicates_by_qname` index keeps them so.
#[derive(Clone, Debug, PartialEq)]
pub struct PredicateDefinition<T = String> {
    pub predicate_id: u32,
    pub namespace: T,
    pub name: T,
    /// 0 allows any kind; otherwise one more than the kind's byte.
    pub kind_constraint: u8,
    /// 0 allows any object; otherwise one more than the object variant's number.
    pub object_type_constraint_byte: u8,
    pub schema_version: u32,
    pub description: T,
    pub created_at_unix_nanos: u64,
    pub origin_tag: u8,
    pub origin_payload: u64,
    /// A new statement supersedes the current one of the same subject.
    pub is_stateful: bool,
}

impl Row for PredicateDefinition {
    type M = PredicateDefinition<Seq<char>>;

    open spec fn model(&self) -> PredicateDefinition<Seq<char>> {
        PredicateDefinition {
            predicate_id: self.predicate_id,
            namespace: self.namespace@,
            name: self.name@,
            kind_constraint: self.kind_constraint,
            object_type_constraint_byte: self.object_type_constraint_byte,
            schema_version: self.schema_version,
            description: self.description@,
            created_at_unix_nanos: self.created_at_unix_nanos,
            origin_tag: self.origin_tag,
            origin_payload: self.origin_payload,
            is_stateful: self.is_stateful,
        }
    }

    open spec fn cells(m: PredicateDefinition<Seq<char>>) -> Seq<CellModel> {
        seq![
            Cell::Int(m.predicate_id as u64),
            text(m.namespace),
            text(m.name),
            Cell::Int(m.kind_constraint as u64),
            Cell::Int(m.object_type_constraint_byte as u64),
            Cell::Int(m.schema_version as u64),
            text(m.description),
            Cell::Int(m.created_at_unix_nanos),
            Cell::Int(m.origin_tag as u64),
            Cell::Int(m.origin_payload),
            flag(m.is_stateful),
        ]
    }

    proof fn cells_injective(a: PredicateDefinition<Seq<char>>, b: PredicateDefinition<Seq<char>>) {
        broadcast use group_row_fields;

        let x = Self::cells(a);
        let y = Self::cells(b);
        assert(x[0] == y[0]
            && x[1] == y[1]
            && x[2] == y[2]
            && x[3] == y[3]
            && x[4] == y[4]
            && x[5] == y[5]
            && x[6] == y[6]
            && x[7] == y[7]
            && x[8] == y[8]
            && x[9] == y[9]
            && x[10] == y[10]);
    }

    fn to_cells(&self) -> (r: Vec<Cell<Vec<u8>>>) {
        let cells: Vec<Cell<Vec<u8>>> = vec![
            int_cell(self.predicate_id as u64),
            text_cell(&self.namespace),
            text_cell(&self.name),
            int_cell(self.kind_constraint as u64),
            int_cell(self.object_type_constraint_byte as u64),
            int_cell(self.schema_version as u64),
            text_cell(&self.description),
            int_cell(self.created_at_unix_nanos),
            int_cell(self.origin_tag as u64),
            int_cell(self.origin_payload),
            flag_cell(self.is_stateful),
        ];
        proof {
            assert(cell_models(cells@) =~= Self::cells(self.model()));
        }
        cells
    }

    fn from_cells(cells: &Vec<Cell<Vec<u8>>>) -> (r: Option<Self>) {
        if cells.len() != 11 {
            proof {
                assert forall|m: PredicateDefinition<Seq<char>>| #[trigger] Self::cells(m) != cell_models(cells@) by {
                    assert(Self::cells(m).len() == 11);
                }
            }
            return None;
        }
        let predicate_id = match u32_at(cells, 0) {
            Some(x) => x,
            None => return None,
        };
        let namespace = match text_at(cells, 1) {
            Some(x) => x,
            None => return None,
        };
        let name = match text_at(cells, 2) {
            Some(x) => x,
            None => return None,
        };
        let kind_constraint = match u8_at(cells, 3) {
            Some(x) => x,
            None => return None,
        };
        let object_type_constraint_byte = match u8_at(cells, 4) {
            Some(x) => x,
            None => return None,
        };
        let schema_version = match u32_at(cells, 5) {
            Some(x) => x,
            None => return None,
        };
        let description = match text_at(cells, 6) {
            Some(x) => x,
            None => return None,
        };
        let created_at_unix_nanos = match int_at(cells, 7) {
            Some(x) => x,
            None => return None,
        };
        let origin_tag = match u8_at(cells, 8) {
            Some(x) => x,
            None => return None,
        };
        let origin_payload = match int_at(cells, 9) {
            Some(x) => x,
            None => return None,
        };
        let is_stateful = match flag_at(cells, 10) {
            Some(x) => x,
            None => return None,
        };
        let row = PredicateDefinition {
            predicate_id,
            namespace,
            name,
            kind_constraint,
            object_type_constraint_byte,
            schema_version,
            description,
            created_at_unix_nanos,
            origin_tag,
            origin_payload,
            is_stateful,
        };
        proof {
            assert(Self::cells(row.model()) =~= cell_models(cells@));
        }
        Some(row)
    }
}

/// A predicate row as it is spoken of.
pub type PredicateRowModel = PredicateDefinition<Seq<char>>;

pub open spec fn kind_constraint_of_byte(b: u8) -> Option<StatementKind> {
    if b == 0 {
        None
    } else {
        StatementKind::of_byte((b - 1) as u8)
    }
}

pub open spec fn kind_constraint_byte(k: Option<StatementKind>) -> u8 {
    match k {
        Some(kind) => (kind.byte() + 1) as u8,
        None => 0,
    }
}

/// The kind that a stored constraint byte names. Zero and unknown bytes name
/// none.
#[must_use]
pub fn decode_kind_constraint(b: u8) -> (r: Option<StatementKind>)
    ensures
        r == kind_constraint_of_byte(b),
{
    match b {
        1 => Some(StatementKind::Fact),
        2 => Some(StatementKind::Preference),
        3 => Some(StatementKind::Event),
        _ => None,
    }
}

/// The byte that a constraint is stored as.
#[must_use]
pub fn encode_kind_constraint(k: Option<StatementKind>) -> (r: u8)
    ensures
        r == kind_constraint_byte(k),
{
    match k {
        Some(StatementKind::Fact) => 1,
        Some(StatementKind::Preference) => 2,
        Some(StatementKind::Event) => 3,
        None => 0,
    }
}

/// A kind constraint is read back from its byte as it was.
pub proof fn lemma_kind_constraint_round_trip(k: Option<StatementKind>)
    ensures
        kind_constraint_of_byte(kind_constraint_byte(k)) == k,
{
}

/// The row of a predicate.
pub open spec fn predicate_row(p: Predicate<Seq<char>>, created_at_unix_nanos: u64, origin: SchemaOrigin) -> PredicateRowModel {
    PredicateDefinition {
        predicate_id: p.id.0,
        namespace: p.namespace,
        name: p.name,
        kind_constraint: kind_constraint_byte(p.kind_constraint),
        object_type_constraint_byte: p.object_type_constraint_byte,
        schema_version: p.schema_version,
        description: p.description,
        created_at_unix_nanos,
        origin_tag: origin.tag_spec(),
        origin_payload: origin.payload_spec(),
        is_stateful: p.is_stateful,
    }
}

/// The predicate that a row holds.
pub open spec fn predicate_of(m: PredicateRowModel) -> Predicate<Seq<char>> {
    Predicate {
        id: PredicateId(m.predicate_id),
        namespace: m.namespace,
        name: m.name,
        kind_constraint: kind_constraint_of_byte(m.kind_constraint),
        object_type_constraint_byte: m.object_type_constraint_byte,
        schema_version: m.schema_version,
        description: m.description,
        is_stateful: m.is_stateful,
    }
}

/// A predicate is read back from its row as it was, whenever and however it was
/// registered.
pub proof fn lemma_predicate_round_trip(p: Predicate<Seq<char>>, at: u64, origin: SchemaOrigin)
    ensures
        predicate_of(predicate_row(p, at, origin)) == p,
{
}

impl PredicateDefinition {
    #[must_use]
    pub fn id(&self) -> (r: PredicateId)
        ensures
            r == PredicateId(self.predicate_id),
    {
        PredicateId(self.predicate_id)
    }

    /// The row of a predicate that a schema of its own version declares.
    #[must_use]
    pub fn from_predicate(p: &Predicate, created_at_unix_nanos: u64) -> (r: Self)
        ensures
            r.model() == predicate_row(
                p.model(),
                created_at_unix_nanos,
                SchemaOrigin::SchemaDeclared { version: p.schema_version },
            ),
    {
        Self::from_predicate_with_origin(
            p,
            created_at_unix_nanos,
            SchemaOrigin::SchemaDeclared { version: p.schema_version },
        )
    }

    #[must_use]
    pub fn from_predicate_with_origin(p: &Predicate, created_at_unix_nanos: u64, origin: SchemaOrigin) -> (r: Self)
        ensures
            r.model() == predicate_row(p.model(), created_at_unix_nanos, origin),
    {
        PredicateDefinition {
            predicate_id: p.id.0,
            namespace: p.namespace.as_str().to_owned(),
            name: p.name.as_str().to_owned(),
            kind_constraint: encode_kind_constraint(p.kind_constraint),
            object_type_constraint_byte: p.object_type_constraint_byte,
            schema_version: p.schema_version,
            description: p.description.as_str().to_owned(),
            created_at_unix_nanos,
            origin_tag: origin.tag(),
            origin_payload: origin.payload(),
            is_stateful: p.is_stateful,
        }
    }

    #[must_use]
    pub fn origin(&self) -> (r: SchemaOrigin)
        ensures
            r == SchemaOrigin::decode_spec(self.origin_tag, self.origin_payload),
    {
        SchemaOrigin::decode(self.origin_tag, self.origin_payload)
    }

    /// The predicate. The creation time stays on the row.
    #[must_use]
    pub fn to_predicate(&self) -> (r: Predicate)
        ensures
            r.model() == predicate_of(self.model()),
    {
        Predicate {
            id: self.id(),
            namespace: self.namespace.as_str().to_owned(),
            name: self.name.as_str().to_owned(),
            kind_constraint: decode_kind_constraint(self.kind_constraint),
            object_type_constraint_byte: self.object_type_constraint_byte,
            schema_version: self.schema_version,
            description: self.description.as_str().to_owned(),
            is_stateful: self.is_stateful,
        }
    }
}

} // verus!
