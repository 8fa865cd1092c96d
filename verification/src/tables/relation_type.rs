//! Relation types.

use vstd::prelude::*;

use crate::cells::{cell_models, Cell};
use crate::row::{
    copy_text, group_row_fields, int_at, int_cell, text, text_at, text_cell, u32_at, u8_at, CellModel, Row,
};
use crate::types::{EntityTypeId, RelationTypeId};

verus! {

/// Where a relation type came from.
#[derive(Clone, Copy, Debug, PartialEq, Eq, Structural)]
pub enum RelationTypeOrigin {
    /// A schema declared it.
    SchemaDeclared { version: u32 },
    /// A write used it first.
    ImplicitFromWrite { first_seen_lsn: u64 },
}

impl RelationTypeOrigin {
    pub open spec fn tag_byte(self) -> u8 {
        match self {
            RelationTypeOrigin::SchemaDeclared { .. } => 0,
            RelationTypeOrigin::ImplicitFromWrite { .. } => 1,
        }
    }

    pub open spec fn payload_number(self) -> u64 {
        match self {
            RelationTypeOrigin::SchemaDeclared { version } => version as u64,
            RelationTypeOrigin::ImplicitFromWrite { first_seen_lsn } => first_seen_lsn,
        }
    }

    /// Tag 0 is a declared origin with the low 32 bits of the payload, tag 1 an
    /// implicit one. A tag that is not known reads as declared, of version 0.
    pub open spec fn decoded(tag: u8, payload: u64) -> RelationTypeOrigin {
        if tag == 1 {
            RelationTypeOrigin::ImplicitFromWrite { first_seen_lsn: payload }
        } else if tag == 0 {
            RelationTypeOrigin::SchemaDeclared { version: (payload % 0x1_0000_0000) as u32 }
        } else {
            RelationTypeOrigin::SchemaDeclared { version: 0 }
        }
    }

    #[must_use]
    pub fn tag(self) -> (r: u8)
        ensures
            r == self.tag_byte(),
    {
        match self {
            RelationTypeOrigin::SchemaDeclared { .. } => 0,
            RelationTypeOrigin::ImplicitFromWrite { .. } => 1,
        }
    }

    #[must_use]
    pub fn payload(self) -> (r: u64)
        ensures
            r == self.payload_number(),
    {
        match self {
            RelationTypeOrigin::SchemaDeclared { version } => version as u64,
            RelationTypeOrigin::ImplicitFromWrite { first_seen_lsn } => first_seen_lsn,
        }
    }

    #[must_use]
    pub fn decode(tag: u8, payload: u64) -> (r: Self)
        ensures
            r == RelationTypeOrigin::decoded(tag, payload),
    {
        match tag {
            0 => RelationTypeOrigin::SchemaDeclared { version: (payload % 0x1_0000_0000) as u32 },
            1 => RelationTypeOrigin::ImplicitFromWrite { first_seen_lsn: payload },
            _ => RelationTypeOrigin::SchemaDeclared { version: 0 },
        }
    }

    #[must_use]
    pub fn is_schema_declared(self) -> (r: bool)
        ensures
            r == (self is SchemaDeclared),
    {
        match self {
            RelationTypeOrigin::SchemaDeclared { .. } => true,
            _ => false,
        }
    }
}

/// An origin is read back from its tag and payload as it was.
pub proof fn lemma_relation_type_origin_round_trip(o: RelationTypeOrigin)
    ensures
        RelationTypeOrigin::decoded(o.tag_byte(), o.payload_number()) == o,
{
    if let RelationTypeOrigin::SchemaDeclared { version } = o {
        assert((version as u64) as u32 == version);
    }
}

/// How many relations of a type an entity can have.
#[derive(Clone, Copy, Debug, PartialEq, Eq, Structural)]
pub enum Cardinality {
    OneToOne,
    OneToMany,
    ManyToOne,
    ManyToMany,
}

impl Cardinality {
    pub open spec fn byte(self) -> u8 {
        match self {
            Cardinality::OneToOne => 0,
            Cardinality::OneToMany => 1,
            Cardinality::ManyToOne => 2,
            Cardinality::ManyToMany => 3,
        }
    }

    pub open spec fn of_byte(b: u8) -> Option<Cardinality> {
        if b == 0 {
            Some(Cardinality::OneToOne)
        } else if b == 1 {
            Some(Cardinality::OneToMany)
        } else if b == 2 {
            Some(Cardinality::ManyToOne)
        } else if b == 3 {
            Some(Cardinality::ManyToMany)
        } else {
            None
        }
    }

    pub fn as_u8(self) -> (r: u8)
        ensures
            r == self.byte(),
    {
        match self {
            Cardinality::OneToOne => 0,
            Cardinality::OneToMany => 1,
            Cardinality::ManyToOne => 2,
            Cardinality::ManyToMany => 3,
        }
    }

    pub fn from_u8(b: u8) -> (r: Option<Cardinality>)
        ensures
            r == Cardinality::of_byte(b),
    {
        match b {
            0 => Some(Cardinality::OneToOne),
            1 => Some(Cardinality::OneToMany),
            2 => Some(Cardinality::ManyToOne),
            3 => Some(Cardinality::ManyToMany),
            _ => None,
        }
    }
}

/// A relation type. `T` is `String` in one that is held and `Seq<char>` in one
/// that is spoken of.
#[derive(Clone, Debug, PartialEq)]
pub struct RelationType<T = String> {
    pub id: RelationTypeId,
    pub namespace: T,
    pub name: T,
    pub cardinality: Cardinality,
    pub is_symmetric: bool,
    /// The type of the entities it leads from; `None` for any.
    pub from_type: Option<EntityTypeId>,
    /// The type of the entities it leads to; `None` for any.
    pub to_type: Option<EntityTypeId>,
    pub schema_version: u32,
    pub description: T,
}

impl RelationType {
    pub open spec fn model(&self) -> RelationType<Seq<char>> {
        RelationType {
            id: self.id,
            namespace: self.namespace@,
            name: self.name@,
            cardinality: self.cardinality,
            is_symmetric: self.is_symmetric,
            from_type: self.from_type,
            to_type: self.to_type,
            schema_version: self.schema_version,
            description: self.description@,
        }
    }
}

/// A row of the `relation_types` table. Namespace and name together are unique.
#[derive(Clone, Debug, PartialEq)]
pub struct RelationTypeDefinition<T = String> {
    pub relation_type_id: u32,
    pub namespace: T,
    pub name: T,
    /// The byte of the [`Cardinality`].
    pub cardinality: u8,
    pub is_symmetric: u8,
    /// 0 for any.
    pub from_entity_type_id: u32,
    /// 0 for any.
    pub to_entity_type_id: u32,
    pub schema_version: u32,
    pub description: T,
    pub created_at_unix_nanos: u64,
    pub origin_tag: u8,
    pub origin_payload: u64,
}

impl Row for RelationTypeDefinition {
    type M = RelationTypeDefinition<Seq<char>>;

    open spec fn model(&self) -> RelationTypeDefinition<Seq<char>> {
        RelationTypeDefinition {
            relation_type_id: self.relation_type_id,
            namespace: self.namespace@,
            name: self.name@,
            cardinality: self.cardinality,
            is_symmetric: self.is_symmetric,
            from_entity_type_id: self.from_entity_type_id,
            to_entity_type_id: self.to_entity_type_id,
            schema_version: self.schema_version,
            description: self.description@,
            created_at_unix_nanos: self.created_at_unix_nanos,
            origin_tag: self.origin_tag,
            origin_payload: self.origin_payload,
        }
    }

    open spec fn cells(m: RelationTypeDefinition<Seq<char>>) -> Seq<CellModel> {
        seq![
            Cell::Int(m.relation_type_id as u64),
            text(m.namespace),
            text(m.name),
            Cell::Int(m.cardinality as u64),
            Cell::Int(m.is_symmetric as u64),
            Cell::Int(m.from_entity_type_id as u64),
            Cell::Int(m.to_entity_type_id as u64),
            Cell::Int(m.schema_version as u64),
            text(m.description),
            Cell::Int(m.created_at_unix_nanos),
            Cell::Int(m.origin_tag as u64),
            Cell::Int(m.origin_payload),
        ]
    }

    proof fn cells_injective(a: RelationTypeDefinition<Seq<char>>, b: RelationTypeDefinition<Seq<char>>) {
        broadcast use group_row_fields;

        let x = Self::cells(a);
        let y = Self::cells(b);
        assert(x[0] == y[0]
            && x[1] == y[1]
            && x[2] == y[2]
            && x[3] == y[3]
            && x[4] == y[4]
            && x[5] == y[5]
            && x[6] == y[6]
            && x[7] == y[7]
            && x[8] == y[8]
            && x[9] == y[9]
            && x[10] == y[10]
            && x[11] == y[11]);
    }

    fn to_cells(&self) -> (r: Vec<Cell<Vec<u8>>>) {
        let cells: Vec<Cell<Vec<u8>>> = vec![
            int_cell(self.relation_type_id as u64),
            text_cell(&self.namespace),
            text_cell(&self.name),
            int_cell(self.cardinality as u64),
            int_cell(self.is_symmetric as u64),
            int_cell(self.from_entity_type_id as u64),
            int_cell(self.to_entity_type_id as u64),
            int_cell(self.schema_version as u64),
            text_cell(&self.description),
            int_cell(self.created_at_unix_nanos),
            int_cell(self.origin_tag as u64),
            int_cell(self.origin_payload),
        ];
        proof {
            assert(cell_models(cells@) =~= Self::cells(self.model()));
        }
        cells
    }

    fn from_cells(cells: &Vec<Cell<Vec<u8>>>) -> (r: Option<Self>) {
        if cells.len() != 12 {
            proof {
                assert forall|m: RelationTypeDefinition<Seq<char>>| #[trigger] Self::cells(m) != cell_models(cells@) by {
                    assert(Self::cells(m).len() == 12);
                }
            }
            return None;
        }
        let relation_type_id = match u32_at(cells, 0) {
            Some(x) => x,
            None => return None,
        };
        let namespace = match text_at(cells, 1) {
            Some(x) => x,
            None => return None,
        };
        let name = match text_at(cells, 2) {
            Some(x) => x,
            None => return None,
        };
        let cardinality = match u8_at(cells, 3) {
            Some(x) => x,
            None => return None,
        };
        let is_symmetric = match u8_at(cells, 4) {
            Some(x) => x,
            None => return None,
        };
        let from_entity_type_id = match u32_at(cells, 5) {
            Some(x) => x,
            None => return None,
        };
        let to_entity_type_id = match u32_at(cells, 6) {
            Some(x) => x,
            None => return None,
        };
        let schema_version = match u32_at(cells, 7) {
            Some(x) => x,
            None => return None,
        };
        let description = match text_at(cells, 8) {
            Some(x) => x,
            None => return None,
        };
        let created_at_unix_nanos = match int_at(cells, 9) {
            Some(x) => x,
            None => return None,
        };
        let origin_tag = match u8_at(cells, 10) {
            Some(x) => x,
            None => return None,
        };
        let origin_payload = match int_at(cells, 11) {
            Some(x) => x,
            None => return None,
        };
        let row = RelationTypeDefinition {
            relation_type_id,
            namespace,
            name,
            cardinality,
            is_symmetric,
            from_entity_type_id,
            to_entity_type_id,
            schema_version,
            description,
            created_at_unix_nanos,
            origin_tag,
            origin_payload,
        };
        proof {
            assert(Self::cells(row.model()) =~= cell_models(cells@));
        }
        Some(row)
    }
}

/// A row as it is spoken of.
pub type RelationTypeModel = RelationTypeDefinition<Seq<char>>;

/// The entity type that a number stands for: 0 for any.
pub open spec fn decoded_entity_type(raw: u32) -> Option<EntityTypeId> {
    if raw == 0 {
        None
    } else {
        Some(EntityTypeId(raw))
    }
}

/// The number that stands for an entity type: 0 for any.
pub open spec fn encoded_entity_type(t: Option<EntityTypeId>) -> u32 {
    match t {
        Some(e) => e.0,
        None => 0,
    }
}

/// The entity type that a number stands for: 0 for any.
#[must_use]
pub fn decode_entity_type_id(raw: u32) -> (r: Option<EntityTypeId>)
    ensures
        r == decoded_entity_type(raw),
{
    if raw == 0 {
        None
    } else {
        Some(EntityTypeId(raw))
    }
}

/// The number that stands for an entity type: 0 for any.
#[must_use]
pub fn encode_entity_type_id(t: Option<EntityTypeId>) -> (r: u32)
    ensures
        r == encoded_entity_type(t),
{
    match t {
        Some(e) => e.0,
        None => 0,
    }
}

/// The row of a relation type.
pub open spec fn relation_type_row(t: RelationType<Seq<char>>, created_at_unix_nanos: u64, o: RelationTypeOrigin) -> RelationTypeModel {
    RelationTypeDefinition {
        relation_type_id: t.id.0,
        namespace: t.namespace,
        name: t.name,
        cardinality: t.cardinality.byte(),
        is_symmetric: if t.is_symmetric {
            1
        } else {
            0
        },
        from_entity_type_id: encoded_entity_type(t.from_type),
        to_entity_type_id: encoded_entity_type(t.to_type),
        schema_version: t.schema_version,
        description: t.description,
        created_at_unix_nanos,
        origin_tag: o.tag_byte(),
        origin_payload: o.payload_number(),
    }
}

/// The relation type of a row. A cardinality that is not known allows any
/// number.
pub open spec fn row_relation_type(m: RelationTypeModel) -> RelationType<Seq<char>> {
    RelationType {
        id: RelationTypeId(m.relation_type_id),
        namespace: m.namespace,
        name: m.name,
        cardinality: match Cardinality::of_byte(m.cardinality) {
            Some(c) => c,
            None => Cardinality::ManyToMany,
        },
        is_symmetric: m.is_symmetric != 0,
        from_type: decoded_entity_type(m.from_entity_type_id),
        to_type: decoded_entity_type(m.to_entity_type_id),
        schema_version: m.schema_version,
        description: m.description,
    }
}

impl RelationTypeDefinition {
    #[must_use]
    pub fn id(&self) -> (r: RelationTypeId)
        ensures
            r == RelationTypeId(self.relation_type_id),
    {
        RelationTypeId(self.relation_type_id)
    }

    #[must_use]
    pub fn cardinality(&self) -> (r: Option<Cardinality>)
        ensures
            r == Cardinality::of_byte(self.cardinality),
    {
        Cardinality::from_u8(self.cardinality)
    }

    #[must_use]
    pub fn is_symmetric(&self) -> (r: bool)
        ensures
            r == (self.is_symmetric != 0),
    {
        self.is_symmetric != 0
    }

    /// The row of a relation type that its schema declared.
    #[must_use]
    pub fn from_relation_type(t: &RelationType, created_at_unix_nanos: u64) -> (r: Self)
        ensures
            r.model() == relation_type_row(
                t.model(),
                created_at_unix_nanos,
                RelationTypeOrigin::SchemaDeclared { version: t.schema_version },
            ),
    {
        Self::from_relation_type_with_origin(
            t,
            created_at_unix_nanos,
            RelationTypeOrigin::SchemaDeclared { version: t.schema_version },
        )
    }

    /// The row of a relation type of an origin.
    #[must_use]
    pub fn from_relation_type_with_origin(t: &RelationType, created_at_unix_nanos: u64, origin: RelationTypeOrigin) -> (r:
        Self)
        ensures
            r.model() == relation_type_row(t.model(), created_at_unix_nanos, origin),
    {
        let is_symmetric: u8 = if t.is_symmetric {
            1
        } else {
            0
        };
        RelationTypeDefinition {
            relation_type_id: t.id.0,
            namespace: copy_text(&t.namespace),
            name: copy_text(&t.name),
            cardinality: t.cardinality.as_u8(),
            is_symmetric,
            from_entity_type_id: encode_entity_type_id(t.from_type),
            to_entity_type_id: encode_entity_type_id(t.to_type),
            schema_version: t.schema_version,
            description: copy_text(&t.description),
            created_at_unix_nanos,
            origin_tag: origin.tag(),
            origin_payload: origin.payload(),
        }
    }

    #[must_use]
    pub fn origin(&self) -> (r: RelationTypeOrigin)
        ensures
            r == RelationTypeOrigin::decoded(self.origin_tag, self.origin_payload),
    {
        RelationTypeOrigin::decode(self.origin_tag, self.origin_payload)
    }

    /// The relation type of the row.
    #[must_use]
    pub fn to_relation_type(&self) -> (r: RelationType)
        ensures
            r.model() == row_relation_type(self.model()),
    {
        let cardinality = match Cardinality::from_u8(self.cardinality) {
            Some(c) => c,
            None => Cardinality::ManyToMany,
        };
        RelationType {
            id: self.id(),
            namespace: copy_text(&self.namespace),
            name: copy_text(&self.name),
            cardinality,
            is_symmetric: self.is_symmetric != 0,
            from_type: decode_entity_type_id(self.from_entity_type_id),
            to_type: decode_entity_type_id(self.to_entity_type_id),
            schema_version: self.schema_version,
            description: copy_text(&self.description),
        }
    }
}

/// A relation type is read back from its row as it was, where it does not name
/// the entity type 0, which stands for any.
pub proof fn lemma_relation_type_round_trip(t: RelationType<Seq<char>>, at: u64, o: RelationTypeOrigin)
    requires
        t.from_type != Some(EntityTypeId(0)),
        t.to_type != Some(EntityTypeId(0)),
    ensures
        row_relation_type(relation_type_row(t, at, o)) == t,
{
}

} // verus!
