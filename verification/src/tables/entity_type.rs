//! Entity types.

use vstd::prelude::*;

use crate::cells::{cell_models, Cell};
use crate::row::{
    blob_cell, bytes_at, group_row_fields, int_at, int_cell, text, text_at, text_cell, u32_at, CellModel, Row,
};
use crate::types::EntityTypeId;

verus! {

/// A row of the `entity_types` table.
#[derive(Clone, Debug, PartialEq)]
pub struct EntityTypeDefinition<T = String, B = Vec<u8>> {
    pub entity_type_id: u32,
    pub name: T,
    /// The attributes, opaque here.
    pub schema_blob: B,
    pub created_at_unix_nanos: u64,
}

impl Row for EntityTypeDefinition {
    type M = EntityTypeDefinition<Seq<char>, Seq<u8>>;

    open spec fn model(&self) -> EntityTypeDefinition<Seq<char>, Seq<u8>> {
        EntityTypeDefinition {
            entity_type_id: self.entity_type_id,
            name: self.name@,
            schema_blob: self.schema_blob@,
            created_at_unix_nanos: self.created_at_unix_nanos,
        }
    }

    open spec fn cells(m: EntityTypeDefinition<Seq<char>, Seq<u8>>) -> Seq<CellModel> {
        seq![
            Cell::Int(m.entity_type_id as u64),
            text(m.name),
            Cell::Blob(m.schema_blob),
            Cell::Int(m.created_at_unix_nanos),
        ]
    }

    proof fn cells_injective(a: EntityTypeDefinition<Seq<char>, Seq<u8>>, b: EntityTypeDefinition<Seq<char>, Seq<u8>>) {
        broadcast use group_row_fields;

        let x = Self::cells(a);
        let y = Self::cells(b);
        assert(x[0] == y[0]
            && x[1] == y[1]
            && x[2] == y[2]
            && x[3] == y[3]);
    }

    fn to_cells(&self) -> (r: Vec<Cell<Vec<u8>>>) {
        let cells: Vec<Cell<Vec<u8>>> = vec![
            int_cell(self.entity_type_id as u64),
            text_cell(&self.name),
            blob_cell(self.schema_blob.as_slice()),
            int_cell(self.created_at_unix_nanos),
        ];
        proof {
            assert(cell_models(cells@) =~= Self::cells(self.model()));
        }
        cells
    }

    fn from_cells(cells: &Vec<Cell<Vec<u8>>>) -> (r: Option<Self>) {
        if cells.len() != 4 {
            proof {
                assert forall|m: EntityTypeDefinition<Seq<char>, Seq<u8>>| #[trigger] Self::cells(m) != cell_models(cells@) by {
                    assert(Self::cells(m).len() == 4);
                }
            }
            return None;
        }
        let entity_type_id = match u32_at(cells, 0) {
            Some(x) => x,
            None => return None,
        };
        let name = match text_at(cells, 1) {
            Some(x) => x,
            None => return None,
        };
        let schema_blob = match bytes_at(cells, 2) {
            Some(x) => x,
            None => return None,
        };
        let created_at_unix_nanos = match int_at(cells, 3) {
            Some(x) => x,
            None => return None,
        };
        let row = EntityTypeDefinition {
            entity_type_id,
            name,
            schema_blob,
            created_at_unix_nanos,
        };
        proof {
            assert(Self::cells(row.model()) =~= cell_models(cells@));
        }
        Some(row)
    }
}

/// A definition as it is spoken of.
pub type EntityTypeModel = EntityTypeDefinition<Seq<char>, Seq<u8>>;

impl EntityTypeDefinition {
    #[must_use]
    pub fn new(id: EntityTypeId, name: String, schema_blob: Vec<u8>, created_at_unix_nanos: u64) -> (r: Self)
        ensures
            r.model() == (EntityTypeModel {
                entity_type_id: id.0,
                name: name@,
                schema_blob: schema_blob@,
                created_at_unix_nanos,
            }),
    {
        EntityTypeDefinition { entity_type_id: id.0, name, schema_blob, created_at_unix_nanos }
    }

    #[must_use]
    pub fn id(&self) -> (r: EntityTypeId)
        ensures
            r == EntityTypeId(self.entity_type_id),
    {
        EntityTypeId(self.entity_type_id)
    }
}

} // verus!
