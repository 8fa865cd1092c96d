//! Namespaces.

use vstd::prelude::*;

use crate::cells::{cell_models, Cell};
use crate::row::{group_row_fields, int_at, int_cell, text, text_at, text_cell, u32_at, CellModel, Row};
use crate::types::NamespaceId;

verus! {

/// A row of the `namespaces` table.
#[derive(Clone, Debug, PartialEq)]
pub struct NamespaceDefinition<T = String> {
    pub namespace_id: u32,
    pub name: T,
    pub created_at_unix_nanos: u64,
}

impl Row for NamespaceDefinition {
    type M = NamespaceDefinition<Seq<char>>;

    open spec fn model(&self) -> NamespaceDefinition<Seq<char>> {
        NamespaceDefinition {
            namespace_id: self.namespace_id,
            name: self.name@,
            created_at_unix_nanos: self.created_at_unix_nanos,
        }
    }

    open spec fn cells(m: NamespaceDefinition<Seq<char>>) -> Seq<CellModel> {
        seq![
            Cell::Int(m.namespace_id as u64),
            text(m.name),
            Cell::Int(m.created_at_unix_nanos),
        ]
    }

    proof fn cells_injective(a: NamespaceDefinition<Seq<char>>, b: NamespaceDefinition<Seq<char>>) {
        broadcast use group_row_fields;

        let x = Self::cells(a);
        let y = Self::cells(b);
        assert(x[0] == y[0]
            && x[1] == y[1]
            && x[2] == y[2]);
    }

    fn to_cells(&self) -> (r: Vec<Cell<Vec<u8>>>) {
        let cells: Vec<Cell<Vec<u8>>> = vec![
            int_cell(self.namespace_id as u64),
            text_cell(&self.name),
            int_cell(self.created_at_unix_nanos),
        ];
        proof {
            assert(cell_models(cells@) =~= Self::cells(self.model()));
        }
        cells
    }

    fn from_cells(cells: &Vec<Cell<Vec<u8>>>) -> (r: Option<Self>) {
        if cells.len() != 3 {
            proof {
                assert forall|m: NamespaceDefinition<Seq<char>>| #[trigger] Self::cells(m) != cell_models(cells@) by {
                    assert(Self::cells(m).len() == 3);
                }
            }
            return None;
        }
        let namespace_id = match u32_at(cells, 0) {
            Some(x) => x,
            None => return None,
        };
        let name = match text_at(cells, 1) {
            Some(x) => x,
            None => return None,
        };
        let created_at_unix_nanos = match int_at(cells, 2) {
            Some(x) => x,
            None => return None,
        };
        let row = NamespaceDefinition {
            namespace_id,
            name,
            created_at_unix_nanos,
        };
        proof {
            assert(Self::cells(row.model()) =~= cell_models(cells@));
        }
        Some(row)
    }
}

impl NamespaceDefinition {
    #[must_use]
    pub fn new(id: NamespaceId, name: String, created_at_unix_nanos: u64) -> (r: Self)
        ensures
            r.model() == (NamespaceDefinition::<Seq<char>> { namespace_id: id.0, name: name@, created_at_unix_nanos }),
    {
        NamespaceDefinition { namespace_id: id.0, name, created_at_unix_nanos }
    }

    #[must_use]
    pub fn id(&self) -> (r: NamespaceId)
        ensures
            r == NamespaceId(self.namespace_id),
    {
        NamespaceId(self.namespace_id)
    }
}

} // verus!
