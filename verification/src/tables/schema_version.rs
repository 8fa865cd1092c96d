//! Versions of schemas.

use vstd::prelude::*;

use crate::cells::{cell_models, Cell};
use crate::row::{
    blob_cell, bytes_at, group_row_fields, int_at, int_cell, lemma_opt_text_injective, opt_text, opt_text_at,
    opt_text_cell, opt_view, text, text_at, text_cell, u32_at, CellModel, Row,
};

verus! {

/// The version of the rules that stored schemas were checked by.
pub const VALIDATOR_VERSION: u32 = 1;

/// A row of the `schema_versions` table.
#[derive(Clone, Debug, PartialEq)]
pub struct SchemaVersionRow<T = String, B = Vec<u8>> {
    pub namespace: T,
    pub version: u32,
    pub uploaded_at_unix_nanos: u64,
    /// The schema, serialised.
    pub source: B,
    /// The schema as it was written, if it came as text.
    pub source_text: Option<T>,
    pub validator_version: u32,
}

impl Row for SchemaVersionRow {
    type M = SchemaVersionRow<Seq<char>, Seq<u8>>;

    open spec fn model(&self) -> SchemaVersionRow<Seq<char>, Seq<u8>> {
        SchemaVersionRow {
            namespace: self.namespace@,
            version: self.version,
            uploaded_at_unix_nanos: self.uploaded_at_unix_nanos,
            source: self.source@,
            source_text: opt_view(self.source_text),
            validator_version: self.validator_version,
        }
    }

    open spec fn cells(m: SchemaVersionRow<Seq<char>, Seq<u8>>) -> Seq<CellModel> {
        seq![
            text(m.namespace),
            Cell::Int(m.version as u64),
            Cell::Int(m.uploaded_at_unix_nanos),
            Cell::Blob(m.source),
            opt_text(m.source_text),
            Cell::Int(m.validator_version as u64),
        ]
    }

    proof fn cells_injective(a: SchemaVersionRow<Seq<char>, Seq<u8>>, b: SchemaVersionRow<Seq<char>, Seq<u8>>) {
        broadcast use group_row_fields;

        let x = Self::cells(a);
        let y = Self::cells(b);
        assert(x[0] == y[0]
            && x[1] == y[1]
            && x[2] == y[2]
            && x[3] == y[3]
            && x[4] == y[4]
            && x[5] == y[5]);
        lemma_opt_text_injective(a.source_text, b.source_text);
    }

    fn to_cells(&self) -> (r: Vec<Cell<Vec<u8>>>) {
        let cells: Vec<Cell<Vec<u8>>> = vec![
            text_cell(&self.namespace),
            int_cell(self.version as u64),
            int_cell(self.uploaded_at_unix_nanos),
            blob_cell(self.source.as_slice()),
            opt_text_cell(&self.source_text),
            int_cell(self.validator_version as u64),
        ];
        proof {
            assert(cell_models(cells@) =~= Self::cells(self.model()));
        }
        cells
    }

    fn from_cells(cells: &Vec<Cell<Vec<u8>>>) -> (r: Option<Self>) {
        if cells.len() != 6 {
            proof {
                assert forall|m: SchemaVersionRow<Seq<char>, Seq<u8>>| #[trigger] Self::cells(m) != cell_models(cells@) by {
                    assert(Self::cells(m).len() == 6);
                }
            }
            return None;
        }
        let namespace = match text_at(cells, 0) {
            Some(x) => x,
            None => return None,
        };
        let version = match u32_at(cells, 1) {
            Some(x) => x,
            None => return None,
        };
        let uploaded_at_unix_nanos = match int_at(cells, 2) {
            Some(x) => x,
            None => return None,
        };
        let source = match bytes_at(cells, 3) {
            Some(x) => x,
            None => return None,
        };
        let source_text = match opt_text_at(cells, 4) {
            Some(x) => x,
            None => return None,
        };
        let validator_version = match u32_at(cells, 5) {
            Some(x) => x,
            None => return None,
        };
        let row = SchemaVersionRow {
            namespace,
            version,
            uploaded_at_unix_nanos,
            source,
            source_text,
            validator_version,
        };
        proof {
            assert(Self::cells(row.model()) =~= cell_models(cells@));
        }
        Some(row)
    }
}

/// A row as it is spoken of.
pub type SchemaVersionModel = SchemaVersionRow<Seq<char>, Seq<u8>>;

} // verus!
