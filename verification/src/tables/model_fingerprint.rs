//! The embedding models that were seen, by fingerprint.

use vstd::prelude::*;

use crate::cells::{cell_models, Cell};
use crate::row::{group_row_fields, int_at, int_cell, text, text_at, text_cell, CellModel, Row};

verus! {

/// A row of the `model_fingerprints` table: an embedding model that was seen.
#[derive(Clone, Debug, PartialEq)]
pub struct ModelInfo<T = String> {
    /// For people; the fingerprint identifies the model.
    pub model_name: T,
    /// When the model was first seen.
    pub seen_at_unix_nanos: u64,
    pub memory_count_at_fingerprint: u64,
}

impl Row for ModelInfo {
    type M = ModelInfo<Seq<char>>;

    open spec fn model(&self) -> ModelInfo<Seq<char>> {
        ModelInfo {
            model_name: self.model_name@,
            seen_at_unix_nanos: self.seen_at_unix_nanos,
            memory_count_at_fingerprint: self.memory_count_at_fingerprint,
        }
    }

    open spec fn cells(m: ModelInfo<Seq<char>>) -> Seq<CellModel> {
        seq![
            text(m.model_name),
            Cell::Int(m.seen_at_unix_nanos),
            Cell::Int(m.memory_count_at_fingerprint),
        ]
    }

    proof fn cells_injective(a: ModelInfo<Seq<char>>, b: ModelInfo<Seq<char>>) {
        broadcast use group_row_fields;

        let x = Self::cells(a);
        let y = Self::cells(b);
        assert(x[0] == y[0]
            && x[1] == y[1]
            && x[2] == y[2]);
    }

    fn to_cells(&self) -> (r: Vec<Cell<Vec<u8>>>) {
        let cells: Vec<Cell<Vec<u8>>> = vec![
            text_cell(&self.model_name),
            int_cell(self.seen_at_unix_nanos),
            int_cell(self.memory_count_at_fingerprint),
        ];
        proof {
            assert(cell_models(cells@) =~= Self::cells(self.model()));
        }
        cells
    }

    fn from_cells(cells: &Vec<Cell<Vec<u8>>>) -> (r: Option<Self>) {
        if cells.len() != 3 {
            proof {
                assert forall|m: ModelInfo<Seq<char>>| #[trigger] Self::cells(m) != cell_models(cells@) by {
                    assert(Self::cells(m).len() == 3);
                }
            }
            return None;
        }
        let model_name = match text_at(cells, 0) {
            Some(x) => x,
            None => return None,
        };
        let seen_at_unix_nanos = match int_at(cells, 1) {
            Some(x) => x,
            None => return None,
        };
        let memory_count_at_fingerprint = match int_at(cells, 2) {
            Some(x) => x,
            None => return None,
        };
        let row = ModelInfo {
            model_name,
            seen_at_unix_nanos,
            memory_count_at_fingerprint,
        };
        proof {
            assert(Self::cells(row.model()) =~= cell_models(cells@));
        }
        Some(row)
    }
}

impl ModelInfo {
    /// A model that no memory counts for yet.
    #[must_use]
    pub fn new(model_name: String, seen_at_unix_nanos: u64) -> (r: Self)
        ensures
            r.model() == (ModelInfo::<Seq<char>> {
                model_name: model_name@,
                seen_at_unix_nanos,
                memory_count_at_fingerprint: 0,
            }),
    {
        ModelInfo { model_name, seen_at_unix_nanos, memory_count_at_fingerprint: 0 }
    }
}

} // verus!
