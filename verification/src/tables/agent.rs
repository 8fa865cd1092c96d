//! Agents.

use vstd::prelude::*;

use crate::cells::{cell_models, Cell};
use crate::row::{
    array_at, blob_cell, group_row_fields, int_at, int_cell, lemma_opt_text_injective, opt_text, opt_text_at,
    opt_text_cell, opt_view, u32_at, CellModel, Row,
};
use crate::types::AgentId;

verus! {

/// A row of the `agents` table.
#[derive(Clone, Debug, PartialEq)]
pub struct AgentMetadata<T = String> {
    pub agent_id_bytes: [u8; 16],
    pub display_name: Option<T>,
    pub created_at_unix_nanos: u64,
    pub last_active_at_unix_nanos: u64,
    /// Reconciled from time to time.
    pub memory_count: u64,
    /// Reconciled from time to time.
    pub context_count: u32,
}

impl Row for AgentMetadata {
    type M = AgentMetadata<Seq<char>>;

    open spec fn model(&self) -> AgentMetadata<Seq<char>> {
        AgentMetadata {
            agent_id_bytes: self.agent_id_bytes,
            display_name: opt_view(self.display_name),
            created_at_unix_nanos: self.created_at_unix_nanos,
            last_active_at_unix_nanos: self.last_active_at_unix_nanos,
            memory_count: self.memory_count,
            context_count: self.context_count,
        }
    }

    open spec fn cells(m: AgentMetadata<Seq<char>>) -> Seq<CellModel> {
        seq![
            Cell::Blob(m.agent_id_bytes@),
            opt_text(m.display_name),
            Cell::Int(m.created_at_unix_nanos),
            Cell::Int(m.last_active_at_unix_nanos),
            Cell::Int(m.memory_count),
            Cell::Int(m.context_count as u64),
        ]
    }

    proof fn cells_injective(a: AgentMetadata<Seq<char>>, b: AgentMetadata<Seq<char>>) {
        broadcast use group_row_fields;

        let x = Self::cells(a);
        let y = Self::cells(b);
        assert(x[0] == y[0]
            && x[1] == y[1]
            && x[2] == y[2]
            && x[3] == y[3]
            && x[4] == y[4]
            && x[5] == y[5]);
        assert(a.agent_id_bytes@ == b.agent_id_bytes@);
        lemma_opt_text_injective(a.display_name, b.display_name);
    }

    fn to_cells(&self) -> (r: Vec<Cell<Vec<u8>>>) {
        let cells: Vec<Cell<Vec<u8>>> = vec![
            blob_cell(self.agent_id_bytes.as_slice()),
            opt_text_cell(&self.display_name),
            int_cell(self.created_at_unix_nanos),
            int_cell(self.last_active_at_unix_nanos),
            int_cell(self.memory_count),
            int_cell(self.context_count as u64),
        ];
        proof {
            assert(cell_models(cells@) =~= Self::cells(self.model()));
        }
        cells
    }

    fn from_cells(cells: &Vec<Cell<Vec<u8>>>) -> (r: Option<Self>) {
        if cells.len() != 6 {
            proof {
                assert forall|m: AgentMetadata<Seq<char>>| #[trigger] Self::cells(m) != cell_models(cells@) by {
                    assert(Self::cells(m).len() == 6);
                }
            }
            return None;
        }
        let agent_id_bytes = match array_at::<16>(cells, 0) {
            Some(x) => x,
            None => return None,
        };
        let display_name = match opt_text_at(cells, 1) {
            Some(x) => x,
            None => return None,
        };
        let created_at_unix_nanos = match int_at(cells, 2) {
            Some(x) => x,
            None => return None,
        };
        let last_active_at_unix_nanos = match int_at(cells, 3) {
            Some(x) => x,
            None => return None,
        };
        let memory_count = match int_at(cells, 4) {
            Some(x) => x,
            None => return None,
        };
        let context_count = match u32_at(cells, 5) {
            Some(x) => x,
            None => return None,
        };
        let row = AgentMetadata {
            agent_id_bytes,
            display_name,
            created_at_unix_nanos,
            last_active_at_unix_nanos,
            memory_count,
            context_count,
        };
        proof {
            assert(Self::cells(row.model()) =~= cell_models(cells@));
        }
        Some(row)
    }
}

impl AgentMetadata {
    /// An agent that was just seen for the first time.
    #[must_use]
    pub fn new(agent_id: AgentId, display_name: Option<String>, created_at_unix_nanos: u64) -> (r: Self)
        ensures
            r.model() == (AgentMetadata::<Seq<char>> {
                agent_id_bytes: agent_id.0,
                display_name: opt_view(display_name),
                created_at_unix_nanos,
                last_active_at_unix_nanos: created_at_unix_nanos,
                memory_count: 0,
                context_count: 0,
            }),
    {
        AgentMetadata {
            agent_id_bytes: agent_id.0,
            display_name,
            created_at_unix_nanos,
            last_active_at_unix_nanos: created_at_unix_nanos,
            memory_count: 0,
            context_count: 0,
        }
    }

    #[must_use]
    pub fn agent_id(&self) -> (r: AgentId)
        ensures
            r == AgentId(self.agent_id_bytes),
    {
        AgentId(self.agent_id_bytes)
    }
}

} // verus!
