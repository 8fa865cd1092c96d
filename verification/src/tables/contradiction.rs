//! The durable record of facts that disagree.

use vstd::prelude::*;

use crate::bytes::{be, put_be, put_bytes};
use crate::cells::{cell_models, Cell};
use crate::row::{
    array_at, blob_cell, group_row_fields, int_at, int_cell, lemma_packed_injective, list, list_at, list_cell, opt_int,
    opt_int_at, opt_int_cell, u32_at, u8_at, CellModel, Row,
};
use crate::types::AuditId;

pub mod contradiction_outcome;

verus! {

/// A row of the `statement_contradiction_audit` table: facts about one subject and
/// predicate that disagree. There is at most one row for each pair.
#[derive(Clone, Debug, PartialEq)]
pub struct ContradictionAudit<L = Vec<[u8; 16]>> {
    /// Given at first detection and kept while the row is open.
    pub audit_id_bytes: [u8; 16],
    pub subject_bytes: [u8; 16],
    pub predicate_id: u32,
    /// The statements that disagree. Pruned to the live ones whenever the row is
    /// checked again.
    pub contradicting_statement_ids: L,
    pub detected_at_unix_nanos: u64,
    /// When the contradiction was found resolved; `None` while it is pending.
    pub resolved_at_unix_nanos: Option<u64>,
    /// A constant of [`contradiction_outcome`].
    pub outcome: u8,
}

impl Row for ContradictionAudit {
    type M = ContradictionAudit<Seq<[u8; 16]>>;

    open spec fn model(&self) -> ContradictionAudit<Seq<[u8; 16]>> {
        ContradictionAudit {
            audit_id_bytes: self.audit_id_bytes,
            subject_bytes: self.subject_bytes,
            predicate_id: self.predicate_id,
            contradicting_statement_ids: self.contradicting_statement_ids@,
            detected_at_unix_nanos: self.detected_at_unix_nanos,
            resolved_at_unix_nanos: self.resolved_at_unix_nanos,
            outcome: self.outcome,
        }
    }

    open spec fn cells(m: ContradictionAudit<Seq<[u8; 16]>>) -> Seq<CellModel> {
        seq![
            Cell::Blob(m.audit_id_bytes@),
            Cell::Blob(m.subject_bytes@),
            Cell::Int(m.predicate_id as u64),
            list(m.contradicting_statement_ids),
            Cell::Int(m.detected_at_unix_nanos),
            opt_int(m.resolved_at_unix_nanos),
            Cell::Int(m.outcome as u64),
        ]
    }

    proof fn cells_injective(a: ContradictionAudit<Seq<[u8; 16]>>, b: ContradictionAudit<Seq<[u8; 16]>>) {
        broadcast use group_row_fields;

        let x = Self::cells(a);
        let y = Self::cells(b);
        assert(x[0] == y[0]
            && x[1] == y[1]
            && x[2] == y[2]
            && x[3] == y[3]
            && x[4] == y[4]
            && x[5] == y[5]
            && x[6] == y[6]);
        assert(a.audit_id_bytes@ == b.audit_id_bytes@);
        assert(a.subject_bytes@ == b.subject_bytes@);
        lemma_packed_injective(a.contradicting_statement_ids, b.contradicting_statement_ids);
    }

    fn to_cells(&self) -> (r: Vec<Cell<Vec<u8>>>) {
        let cells: Vec<Cell<Vec<u8>>> = vec![
            blob_cell(self.audit_id_bytes.as_slice()),
            blob_cell(self.subject_bytes.as_slice()),
            int_cell(self.predicate_id as u64),
            list_cell(&self.contradicting_statement_ids),
            int_cell(self.detected_at_unix_nanos),
            opt_int_cell(self.resolved_at_unix_nanos),
            int_cell(self.outcome as u64),
        ];
        proof {
            assert(cell_models(cells@) =~= Self::cells(self.model()));
        }
        cells
    }

    fn from_cells(cells: &Vec<Cell<Vec<u8>>>) -> (r: Option<Self>) {
        if cells.len() != 7 {
            proof {
                assert forall|m: ContradictionAudit<Seq<[u8; 16]>>| #[trigger] Self::cells(m) != cell_models(cells@) by {
                    assert(Self::cells(m).len() == 7);
                }
            }
            return None;
        }
        let audit_id_bytes = match array_at::<16>(cells, 0) {
            Some(x) => x,
            None => return None,
        };
        let subject_bytes = match array_at::<16>(cells, 1) {
            Some(x) => x,
            None => return None,
        };
        let predicate_id = match u32_at(cells, 2) {
            Some(x) => x,
            None => return None,
        };
        let contradicting_statement_ids = match list_at::<[u8; 16]>(cells, 3) {
            Some(x) => x,
            None => return None,
        };
        let detected_at_unix_nanos = match int_at(cells, 4) {
            Some(x) => x,
            None => return None,
        };
        let resolved_at_unix_nanos = match opt_int_at(cells, 5) {
            Some(x) => x,
            None => return None,
        };
        let outcome = match u8_at(cells, 6) {
            Some(x) => x,
            None => return None,
        };
        let row = ContradictionAudit {
            audit_id_bytes,
            subject_bytes,
            predicate_id,
            contradicting_statement_ids,
            detected_at_unix_nanos,
            resolved_at_unix_nanos,
            outcome,
        };
        proof {
            assert(Self::cells(row.model()) =~= cell_models(cells@));
        }
        Some(row)
    }
}

/// An audit row as it is spoken of.
pub type ContradictionModel = ContradictionAudit<Seq<[u8; 16]>>;

impl ContradictionAudit {
    #[must_use]
    pub fn audit_id(&self) -> (r: AuditId)
        ensures
            r == AuditId(self.audit_id_bytes),
    {
        AuditId(self.audit_id_bytes)
    }
}

/// `statement_contradiction_audit`: subject, predicate.
pub open spec fn contradiction_key(subject: [u8; 16], predicate: u32) -> Seq<u8> {
    Seq::<u8>::empty() + subject@ + be(predicate as nat, 4)
}

pub fn make_contradiction_key(subject: &[u8; 16], predicate: u32) -> (r: Vec<u8>)
    ensures
        r@ == contradiction_key(*subject, predicate),
{
    let mut k: Vec<u8> = Vec::new();
    put_bytes(&mut k, subject.as_slice());
    put_be(&mut k, predicate as u64, 4);
    k
}

} // verus!
