//! Proposals to merge two entities, for review.

use vstd::prelude::*;

use crate::bytes::put_bytes;
use crate::cells::{cell_models, Cell};
use crate::row::{array_at, blob_cell, group_row_fields, int_at, int_cell, u32_at, u8_at, CellModel, Row};
use crate::types::F32;

pub mod proposal_status;
pub mod proposal_tier;

verus! {

/// A row of the `merge_review_queue` table: two entities that may be one.
#[derive(Clone, Copy, Debug, PartialEq)]
pub struct MergeReviewProposal {
    pub proposal_id: [u8; 16],
    /// The entity that was created.
    pub source_entity: [u8; 16],
    /// The entity that was there, into which the other would be merged.
    pub candidate_entity: [u8; 16],
    /// How alike they were when the proposal was made.
    pub confidence: F32,
    /// See [`proposal_tier`].
    pub tier_that_proposed: u8,
    pub proposed_at_unix_nanos: u64,
    /// See [`proposal_status`].
    pub status: u8,
    /// Zero while the proposal is pending.
    pub resolved_at_unix_nanos: u64,
    /// How alike they were when last looked at; zero until then.
    pub last_recheck_confidence: F32,
    /// When they were last looked at; zero until then.
    pub last_recheck_unix_nanos: u64,
}

impl Row for MergeReviewProposal {
    type M = MergeReviewProposal;

    open spec fn model(&self) -> MergeReviewProposal {
        *self
    }

    open spec fn cells(m: MergeReviewProposal) -> Seq<CellModel> {
        seq![
            Cell::Blob(m.proposal_id@),
            Cell::Blob(m.source_entity@),
            Cell::Blob(m.candidate_entity@),
            Cell::Int(m.confidence.bits as u64),
            Cell::Int(m.tier_that_proposed as u64),
            Cell::Int(m.proposed_at_unix_nanos),
            Cell::Int(m.status as u64),
            Cell::Int(m.resolved_at_unix_nanos),
            Cell::Int(m.last_recheck_confidence.bits as u64),
            Cell::Int(m.last_recheck_unix_nanos),
        ]
    }

    proof fn cells_injective(a: MergeReviewProposal, b: MergeReviewProposal) {
        broadcast use group_row_fields;

        let x = Self::cells(a);
        let y = Self::cells(b);
        assert(x[0] == y[0]
            && x[1] == y[1]
            && x[2] == y[2]
            && x[3] == y[3]
            && x[4] == y[4]
            && x[5] == y[5]
            && x[6] == y[6]
            && x[7] == y[7]
            && x[8] == y[8]
            && x[9] == y[9]);
        assert(a.proposal_id@ == b.proposal_id@);
        assert(a.source_entity@ == b.source_entity@);
        assert(a.candidate_entity@ == b.candidate_entity@);
    }

    fn to_cells(&self) -> (r: Vec<Cell<Vec<u8>>>) {
        let cells: Vec<Cell<Vec<u8>>> = vec![
            blob_cell(self.proposal_id.as_slice()),
            blob_cell(self.source_entity.as_slice()),
            blob_cell(self.candidate_entity.as_slice()),
            int_cell(self.confidence.bits as u64),
            int_cell(self.tier_that_proposed as u64),
            int_cell(self.proposed_at_unix_nanos),
            int_cell(self.status as u64),
            int_cell(self.resolved_at_unix_nanos),
            int_cell(self.last_recheck_confidence.bits as u64),
            int_cell(self.last_recheck_unix_nanos),
        ];
        proof {
            assert(cell_models(cells@) =~= Self::cells(self.model()));
        }
        cells
    }

    fn from_cells(cells: &Vec<Cell<Vec<u8>>>) -> (r: Option<Self>) {
        if cells.len() != 10 {
            proof {
                assert forall|m: MergeReviewProposal| #[trigger] Self::cells(m) != cell_models(cells@) by {
                    assert(Self::cells(m).len() == 10);
                }
            }
            return None;
        }
        let proposal_id = match array_at::<16>(cells, 0) {
            Some(x) => x,
            None => return None,
        };
        let source_entity = match array_at::<16>(cells, 1) {
            Some(x) => x,
            None => return None,
        };
        let candidate_entity = match array_at::<16>(cells, 2) {
            Some(x) => x,
            None => return None,
        };
        let confidence = match u32_at(cells, 3) {
            Some(x) => F32 { bits: x },
            None => return None,
        };
        let tier_that_proposed = match u8_at(cells, 4) {
            Some(x) => x,
            None => return None,
        };
        let proposed_at_unix_nanos = match int_at(cells, 5) {
            Some(x) => x,
            None => return None,
        };
        let status = match u8_at(cells, 6) {
            Some(x) => x,
            None => return None,
        };
        let resolved_at_unix_nanos = match int_at(cells, 7) {
            Some(x) => x,
            None => return None,
        };
        let last_recheck_confidence = match u32_at(cells, 8) {
            Some(x) => F32 { bits: x },
            None => return None,
        };
        let last_recheck_unix_nanos = match int_at(cells, 9) {
            Some(x) => x,
            None => return None,
        };
        let row = MergeReviewProposal {
            proposal_id,
            source_entity,
            candidate_entity,
            confidence,
            tier_that_proposed,
            proposed_at_unix_nanos,
            status,
            resolved_at_unix_nanos,
            last_recheck_confidence,
            last_recheck_unix_nanos,
        };
        proof {
            assert(Self::cells(row.model()) =~= cell_models(cells@));
        }
        Some(row)
    }
}

/// A proposal that was just made.
pub open spec fn pending_proposal(
    proposal_id: [u8; 16],
    source_entity: [u8; 16],
    candidate_entity: [u8; 16],
    confidence: F32,
    tier_that_proposed: u8,
    now_unix_nanos: u64,
) -> MergeReviewProposal {
    MergeReviewProposal {
        proposal_id,
        source_entity,
        candidate_entity,
        confidence,
        tier_that_proposed,
        proposed_at_unix_nanos: now_unix_nanos,
        status: proposal_status::PENDING,
        resolved_at_unix_nanos: 0,
        last_recheck_confidence: F32 { bits: 0 },
        last_recheck_unix_nanos: 0,
    }
}

impl MergeReviewProposal {
    /// A proposal that was just made.
    #[must_use]
    pub fn new_pending(
        proposal_id: [u8; 16],
        source_entity: [u8; 16],
        candidate_entity: [u8; 16],
        confidence: F32,
        tier_that_proposed: u8,
        now_unix_nanos: u64,
    ) -> (r: Self)
        ensures
            r == pending_proposal(
                proposal_id,
                source_entity,
                candidate_entity,
                confidence,
                tier_that_proposed,
                now_unix_nanos,
            ),
    {
        MergeReviewProposal {
            proposal_id,
            source_entity,
            candidate_entity,
            confidence,
            tier_that_proposed,
            proposed_at_unix_nanos: now_unix_nanos,
            status: proposal_status::PENDING,
            resolved_at_unix_nanos: 0,
            last_recheck_confidence: F32 { bits: 0 },
            last_recheck_unix_nanos: 0,
        }
    }

    #[must_use]
    pub fn is_pending(&self) -> (r: bool)
        ensures
            r == (self.status == proposal_status::PENDING),
    {
        self.status == proposal_status::PENDING
    }

    /// Whether the proposal was decided.
    #[must_use]
    pub fn is_terminal(&self) -> (r: bool)
        ensures
            r == (self.status != proposal_status::PENDING),
    {
        !self.is_pending()
    }
}

/// The key of a proposal in the index by status.
pub open spec fn status_key(status: u8, proposal_id: [u8; 16]) -> Seq<u8> {
    seq![status] + proposal_id@
}

/// The key of a proposal in the index by status.
pub fn make_status_key(status: u8, proposal_id: [u8; 16]) -> (r: Vec<u8>)
    ensures
        r@ == status_key(status, proposal_id),
{
    let mut k: Vec<u8> = Vec::new();
    k.push(status);
    put_bytes(&mut k, proposal_id.as_slice());
    proof {
        assert(k@ =~= status_key(status, proposal_id));
    }
    k
}

} // verus!
