//! The history of merges of entities.

use vstd::prelude::*;

use crate::bytes::{
    be, lemma_be_len, lemma_be_order, lemma_lex_join, lemma_pow256_values, put_be, put_bytes, zero_bytes, zeros,
};
use crate::cells::{cell_fits, cell_models, Cell};
use crate::order::lex_lt;
use crate::row::{
    array_at, blob_cell, bytes_at, group_row_fields, int_at, int_cell, lemma_packed_injective, lemma_rows_injective,
    list, list_at, list_cell, row_models, rows, rows_at, rows_cell, text, text_at, text_cell, u32_at, u8_at,
    CellModel, Row,
};
use crate::types::{EntityId, F32, MergeId};

pub mod actor_kind;
pub mod conflict_outcome;
pub mod conflict_policy;

verus! {

/// An attribute that two merged entities disagreed on.
#[derive(Clone, Debug, PartialEq)]
pub struct AttributeConflictRecord<T = String, B = Vec<u8>> {
    pub attribute_key: T,
    pub survivor_value_blob: B,
    pub merged_value_blob: B,
    /// See [`conflict_policy`].
    pub policy: u8,
    /// See [`conflict_outcome`].
    pub outcome: u8,
}

impl Row for AttributeConflictRecord {
    type M = AttributeConflictRecord<Seq<char>, Seq<u8>>;

    open spec fn model(&self) -> AttributeConflictRecord<Seq<char>, Seq<u8>> {
        AttributeConflictRecord {
            attribute_key: self.attribute_key@,
            survivor_value_blob: self.survivor_value_blob@,
            merged_value_blob: self.merged_value_blob@,
            policy: self.policy,
            outcome: self.outcome,
        }
    }

    open spec fn cells(m: AttributeConflictRecord<Seq<char>, Seq<u8>>) -> Seq<CellModel> {
        seq![
            text(m.attribute_key),
            Cell::Blob(m.survivor_value_blob),
            Cell::Blob(m.merged_value_blob),
            Cell::Int(m.policy as u64),
            Cell::Int(m.outcome as u64),
        ]
    }

    proof fn cells_injective(a: AttributeConflictRecord<Seq<char>, Seq<u8>>, b: AttributeConflictRecord<Seq<char>, Seq<u8>>) {
        broadcast use group_row_fields;

        let x = Self::cells(a);
        let y = Self::cells(b);
        assert(x[0] == y[0]
            && x[1] == y[1]
            && x[2] == y[2]
            && x[3] == y[3]
            && x[4] == y[4]);
    }

    fn to_cells(&self) -> (r: Vec<Cell<Vec<u8>>>) {
        let cells: Vec<Cell<Vec<u8>>> = vec![
            text_cell(&self.attribute_key),
            blob_cell(self.survivor_value_blob.as_slice()),
            blob_cell(self.merged_value_blob.as_slice()),
            int_cell(self.policy as u64),
            int_cell(self.outcome as u64),
        ];
        proof {
            assert(cell_models(cells@) =~= Self::cells(self.model()));
        }
        cells
    }

    fn from_cells(cells: &Vec<Cell<Vec<u8>>>) -> (r: Option<Self>) {
        if cells.len() != 5 {
            proof {
                assert forall|m: AttributeConflictRecord<Seq<char>, Seq<u8>>| #[trigger] Self::cells(m) != cell_models(cells@) by {
                    assert(Self::cells(m).len() == 5);
                }
            }
            return None;
        }
        let attribute_key = match text_at(cells, 0) {
            Some(x) => x,
            None => return None,
        };
        let survivor_value_blob = match bytes_at(cells, 1) {
            Some(x) => x,
            None => return None,
        };
        let merged_value_blob = match bytes_at(cells, 2) {
            Some(x) => x,
            None => return None,
        };
        let policy = match u8_at(cells, 3) {
            Some(x) => x,
            None => return None,
        };
        let outcome = match u8_at(cells, 4) {
            Some(x) => x,
            None => return None,
        };
        let row = AttributeConflictRecord {
            attribute_key,
            survivor_value_blob,
            merged_value_blob,
            policy,
            outcome,
        };
        proof {
            assert(Self::cells(row.model()) =~= cell_models(cells@));
        }
        Some(row)
    }
}

/// A row of the `merge_log` table: all that undoing a merge needs.
#[derive(Clone, Debug, PartialEq)]
pub struct MergeRecord<T = String, L = Vec<[u8; 3]>, A = Vec<String>, C = Vec<AttributeConflictRecord>> {
    pub merge_id_bytes: [u8; 16],
    pub survivor_bytes: [u8; 16],
    pub merged_bytes: [u8; 16],
    pub merged_at_unix_nanos: u64,
    pub grace_period_until_unix_nanos: u64,
    pub confidence: F32,
    pub reason: T,
    /// See [`actor_kind`].
    pub actor_kind: u8,
    /// Zero if the actor is the system.
    pub actor_agent_bytes: [u8; 16],
    /// The aliases that the survivor took over.
    pub aliases_added: A,
    /// The trigrams of those aliases.
    pub trigrams_added: L,
    pub attribute_conflicts: C,
    pub statements_rerouted: u32,
    pub relations_rerouted: u32,
    pub mention_count_added: u32,
    /// Not 0 once the merge cannot be undone any more.
    pub finalized: u8,
    /// Not 0 once the merge was undone.
    pub unmerged_at_unix_nanos: u64,
    pub unmerged_by_actor_kind: u8,
    pub unmerged_by_agent_bytes: [u8; 16],
}

impl Row for MergeRecord {
    type M = MergeRecord<Seq<char>, Seq<[u8; 3]>, Seq<Seq<char>>, Seq<AttributeConflictRecord<Seq<char>, Seq<u8>>>>;

    open spec fn model(&self) -> MergeRecord<Seq<char>, Seq<[u8; 3]>, Seq<Seq<char>>, Seq<AttributeConflictRecord<Seq<char>, Seq<u8>>>> {
        MergeRecord {
            merge_id_bytes: self.merge_id_bytes,
            survivor_bytes: self.survivor_bytes,
            merged_bytes: self.merged_bytes,
            merged_at_unix_nanos: self.merged_at_unix_nanos,
            grace_period_until_unix_nanos: self.grace_period_until_unix_nanos,
            confidence: self.confidence,
            reason: self.reason@,
            actor_kind: self.actor_kind,
            actor_agent_bytes: self.actor_agent_bytes,
            aliases_added: row_models(self.aliases_added@),
            trigrams_added: self.trigrams_added@,
            attribute_conflicts: row_models(self.attribute_conflicts@),
            statements_rerouted: self.statements_rerouted,
            relations_rerouted: self.relations_rerouted,
            mention_count_added: self.mention_count_added,
            finalized: self.finalized,
            unmerged_at_unix_nanos: self.unmerged_at_unix_nanos,
            unmerged_by_actor_kind: self.unmerged_by_actor_kind,
            unmerged_by_agent_bytes: self.unmerged_by_agent_bytes,
        }
    }

    open spec fn cells(m: MergeRecord<Seq<char>, Seq<[u8; 3]>, Seq<Seq<char>>, Seq<AttributeConflictRecord<Seq<char>, Seq<u8>>>>) -> Seq<CellModel> {
        seq![
            Cell::Blob(m.merge_id_bytes@),
            Cell::Blob(m.survivor_bytes@),
            Cell::Blob(m.merged_bytes@),
            Cell::Int(m.merged_at_unix_nanos),
            Cell::Int(m.grace_period_until_unix_nanos),
            Cell::Int(m.confidence.bits as u64),
            text(m.reason),
            Cell::Int(m.actor_kind as u64),
            Cell::Blob(m.actor_agent_bytes@),
            rows::<String>(m.aliases_added),
            list(m.trigrams_added),
            rows::<AttributeConflictRecord>(m.attribute_conflicts),
            Cell::Int(m.statements_rerouted as u64),
            Cell::Int(m.relations_rerouted as u64),
            Cell::Int(m.mention_count_added as u64),
            Cell::Int(m.finalized as u64),
            Cell::Int(m.unmerged_at_unix_nanos),
            Cell::Int(m.unmerged_by_actor_kind as u64),
            Cell::Blob(m.unmerged_by_agent_bytes@),
        ]
    }

    proof fn cells_injective(a: MergeRecord<Seq<char>, Seq<[u8; 3]>, Seq<Seq<char>>, Seq<AttributeConflictRecord<Seq<char>, Seq<u8>>>>, b: MergeRecord<Seq<char>, Seq<[u8; 3]>, Seq<Seq<char>>, Seq<AttributeConflictRecord<Seq<char>, Seq<u8>>>>) {
        broadcast use group_row_fields;

        let x = Self::cells(a);
        let y = Self::cells(b);
        assert(x[0] == y[0]
            && x[1] == y[1]
            && x[2] == y[2]
            && x[3] == y[3]
            && x[4] == y[4]
            && x[5] == y[5]
            && x[6] == y[6]
            && x[7] == y[7]
            && x[8] == y[8]
            && x[9] == y[9]
            && x[10] == y[10]
            && x[11] == y[11]
            && x[12] == y[12]
            && x[13] == y[13]
            && x[14] == y[14]
            && x[15] == y[15]
            && x[16] == y[16]
            && x[17] == y[17]
            && x[18] == y[18]);
        assert(a.merge_id_bytes@ == b.merge_id_bytes@);
        assert(a.survivor_bytes@ == b.survivor_bytes@);
        assert(a.merged_bytes@ == b.merged_bytes@);
        assert(a.actor_agent_bytes@ == b.actor_agent_bytes@);
        assert(cell_fits(x[9]));
        lemma_rows_injective::<String>(a.aliases_added, b.aliases_added);
        lemma_packed_injective(a.trigrams_added, b.trigrams_added);
        assert(cell_fits(x[11]));
        lemma_rows_injective::<AttributeConflictRecord>(a.attribute_conflicts, b.attribute_conflicts);
        assert(a.unmerged_by_agent_bytes@ == b.unmerged_by_agent_bytes@);
    }

    fn to_cells(&self) -> (r: Vec<Cell<Vec<u8>>>) {
        let cells: Vec<Cell<Vec<u8>>> = vec![
            blob_cell(self.merge_id_bytes.as_slice()),
            blob_cell(self.survivor_bytes.as_slice()),
            blob_cell(self.merged_bytes.as_slice()),
            int_cell(self.merged_at_unix_nanos),
            int_cell(self.grace_period_until_unix_nanos),
            int_cell(self.confidence.bits as u64),
            text_cell(&self.reason),
            int_cell(self.actor_kind as u64),
            blob_cell(self.actor_agent_bytes.as_slice()),
            rows_cell(&self.aliases_added),
            list_cell(&self.trigrams_added),
            rows_cell(&self.attribute_conflicts),
            int_cell(self.statements_rerouted as u64),
            int_cell(self.relations_rerouted as u64),
            int_cell(self.mention_count_added as u64),
            int_cell(self.finalized as u64),
            int_cell(self.unmerged_at_unix_nanos),
            int_cell(self.unmerged_by_actor_kind as u64),
            blob_cell(self.unmerged_by_agent_bytes.as_slice()),
        ];
        proof {
            assert(cell_models(cells@) =~= Self::cells(self.model()));
        }
        cells
    }

    fn from_cells(cells: &Vec<Cell<Vec<u8>>>) -> (r: Option<Self>) {
        if cells.len() != 19 {
            proof {
                assert forall|m: MergeRecord<Seq<char>, Seq<[u8; 3]>, Seq<Seq<char>>, Seq<AttributeConflictRecord<Seq<char>, Seq<u8>>>>| #[trigger] Self::cells(m) != cell_models(cells@) by {
                    assert(Self::cells(m).len() == 19);
                }
            }
            return None;
        }
        let merge_id_bytes = match array_at::<16>(cells, 0) {
            Some(x) => x,
            None => return None,
        };
        let survivor_bytes = match array_at::<16>(cells, 1) {
            Some(x) => x,
            None => return None,
        };
        let merged_bytes = match array_at::<16>(cells, 2) {
            Some(x) => x,
            None => return None,
        };
        let merged_at_unix_nanos = match int_at(cells, 3) {
            Some(x) => x,
            None => return None,
        };
        let grace_period_until_unix_nanos = match int_at(cells, 4) {
            Some(x) => x,
            None => return None,
        };
        let confidence = match u32_at(cells, 5) {
            Some(x) => F32 { bits: x },
            None => return None,
        };
        let reason = match text_at(cells, 6) {
            Some(x) => x,
            None => return None,
        };
        let actor_kind = match u8_at(cells, 7) {
            Some(x) => x,
            None => return None,
        };
        let actor_agent_bytes = match array_at::<16>(cells, 8) {
            Some(x) => x,
            None => return None,
        };
        let aliases_added = match rows_at::<String>(cells, 9) {
            Some(x) => x,
            None => return None,
        };
        let trigrams_added = match list_at::<[u8; 3]>(cells, 10) {
            Some(x) => x,
            None => return None,
        };
        let attribute_conflicts = match rows_at::<AttributeConflictRecord>(cells, 11) {
            Some(x) => x,
            None => return None,
        };
        let statements_rerouted = match u32_at(cells, 12) {
            Some(x) => x,
            None => return None,
        };
        let relations_rerouted = match u32_at(cells, 13) {
            Some(x) => x,
            None => return None,
        };
        let mention_count_added = match u32_at(cells, 14) {
            Some(x) => x,
            None => return None,
        };
        let finalized = match u8_at(cells, 15) {
            Some(x) => x,
            None => return None,
        };
        let unmerged_at_unix_nanos = match int_at(cells, 16) {
            Some(x) => x,
            None => return None,
        };
        let unmerged_by_actor_kind = match u8_at(cells, 17) {
            Some(x) => x,
            None => return None,
        };
        let unmerged_by_agent_bytes = match array_at::<16>(cells, 18) {
            Some(x) => x,
            None => return None,
        };
        let row = MergeRecord {
            merge_id_bytes,
            survivor_bytes,
            merged_bytes,
            merged_at_unix_nanos,
            grace_period_until_unix_nanos,
            confidence,
            reason,
            actor_kind,
            actor_agent_bytes,
            aliases_added,
            trigrams_added,
            attribute_conflicts,
            statements_rerouted,
            relations_rerouted,
            mention_count_added,
            finalized,
            unmerged_at_unix_nanos,
            unmerged_by_actor_kind,
            unmerged_by_agent_bytes,
        };
        proof {
            assert(Self::cells(row.model()) =~= cell_models(cells@));
        }
        Some(row)
    }
}

/// A record as it is spoken of.
pub type MergeModel = MergeRecord<
    Seq<char>,
    Seq<[u8; 3]>,
    Seq<Seq<char>>,
    Seq<AttributeConflictRecord<Seq<char>, Seq<u8>>>,
>;

impl MergeRecord {
    /// A record without what was moved, which the caller adds.
    #[must_use]
    pub fn new(
        merge_id: MergeId,
        survivor: EntityId,
        merged: EntityId,
        merged_at_unix_nanos: u64,
        grace_period_until_unix_nanos: u64,
        confidence: F32,
        reason: String,
        actor_kind: u8,
        actor_agent_bytes: [u8; 16],
    ) -> (r: Self)
        ensures
            r.model() == (MergeModel {
                merge_id_bytes: merge_id.0,
                survivor_bytes: survivor.0,
                merged_bytes: merged.0,
                merged_at_unix_nanos,
                grace_period_until_unix_nanos,
                confidence,
                reason: reason@,
                actor_kind,
                actor_agent_bytes,
                aliases_added: Seq::empty(),
                trigrams_added: Seq::empty(),
                attribute_conflicts: Seq::empty(),
                statements_rerouted: 0,
                relations_rerouted: 0,
                mention_count_added: 0,
                finalized: 0,
                unmerged_at_unix_nanos: 0,
                unmerged_by_actor_kind: 0,
                unmerged_by_agent_bytes: zeros::<16>(),
            }),
    {
        let r = MergeRecord {
            merge_id_bytes: merge_id.0,
            survivor_bytes: survivor.0,
            merged_bytes: merged.0,
            merged_at_unix_nanos,
            grace_period_until_unix_nanos,
            confidence,
            reason,
            actor_kind,
            actor_agent_bytes,
            aliases_added: Vec::new(),
            trigrams_added: Vec::new(),
            attribute_conflicts: Vec::new(),
            statements_rerouted: 0,
            relations_rerouted: 0,
            mention_count_added: 0,
            finalized: 0,
            unmerged_at_unix_nanos: 0,
            unmerged_by_actor_kind: 0,
            unmerged_by_agent_bytes: zero_bytes::<16>(),
        };
        proof {
            assert(r.model().aliases_added =~= Seq::empty());
            assert(r.model().trigrams_added =~= Seq::empty());
            assert(r.model().attribute_conflicts =~= Seq::empty());
        }
        r
    }

    #[must_use]
    pub fn merge_id(&self) -> (r: MergeId)
        ensures
            r == MergeId(self.merge_id_bytes),
    {
        MergeId(self.merge_id_bytes)
    }

    #[must_use]
    pub fn survivor(&self) -> (r: EntityId)
        ensures
            r == EntityId(self.survivor_bytes),
    {
        EntityId(self.survivor_bytes)
    }

    #[must_use]
    pub fn merged(&self) -> (r: EntityId)
        ensures
            r == EntityId(self.merged_bytes),
    {
        EntityId(self.merged_bytes)
    }

    /// Whether the merge cannot be undone any more.
    #[must_use]
    pub fn is_finalized(&self) -> (r: bool)
        ensures
            r == (self.finalized != 0),
    {
        self.finalized != 0
    }

    /// Whether the merge was undone.
    #[must_use]
    pub fn is_unmerged(&self) -> (r: bool)
        ensures
            r == (self.unmerged_at_unix_nanos != 0),
    {
        self.unmerged_at_unix_nanos != 0
    }
}

/// A row of the `entity_merge_audit_overflow` table: what a merge moved to the
/// survivor.
#[derive(Clone, Debug, PartialEq)]
pub struct MergeAuditOverflow<L = Vec<[u8; 16]>> {
    pub rerouted_statement_ids: L,
    pub rerouted_relation_ids: L,
}

impl Row for MergeAuditOverflow {
    type M = MergeAuditOverflow<Seq<[u8; 16]>>;

    open spec fn model(&self) -> MergeAuditOverflow<Seq<[u8; 16]>> {
        MergeAuditOverflow {
            rerouted_statement_ids: self.rerouted_statement_ids@,
            rerouted_relation_ids: self.rerouted_relation_ids@,
        }
    }

    open spec fn cells(m: MergeAuditOverflow<Seq<[u8; 16]>>) -> Seq<CellModel> {
        seq![
            list(m.rerouted_statement_ids),
            list(m.rerouted_relation_ids),
        ]
    }

    proof fn cells_injective(a: MergeAuditOverflow<Seq<[u8; 16]>>, b: MergeAuditOverflow<Seq<[u8; 16]>>) {
        broadcast use group_row_fields;

        let x = Self::cells(a);
        let y = Self::cells(b);
        assert(x[0] == y[0]
            && x[1] == y[1]);
        lemma_packed_injective(a.rerouted_statement_ids, b.rerouted_statement_ids);
        lemma_packed_injective(a.rerouted_relation_ids, b.rerouted_relation_ids);
    }

    fn to_cells(&self) -> (r: Vec<Cell<Vec<u8>>>) {
        let cells: Vec<Cell<Vec<u8>>> = vec![
            list_cell(&self.rerouted_statement_ids),
            list_cell(&self.rerouted_relation_ids),
        ];
        proof {
            assert(cell_models(cells@) =~= Self::cells(self.model()));
        }
        cells
    }

    fn from_cells(cells: &Vec<Cell<Vec<u8>>>) -> (r: Option<Self>) {
        if cells.len() != 2 {
            proof {
                assert forall|m: MergeAuditOverflow<Seq<[u8; 16]>>| #[trigger] Self::cells(m) != cell_models(cells@) by {
                    assert(Self::cells(m).len() == 2);
                }
            }
            return None;
        }
        let rerouted_statement_ids = match list_at::<[u8; 16]>(cells, 0) {
            Some(x) => x,
            None => return None,
        };
        let rerouted_relation_ids = match list_at::<[u8; 16]>(cells, 1) {
            Some(x) => x,
            None => return None,
        };
        let row = MergeAuditOverflow {
            rerouted_statement_ids,
            rerouted_relation_ids,
        };
        proof {
            assert(Self::cells(row.model()) =~= cell_models(cells@));
        }
        Some(row)
    }
}

/// The key of a merge: the time, then the merge.
pub open spec fn merge_key(merged_at_unix_nanos: u64, merge_id: [u8; 16]) -> Seq<u8> {
    Seq::<u8>::empty() + be(merged_at_unix_nanos as nat, 8) + merge_id@
}

/// The key of a merge: the time, then the merge.
pub fn make_merge_key(merged_at_unix_nanos: u64, merge_id: [u8; 16]) -> (r: Vec<u8>)
    ensures
        r@ == merge_key(merged_at_unix_nanos, merge_id),
{
    let mut k: Vec<u8> = Vec::new();
    put_be(&mut k, merged_at_unix_nanos, 8);
    put_bytes(&mut k, merge_id.as_slice());
    proof {
        assert(k@ =~= merge_key(merged_at_unix_nanos, merge_id));
    }
    k
}

/// Merges come in the order of time.
pub proof fn lemma_merges_are_chronological(a_at: u64, a: [u8; 16], b_at: u64, b: [u8; 16])
    requires
        a_at < b_at,
    ensures
        lex_lt(merge_key(a_at, a), merge_key(b_at, b)),
{
    lemma_pow256_values();
    lemma_be_len(a_at as nat, 8);
    lemma_be_len(b_at as nat, 8);
    lemma_be_order(a_at as nat, b_at as nat, 8);
    lemma_lex_join(be(a_at as nat, 8), be(b_at as nat, 8), a@, b@);
    assert(merge_key(a_at, a) =~= be(a_at as nat, 8) + a@);
    assert(merge_key(b_at, b) =~= be(b_at as nat, 8) + b@);
}

/// The key of a part of what a merge moved.
pub open spec fn overflow_key(merge_id: [u8; 16], part: u32) -> Seq<u8> {
    merge_id@ + be(part as nat, 4)
}

/// The key of a part of what a merge moved.
pub fn make_overflow_key(merge_id: [u8; 16], part: u32) -> (r: Vec<u8>)
    ensures
        r@ == overflow_key(merge_id, part),
{
    let mut k: Vec<u8> = Vec::new();
    put_bytes(&mut k, merge_id.as_slice());
    put_be(&mut k, part as u64, 4);
    proof {
        assert(k@ =~= overflow_key(merge_id, part));
    }
    k
}

} // verus!
