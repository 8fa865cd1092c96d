//! What extractors did, and how names were resolved.

use vstd::prelude::*;

use crate::bytes::{get_array, put_bytes};
use crate::cells::{cell_models, Cell};
use crate::row::{
    array_at, blob_cell, bytes_at, group_row_fields, int_at, int_cell, lemma_opt_blob_injective,
    lemma_packed_injective, list, list_at, list_cell, opt_array_at, opt_blob, opt_blob_cell, text, text_at,
    text_cell, u32_at, u8_at, CellModel, Packed, Row,
};
use crate::types::{AuditId, EntityId, F32, MemoryId};

pub mod extraction_status;
pub mod output_kind;
pub mod resolution_outcome;

verus! {

/// The most outputs that a row tells of.
pub const OUTPUTS_CAP: usize = 64;

/// Something that a run produced.
#[derive(Clone, Copy, Debug, PartialEq, Eq)]
pub struct OutputRef {
    /// See [`output_kind`].
    pub kind: u8,
    /// The identifier; zero if the output was not stored.
    pub id: [u8; 16],
}

impl Packed for OutputRef {
    open spec fn width() -> nat {
        17
    }

    open spec fn packed(self) -> Seq<u8> {
        seq![self.kind] + self.id@
    }

    proof fn packed_injective(a: Self, b: Self) {
        let x = a.packed();
        let y = b.packed();
        assert(x[0] == a.kind && y[0] == b.kind);
        assert(x.subrange(1, 17) =~= a.id@);
        assert(y.subrange(1, 17) =~= b.id@);
        assert(a.id =~= b.id);
    }

    proof fn packed_width(self) {
    }

    fn record_width() -> (r: usize) {
        17
    }

    fn pack(&self, out: &mut Vec<u8>) {
        out.push(self.kind);
        put_bytes(out, self.id.as_slice());
        proof {
            assert(out@ =~= old(out)@ + self.packed());
        }
    }

    fn unpack(buf: &[u8], at: usize) -> (r: Self) {
        let end: usize = buf.len();
        let kind: u8 = buf[at];
        let id = get_array::<16>(buf, at + 1);
        let r = OutputRef { kind, id };
        proof {
            assert(r.packed() =~= buf@.subrange(at as int, at + 17));
        }
        r
    }
}

/// A row of the `extractor_audit` table: one run of one extractor.
#[derive(Clone, Debug, PartialEq)]
pub struct ExtractionAudit<T = String, B = Vec<u8>, L = Vec<OutputRef>> {
    pub audit_id_bytes: [u8; 16],
    pub memory_id_bytes: [u8; 16],
    pub extractor_id: u32,
    pub extractor_version: u32,
    pub schema_version: u32,
    pub started_at_unix_nanos: u64,
    pub completed_at_unix_nanos: u64,
    /// See [`extraction_status`].
    pub status: u8,
    /// Empty on success.
    pub status_reason: T,
    /// At most [`OUTPUTS_CAP`].
    pub outputs: L,
    /// In millionths of a dollar.
    pub cost_micro_usd: u64,
    /// Opaque here.
    pub model_metadata: B,
    /// The hash of the text that was looked at.
    pub input_hash: [u8; 32],
}

impl Row for ExtractionAudit {
    type M = ExtractionAudit<Seq<char>, Seq<u8>, Seq<OutputRef>>;

    open spec fn model(&self) -> ExtractionAudit<Seq<char>, Seq<u8>, Seq<OutputRef>> {
        ExtractionAudit {
            audit_id_bytes: self.audit_id_bytes,
            memory_id_bytes: self.memory_id_bytes,
            extractor_id: self.extractor_id,
            extractor_version: self.extractor_version,
            schema_version: self.schema_version,
            started_at_unix_nanos: self.started_at_unix_nanos,
            completed_at_unix_nanos: self.completed_at_unix_nanos,
            status: self.status,
            status_reason: self.status_reason@,
            outputs: self.outputs@,
            cost_micro_usd: self.cost_micro_usd,
            model_metadata: self.model_metadata@,
            input_hash: self.input_hash,
        }
    }

    open spec fn cells(m: ExtractionAudit<Seq<char>, Seq<u8>, Seq<OutputRef>>) -> Seq<CellModel> {
        seq![
            Cell::Blob(m.audit_id_bytes@),
            Cell::Blob(m.memory_id_bytes@),
            Cell::Int(m.extractor_id as u64),
            Cell::Int(m.extractor_version as u64),
            Cell::Int(m.schema_version as u64),
            Cell::Int(m.started_at_unix_nanos),
            Cell::Int(m.completed_at_unix_nanos),
            Cell::Int(m.status as u64),
            text(m.status_reason),
            list(m.outputs),
            Cell::Int(m.cost_micro_usd),
            Cell::Blob(m.model_metadata),
            Cell::Blob(m.input_hash@),
        ]
    }

    proof fn cells_injective(a: ExtractionAudit<Seq<char>, Seq<u8>, Seq<OutputRef>>, b: ExtractionAudit<Seq<char>, Seq<u8>, Seq<OutputRef>>) {
        broadcast use group_row_fields;

        let x = Self::cells(a);
        let y = Self::cells(b);
        assert(x[0] == y[0]
            && x[1] == y[1]
            && x[2] == y[2]
            && x[3] == y[3]
            && x[4] == y[4]
            && x[5] == y[5]
            && x[6] == y[6]
            && x[7] == y[7]
            && x[8] == y[8]
            && x[9] == y[9]
            && x[10] == y[10]
            && x[11] == y[11]
            && x[12] == y[12]);
        assert(a.audit_id_bytes@ == b.audit_id_bytes@);
        assert(a.memory_id_bytes@ == b.memory_id_bytes@);
        lemma_packed_injective(a.outputs, b.outputs);
        assert(a.input_hash@ == b.input_hash@);
    }

    fn to_cells(&self) -> (r: Vec<Cell<Vec<u8>>>) {
        let cells: Vec<Cell<Vec<u8>>> = vec![
            blob_cell(self.audit_id_bytes.as_slice()),
            blob_cell(self.memory_id_bytes.as_slice()),
            int_cell(self.extractor_id as u64),
            int_cell(self.extractor_version as u64),
            int_cell(self.schema_version as u64),
            int_cell(self.started_at_unix_nanos),
            int_cell(self.completed_at_unix_nanos),
            int_cell(self.status as u64),
            text_cell(&self.status_reason),
            list_cell(&self.outputs),
            int_cell(self.cost_micro_usd),
            blob_cell(self.model_metadata.as_slice()),
            blob_cell(self.input_hash.as_slice()),
        ];
        proof {
            assert(cell_models(cells@) =~= Self::cells(self.model()));
        }
        cells
    }

    fn from_cells(cells: &Vec<Cell<Vec<u8>>>) -> (r: Option<Self>) {
        if cells.len() != 13 {
            proof {
                assert forall|m: ExtractionAudit<Seq<char>, Seq<u8>, Seq<OutputRef>>| #[trigger] Self::cells(m) != cell_models(cells@) by {
                    assert(Self::cells(m).len() == 13);
                }
            }
            return None;
        }
        let audit_id_bytes = match array_at::<16>(cells, 0) {
            Some(x) => x,
            None => return None,
        };
        let memory_id_bytes = match array_at::<16>(cells, 1) {
            Some(x) => x,
            None => return None,
        };
        let extractor_id = match u32_at(cells, 2) {
            Some(x) => x,
            None => return None,
        };
        let extractor_version = match u32_at(cells, 3) {
            Some(x) => x,
            None => return None,
        };
        let schema_version = match u32_at(cells, 4) {
            Some(x) => x,
            None => return None,
        };
        let started_at_unix_nanos = match int_at(cells, 5) {
            Some(x) => x,
            None => return None,
        };
        let completed_at_unix_nanos = match int_at(cells, 6) {
            Some(x) => x,
            None => return None,
        };
        let status = match u8_at(cells, 7) {
            Some(x) => x,
            None => return None,
        };
        let status_reason = match text_at(cells, 8) {
            Some(x) => x,
            None => return None,
        };
        let outputs = match list_at::<OutputRef>(cells, 9) {
            Some(x) => x,
            None => return None,
        };
        let cost_micro_usd = match int_at(cells, 10) {
            Some(x) => x,
            None => return None,
        };
        let model_metadata = match bytes_at(cells, 11) {
            Some(x) => x,
            None => return None,
        };
        let input_hash = match array_at::<32>(cells, 12) {
            Some(x) => x,
            None => return None,
        };
        let row = ExtractionAudit {
            audit_id_bytes,
            memory_id_bytes,
            extractor_id,
            extractor_version,
            schema_version,
            started_at_unix_nanos,
            completed_at_unix_nanos,
            status,
            status_reason,
            outputs,
            cost_micro_usd,
            model_metadata,
            input_hash,
        };
        proof {
            assert(Self::cells(row.model()) =~= cell_models(cells@));
        }
        Some(row)
    }
}

/// The outputs that a row keeps.
pub open spec fn kept_outputs(outputs: Seq<OutputRef>) -> Seq<OutputRef> {
    if outputs.len() > OUTPUTS_CAP {
        outputs.take(OUTPUTS_CAP as int)
    } else {
        outputs
    }
}

/// A row as it is spoken of.
pub type ExtractionAuditModel = ExtractionAudit<Seq<char>, Seq<u8>, Seq<OutputRef>>;

impl ExtractionAudit {
    /// A run that succeeded. Of its outputs the first [`OUTPUTS_CAP`] are kept.
    #[must_use]
    pub fn success(
        audit_id: AuditId,
        memory_id: MemoryId,
        extractor_id: u32,
        extractor_version: u32,
        schema_version: u32,
        started_at_unix_nanos: u64,
        completed_at_unix_nanos: u64,
        outputs: Vec<OutputRef>,
        input_hash: [u8; 32],
    ) -> (r: Self)
        ensures
            r.model() == (ExtractionAuditModel {
                audit_id_bytes: audit_id.0,
                memory_id_bytes: memory_id.0,
                extractor_id,
                extractor_version,
                schema_version,
                started_at_unix_nanos,
                completed_at_unix_nanos,
                status: extraction_status::SUCCESS,
                status_reason: Seq::empty(),
                outputs: kept_outputs(outputs@),
                cost_micro_usd: 0,
                model_metadata: Seq::empty(),
                input_hash,
            }),
    {
        proof {
            reveal_strlit("");
            assert(""@ =~= Seq::<char>::empty());
        }
        let mut outputs = outputs;
        if outputs.len() > OUTPUTS_CAP {
            outputs.truncate(OUTPUTS_CAP);
        }
        let r = ExtractionAudit {
            audit_id_bytes: audit_id.0,
            memory_id_bytes: memory_id.0,
            extractor_id,
            extractor_version,
            schema_version,
            started_at_unix_nanos,
            completed_at_unix_nanos,
            status: extraction_status::SUCCESS,
            status_reason: "".to_owned(),
            outputs,
            cost_micro_usd: 0,
            model_metadata: Vec::new(),
            input_hash,
        };
        proof {
            assert(r.model_metadata@ =~= Seq::<u8>::empty());
        }
        r
    }

    /// A run that did not succeed, or did not take place: `status` says which.
    #[must_use]
    pub fn non_success(
        audit_id: AuditId,
        memory_id: MemoryId,
        extractor_id: u32,
        extractor_version: u32,
        schema_version: u32,
        started_at_unix_nanos: u64,
        completed_at_unix_nanos: u64,
        status: u8,
        status_reason: String,
        input_hash: [u8; 32],
    ) -> (r: Self)
        ensures
            r.model() == (ExtractionAuditModel {
                audit_id_bytes: audit_id.0,
                memory_id_bytes: memory_id.0,
                extractor_id,
                extractor_version,
                schema_version,
                started_at_unix_nanos,
                completed_at_unix_nanos,
                status,
                status_reason: status_reason@,
                outputs: Seq::empty(),
                cost_micro_usd: 0,
                model_metadata: Seq::empty(),
                input_hash,
            }),
    {
        let r = ExtractionAudit {
            audit_id_bytes: audit_id.0,
            memory_id_bytes: memory_id.0,
            extractor_id,
            extractor_version,
            schema_version,
            started_at_unix_nanos,
            completed_at_unix_nanos,
            status,
            status_reason,
            outputs: Vec::new(),
            cost_micro_usd: 0,
            model_metadata: Vec::new(),
            input_hash,
        };
        proof {
            assert(r.outputs@ =~= Seq::<OutputRef>::empty());
            assert(r.model_metadata@ =~= Seq::<u8>::empty());
        }
        r
    }

    #[must_use]
    pub fn audit_id(&self) -> (r: AuditId)
        ensures
            r == AuditId(self.audit_id_bytes),
    {
        AuditId(self.audit_id_bytes)
    }

    #[must_use]
    pub fn memory_id(&self) -> (r: MemoryId)
        ensures
            r == MemoryId(self.memory_id_bytes),
    {
        MemoryId(self.memory_id_bytes)
    }

    #[must_use]
    pub fn is_success(&self) -> (r: bool)
        ensures
            r == (self.status == extraction_status::SUCCESS),
    {
        self.status == extraction_status::SUCCESS
    }

    #[must_use]
    pub fn is_failure(&self) -> (r: bool)
        ensures
            r == (self.status == extraction_status::FAILURE),
    {
        self.status == extraction_status::FAILURE
    }
}

/// A row of the `entity_resolution_audit` table: one name that was resolved.
#[derive(Clone, Debug, PartialEq)]
pub struct ResolutionAudit<T = String, B = Vec<u8>> {
    pub audit_id_bytes: [u8; 16],
    pub candidate_name: T,
    pub entity_type_id: u32,
    pub resolved_entity_bytes: Option<[u8; 16]>,
    /// See [`resolution_outcome`].
    pub outcome: u8,
    pub confidence: F32,
    pub created_at_unix_nanos: u64,
    /// The other entities that were considered, opaque here.
    pub candidates_blob: B,
}

impl Row for ResolutionAudit {
    type M = ResolutionAudit<Seq<char>, Seq<u8>>;

    open spec fn model(&self) -> ResolutionAudit<Seq<char>, Seq<u8>> {
        ResolutionAudit {
            audit_id_bytes: self.audit_id_bytes,
            candidate_name: self.candidate_name@,
            entity_type_id: self.entity_type_id,
            resolved_entity_bytes: self.resolved_entity_bytes,
            outcome: self.outcome,
            confidence: self.confidence,
            created_at_unix_nanos: self.created_at_unix_nanos,
            candidates_blob: self.candidates_blob@,
        }
    }

    open spec fn cells(m: ResolutionAudit<Seq<char>, Seq<u8>>) -> Seq<CellModel> {
        seq![
            Cell::Blob(m.audit_id_bytes@),
            text(m.candidate_name),
            Cell::Int(m.entity_type_id as u64),
            opt_blob(m.resolved_entity_bytes),
            Cell::Int(m.outcome as u64),
            Cell::Int(m.confidence.bits as u64),
            Cell::Int(m.created_at_unix_nanos),
            Cell::Blob(m.candidates_blob),
        ]
    }

    proof fn cells_injective(a: ResolutionAudit<Seq<char>, Seq<u8>>, b: ResolutionAudit<Seq<char>, Seq<u8>>) {
        broadcast use group_row_fields;

        let x = Self::cells(a);
        let y = Self::cells(b);
        assert(x[0] == y[0]
            && x[1] == y[1]
            && x[2] == y[2]
            && x[3] == y[3]
            && x[4] == y[4]
            && x[5] == y[5]
            && x[6] == y[6]
            && x[7] == y[7]);
        assert(a.audit_id_bytes@ == b.audit_id_bytes@);
        lemma_opt_blob_injective(a.resolved_entity_bytes, b.resolved_entity_bytes);
    }

    fn to_cells(&self) -> (r: Vec<Cell<Vec<u8>>>) {
        let cells: Vec<Cell<Vec<u8>>> = vec![
            blob_cell(self.audit_id_bytes.as_slice()),
            text_cell(&self.candidate_name),
            int_cell(self.entity_type_id as u64),
            opt_blob_cell(&self.resolved_entity_bytes),
            int_cell(self.outcome as u64),
            int_cell(self.confidence.bits as u64),
            int_cell(self.created_at_unix_nanos),
            blob_cell(self.candidates_blob.as_slice()),
        ];
        proof {
            assert(cell_models(cells@) =~= Self::cells(self.model()));
        }
        cells
    }

    fn from_cells(cells: &Vec<Cell<Vec<u8>>>) -> (r: Option<Self>) {
        if cells.len() != 8 {
            proof {
                assert forall|m: ResolutionAudit<Seq<char>, Seq<u8>>| #[trigger] Self::cells(m) != cell_models(cells@) by {
                    assert(Self::cells(m).len() == 8);
                }
            }
            return None;
        }
        let audit_id_bytes = match array_at::<16>(cells, 0) {
            Some(x) => x,
            None => return None,
        };
        let candidate_name = match text_at(cells, 1) {
            Some(x) => x,
            None => return None,
        };
        let entity_type_id = match u32_at(cells, 2) {
            Some(x) => x,
            None => return None,
        };
        let resolved_entity_bytes = match opt_array_at::<16>(cells, 3) {
            Some(x) => x,
            None => return None,
        };
        let outcome = match u8_at(cells, 4) {
            Some(x) => x,
            None => return None,
        };
        let confidence = match u32_at(cells, 5) {
            Some(x) => F32 { bits: x },
            None => return None,
        };
        let created_at_unix_nanos = match int_at(cells, 6) {
            Some(x) => x,
            None => return None,
        };
        let candidates_blob = match bytes_at(cells, 7) {
            Some(x) => x,
            None => return None,
        };
        let row = ResolutionAudit {
            audit_id_bytes,
            candidate_name,
            entity_type_id,
            resolved_entity_bytes,
            outcome,
            confidence,
            created_at_unix_nanos,
            candidates_blob,
        };
        proof {
            assert(Self::cells(row.model()) =~= cell_models(cells@));
        }
        Some(row)
    }
}

/// A row as it is spoken of.
pub type ResolutionAuditModel = ResolutionAudit<Seq<char>, Seq<u8>>;

impl ResolutionAudit {
    /// A name that led to no entity yet.
    #[must_use]
    pub fn new(
        audit_id: AuditId,
        candidate_name: String,
        entity_type_id: u32,
        outcome: u8,
        confidence: F32,
        created_at_unix_nanos: u64,
    ) -> (r: Self)
        ensures
            r.model() == (ResolutionAuditModel {
                audit_id_bytes: audit_id.0,
                candidate_name: candidate_name@,
                entity_type_id,
                resolved_entity_bytes: None,
                outcome,
                confidence,
                created_at_unix_nanos,
                candidates_blob: Seq::empty(),
            }),
    {
        let r = ResolutionAudit {
            audit_id_bytes: audit_id.0,
            candidate_name,
            entity_type_id,
            resolved_entity_bytes: None,
            outcome,
            confidence,
            created_at_unix_nanos,
            candidates_blob: Vec::new(),
        };
        proof {
            assert(r.candidates_blob@ =~= Seq::<u8>::empty());
        }
        r
    }

    #[must_use]
    pub fn audit_id(&self) -> (r: AuditId)
        ensures
            r == AuditId(self.audit_id_bytes),
    {
        AuditId(self.audit_id_bytes)
    }

    #[must_use]
    pub fn resolved_entity(&self) -> (r: Option<EntityId>)
        ensures
            r == match self.resolved_entity_bytes {
                Some(b) => Some(EntityId(b)),
                None => None,
            },
    {
        match self.resolved_entity_bytes {
            Some(b) => Some(EntityId(b)),
            None => None,
        }
    }
}

} // verus!
