//! What became of the extraction of each memory.

use redb::{ReadTransaction, WriteTransaction};
use vstd::prelude::*;

use crate::catalog::Table;
use crate::cells::{cell_models, Cell};
use crate::row::{
    array_at, blob_cell, fits, group_row_fields, image, int_at, int_cell, lemma_saved_row_is_found, load_at, save,
    slot, text, text_at, text_cell, u32_at, u8_at, CellModel, LoadError, Row, Slot,
};
use crate::store::{count, opened, rdb, table_keys, wdb, Db};
use crate::types::MemoryId;
use vstd::arithmetic::power2::{
    lemma2_to64, lemma2_to64_rest, lemma_pow2_pos, lemma_pow2_strictly_increases, lemma_pow2_unfold, pow2,
};
use vstd::bits::lemma_u64_shl_is_mul;

pub mod failure_class;
pub mod pipeline_status;
pub mod tier_status;

verus! {

/// Why the audit of a memory could not be read.
pub type ExtractorPipelineAuditError = LoadError;

/// The time to wait before the first retry: a second.
pub const RETRY_BACKOFF_BASE_NANOS: u64 = 1_000_000_000;

/// The longest time to wait before a retry: an hour.
pub const RETRY_BACKOFF_CAP_NANOS: u64 = 3_600_000_000_000;

/// The time to wait before a retry: it doubles with each attempt, up to the cap.
pub open spec fn backoff(attempts: u8) -> u64 {
    let doublings = if attempts == 0 {
        0nat
    } else {
        (attempts - 1) as nat
    };
    let wait = RETRY_BACKOFF_BASE_NANOS * pow2(doublings);
    if wait < RETRY_BACKOFF_CAP_NANOS {
        wait as u64
    } else {
        RETRY_BACKOFF_CAP_NANOS
    }
}

/// The time to wait before retry number `attempts`.
#[must_use]
pub fn retry_backoff_nanos(attempts: u8) -> (r: u64)
    ensures
        r == backoff(attempts),
{
    let less: u8 = attempts.saturating_sub(1);
    let shift: u8 = if less < 63 {
        less
    } else {
        63
    };
    proof {
        lemma2_to64();
        lemma2_to64_rest();
        if less > 63 {
            lemma_pow2_strictly_increases(63, less as nat);
        } else if less < 63 {
            lemma_pow2_strictly_increases(less as nat, 63);
        }
        lemma_u64_shl_is_mul(1, shift as u64);
    }
    let factor: u64 = 1u64 << (shift as u64);
    let wait: u64 = match RETRY_BACKOFF_BASE_NANOS.checked_mul(factor) {
        Some(w) => w,
        None => u64::MAX,
    };
    if wait < RETRY_BACKOFF_CAP_NANOS {
        wait
    } else {
        RETRY_BACKOFF_CAP_NANOS
    }
}

/// Waiting longer never means waiting less, and never more than the cap.
pub proof fn lemma_backoff_grows(a: u8, b: u8)
    requires
        a <= b,
    ensures
        backoff(a) <= backoff(b) <= RETRY_BACKOFF_CAP_NANOS,
        RETRY_BACKOFF_BASE_NANOS <= backoff(a),
{
    let x = if a == 0 {
        0nat
    } else {
        (a - 1) as nat
    };
    let y = if b == 0 {
        0nat
    } else {
        (b - 1) as nat
    };
    lemma_pow2_pos(x);
    if x < y {
        lemma_pow2_strictly_increases(x, y);
    }
}

/// How much was found in a memory.
#[derive(Clone, Copy, Debug, PartialEq, Eq, Structural)]
pub struct ExtractorItemCounts {
    pub entities: u32,
    pub statements: u32,
    pub relations: u32,
    pub mention_edges: u32,
}

impl ExtractorItemCounts {
    #[must_use]
    pub fn zero() -> (r: Self)
        ensures
            r == (ExtractorItemCounts { entities: 0, statements: 0, relations: 0, mention_edges: 0 }),
    {
        ExtractorItemCounts { entities: 0, statements: 0, relations: 0, mention_edges: 0 }
    }

    #[must_use]
    pub fn is_empty(self) -> (r: bool)
        ensures
            r == (self == ExtractorItemCounts { entities: 0, statements: 0, relations: 0, mention_edges: 0 }),
    {
        self.entities == 0 && self.statements == 0 && self.relations == 0 && self.mention_edges == 0
    }
}

/// A row of the `extractor_pipeline_audit` table: what extraction made of a
/// memory.
#[derive(Clone, Debug, PartialEq)]
pub struct ExtractorPipelineAuditEntry<T = String> {
    pub memory_id_bytes: [u8; 16],
    pub extracted_at_unix_nanos: u64,
    /// See [`pipeline_status`].
    pub status: u8,
    /// Empty on success.
    pub status_reason: T,
    /// See [`tier_status`].
    pub tier_pattern: u8,
    pub tier_classifier: u8,
    pub tier_llm: u8,
    pub item_counts: ExtractorItemCounts,
    /// In millionths of a dollar.
    pub llm_micro_usd_spent: u64,
    /// How often extraction was tried, which sets the time until the next try.
    pub attempts: u8,
    /// See [`failure_class`].
    pub failure_class: u8,
}

impl Row for ExtractorPipelineAuditEntry {
    type M = ExtractorPipelineAuditEntry<Seq<char>>;

    open spec fn model(&self) -> ExtractorPipelineAuditEntry<Seq<char>> {
        ExtractorPipelineAuditEntry {
            memory_id_bytes: self.memory_id_bytes,
            extracted_at_unix_nanos: self.extracted_at_unix_nanos,
            status: self.status,
            status_reason: self.status_reason@,
            tier_pattern: self.tier_pattern,
            tier_classifier: self.tier_classifier,
            tier_llm: self.tier_llm,
            item_counts: self.item_counts,
            llm_micro_usd_spent: self.llm_micro_usd_spent,
            attempts: self.attempts,
            failure_class: self.failure_class,
        }
    }

    open spec fn cells(m: ExtractorPipelineAuditEntry<Seq<char>>) -> Seq<CellModel> {
        seq![
            Cell::Blob(m.memory_id_bytes@),
            Cell::Int(m.extracted_at_unix_nanos),
            Cell::Int(m.status as u64),
            text(m.status_reason),
            Cell::Int(m.tier_pattern as u64),
            Cell::Int(m.tier_classifier as u64),
            Cell::Int(m.tier_llm as u64),
            Cell::Int(m.item_counts.entities as u64),
            Cell::Int(m.item_counts.statements as u64),
            Cell::Int(m.item_counts.relations as u64),
            Cell::Int(m.item_counts.mention_edges as u64),
            Cell::Int(m.llm_micro_usd_spent),
            Cell::Int(m.attempts as u64),
            Cell::Int(m.failure_class as u64),
        ]
    }

    proof fn cells_injective(a: ExtractorPipelineAuditEntry<Seq<char>>, b: ExtractorPipelineAuditEntry<Seq<char>>) {
        broadcast use group_row_fields;

        let x = Self::cells(a);
        let y = Self::cells(b);
        assert(x[0] == y[0]
            && x[1] == y[1]
            && x[2] == y[2]
            && x[3] == y[3]
            && x[4] == y[4]
            && x[5] == y[5]
            && x[6] == y[6]
            && x[7] == y[7]
            && x[8] == y[8]
            && x[9] == y[9]
            && x[10] == y[10]
            && x[11] == y[11]
            && x[12] == y[12]
            && x[13] == y[13]);
        assert(a.memory_id_bytes@ == b.memory_id_bytes@);
    }

    fn to_cells(&self) -> (r: Vec<Cell<Vec<u8>>>) {
        let cells: Vec<Cell<Vec<u8>>> = vec![
            blob_cell(self.memory_id_bytes.as_slice()),
            int_cell(self.extracted_at_unix_nanos),
            int_cell(self.status as u64),
            text_cell(&self.status_reason),
            int_cell(self.tier_pattern as u64),
            int_cell(self.tier_classifier as u64),
            int_cell(self.tier_llm as u64),
            int_cell(self.item_counts.entities as u64),
            int_cell(self.item_counts.statements as u64),
            int_cell(self.item_counts.relations as u64),
            int_cell(self.item_counts.mention_edges as u64),
            int_cell(self.llm_micro_usd_spent),
            int_cell(self.attempts as u64),
            int_cell(self.failure_class as u64),
        ];
        proof {
            assert(cell_models(cells@) =~= Self::cells(self.model()));
        }
        cells
    }

    fn from_cells(cells: &Vec<Cell<Vec<u8>>>) -> (r: Option<Self>) {
        if cells.len() != 14 {
            proof {
                assert forall|m: ExtractorPipelineAuditEntry<Seq<char>>| #[trigger] Self::cells(m) != cell_models(cells@) by {
                    assert(Self::cells(m).len() == 14);
                }
            }
            return None;
        }
        let memory_id_bytes = match array_at::<16>(cells, 0) {
            Some(x) => x,
            None => return None,
        };
        let extracted_at_unix_nanos = match int_at(cells, 1) {
            Some(x) => x,
            None => return None,
        };
        let status = match u8_at(cells, 2) {
            Some(x) => x,
            None => return None,
        };
        let status_reason = match text_at(cells, 3) {
            Some(x) => x,
            None => return None,
        };
        let tier_pattern = match u8_at(cells, 4) {
            Some(x) => x,
            None => return None,
        };
        let tier_classifier = match u8_at(cells, 5) {
            Some(x) => x,
            None => return None,
        };
        let tier_llm = match u8_at(cells, 6) {
            Some(x) => x,
            None => return None,
        };
        let entities = match u32_at(cells, 7) {
            Some(x) => x,
            None => return None,
        };
        let statements = match u32_at(cells, 8) {
            Some(x) => x,
            None => return None,
        };
        let relations = match u32_at(cells, 9) {
            Some(x) => x,
            None => return None,
        };
        let mention_edges = match u32_at(cells, 10) {
            Some(x) => x,
            None => return None,
        };
        let item_counts = ExtractorItemCounts { entities, statements, relations, mention_edges };
        let llm_micro_usd_spent = match int_at(cells, 11) {
            Some(x) => x,
            None => return None,
        };
        let attempts = match u8_at(cells, 12) {
            Some(x) => x,
            None => return None,
        };
        let failure_class = match u8_at(cells, 13) {
            Some(x) => x,
            None => return None,
        };
        let row = ExtractorPipelineAuditEntry {
            memory_id_bytes,
            extracted_at_unix_nanos,
            status,
            status_reason,
            tier_pattern,
            tier_classifier,
            tier_llm,
            item_counts,
            llm_micro_usd_spent,
            attempts,
            failure_class,
        };
        proof {
            assert(Self::cells(row.model()) =~= cell_models(cells@));
        }
        Some(row)
    }
}

/// A row as it is spoken of.
pub type PipelineAuditModel = ExtractorPipelineAuditEntry<Seq<char>>;

impl ExtractorPipelineAuditEntry {
    /// The outcome of a first attempt.
    #[must_use]
    pub fn new(
        memory_id: MemoryId,
        extracted_at_unix_nanos: u64,
        status: u8,
        status_reason: String,
        tier_pattern: u8,
        tier_classifier: u8,
        tier_llm: u8,
        item_counts: ExtractorItemCounts,
        llm_micro_usd_spent: u64,
    ) -> (r: Self)
        ensures
            r.model() == (PipelineAuditModel {
                memory_id_bytes: memory_id.0,
                extracted_at_unix_nanos,
                status,
                status_reason: status_reason@,
                tier_pattern,
                tier_classifier,
                tier_llm,
                item_counts,
                llm_micro_usd_spent,
                attempts: 1,
                failure_class: failure_class::UNCLASSIFIED,
            }),
    {
        ExtractorPipelineAuditEntry {
            memory_id_bytes: memory_id.0,
            extracted_at_unix_nanos,
            status,
            status_reason,
            tier_pattern,
            tier_classifier,
            tier_llm,
            item_counts,
            llm_micro_usd_spent,
            attempts: 1,
            failure_class: failure_class::UNCLASSIFIED,
        }
    }

    /// The entry with another number of attempts.
    #[must_use]
    pub fn with_attempts(self, attempts: u8) -> (r: Self)
        ensures
            r.model() == (PipelineAuditModel { attempts, ..self.model() }),
    {
        let mut r = self;
        r.attempts = attempts;
        r
    }

    /// The entry with another class of failure.
    #[must_use]
    pub fn with_failure_class(self, class: u8) -> (r: Self)
        ensures
            r.model() == (PipelineAuditModel { failure_class: class, ..self.model() }),
    {
        let mut r = self;
        r.failure_class = class;
        r
    }

    #[must_use]
    pub fn memory_id(&self) -> (r: MemoryId)
        ensures
            r == MemoryId(self.memory_id_bytes),
    {
        MemoryId(self.memory_id_bytes)
    }
}

/// Whether it was the LLM that failed, and not for good. Only then did the
/// failure leave nothing behind that a retry would repeat.
pub open spec fn retryable(m: PipelineAuditModel) -> bool {
    m.tier_llm == tier_status::FAILED && m.failure_class != failure_class::PERMANENT
}

/// Whether extraction is done with: it succeeded, there was nothing to do, or it
/// failed in a way that a retry would not mend.
pub open spec fn terminal(m: PipelineAuditModel) -> bool {
    m.status == pipeline_status::SUCCESS || m.status == pipeline_status::SKIPPED || !retryable(m)
}

/// When a failed extraction may be retried.
pub open spec fn due_at(m: PipelineAuditModel) -> u64 {
    if m.extracted_at_unix_nanos + backoff(m.attempts) <= u64::MAX {
        (m.extracted_at_unix_nanos + backoff(m.attempts)) as u64
    } else {
        u64::MAX
    }
}

/// Whether it was the LLM that failed, and not for good.
pub fn is_retryable_transient(entry: &ExtractorPipelineAuditEntry) -> (r: bool)
    ensures
        r == retryable(entry.model()),
{
    entry.tier_llm == tier_status::FAILED && entry.failure_class != failure_class::PERMANENT
}

/// What is stored of a memory's extraction.
pub open spec fn audited(db: Db, id: MemoryId) -> Slot<PipelineAuditModel> {
    slot::<ExtractorPipelineAuditEntry>(db, Table::ExtractorPipelineAudit, id.0@)
}

/// What became of a memory's extraction, if anything is known.
pub fn pipeline_audit_entry(rtxn: &ReadTransaction, memory_id: MemoryId) -> (r: Result<
    Option<ExtractorPipelineAuditEntry>,
    ExtractorPipelineAuditError,
>)
    ensures
        r is Ok ==> opened(*rtxn, Table::ExtractorPipelineAudit),
        match r {
            Ok(None) => audited(rdb(*rtxn), memory_id) is Absent,
            Ok(Some(e)) => audited(rdb(*rtxn), memory_id) == Slot::Row(e.model()),
            Err(LoadError::Corrupt) => audited(rdb(*rtxn), memory_id) is Corrupt,
            Err(LoadError::Storage(_)) => true,
        },
{
    load_at(rtxn, Table::ExtractorPipelineAudit, memory_id.0.as_slice())
}

/// Whether a memory's extraction is done with. It is not if nothing is known of
/// it, nor if it failed and is to be retried.
pub fn has_extracted(rtxn: &ReadTransaction, memory_id: MemoryId) -> (r: Result<bool, ExtractorPipelineAuditError>)
    ensures
        r is Ok ==> opened(*rtxn, Table::ExtractorPipelineAudit),
        match r {
            Ok(done) => match audited(rdb(*rtxn), memory_id) {
                Slot::Absent => !done,
                Slot::Row(m) => done == terminal(m),
                Slot::Corrupt => false,
            },
            Err(LoadError::Corrupt) => audited(rdb(*rtxn), memory_id) is Corrupt,
            Err(LoadError::Storage(_)) => true,
        },
{
    match pipeline_audit_entry(rtxn, memory_id)? {
        None => Ok(false),
        Some(entry) => {
            if entry.status == pipeline_status::SUCCESS || entry.status == pipeline_status::SKIPPED {
                Ok(true)
            } else {
                Ok(!is_retryable_transient(&entry))
            }
        },
    }
}

/// Whether nothing keeps a memory's extraction from running at `now_unix_nanos`.
/// Only one that failed and is to be retried waits, until its time has come.
pub fn extraction_retry_due(rtxn: &ReadTransaction, memory_id: MemoryId, now_unix_nanos: u64) -> (r: Result<
    bool,
    ExtractorPipelineAuditError,
>)
    ensures
        r is Ok ==> opened(*rtxn, Table::ExtractorPipelineAudit),
        match r {
            Ok(due) => match audited(rdb(*rtxn), memory_id) {
                Slot::Absent => due,
                Slot::Row(m) => due == (terminal(m) || now_unix_nanos >= due_at(m)),
                Slot::Corrupt => false,
            },
            Err(LoadError::Corrupt) => audited(rdb(*rtxn), memory_id) is Corrupt,
            Err(LoadError::Storage(_)) => true,
        },
{
    match pipeline_audit_entry(rtxn, memory_id)? {
        None => Ok(true),
        Some(entry) => {
            if entry.status == pipeline_status::SUCCESS || entry.status == pipeline_status::SKIPPED
                || !is_retryable_transient(&entry) {
                return Ok(true);
            }
            let due: u64 = entry.extracted_at_unix_nanos.saturating_add(retry_backoff_nanos(entry.attempts));
            Ok(now_unix_nanos >= due)
        },
    }
}

/// How often a memory's extraction was tried.
pub fn extraction_attempts(rtxn: &ReadTransaction, memory_id: MemoryId) -> (r: Result<u8, ExtractorPipelineAuditError>)
    ensures
        r is Ok ==> opened(*rtxn, Table::ExtractorPipelineAudit),
        match r {
            Ok(n) => match audited(rdb(*rtxn), memory_id) {
                Slot::Absent => n == 0,
                Slot::Row(m) => n == m.attempts,
                Slot::Corrupt => false,
            },
            Err(LoadError::Corrupt) => audited(rdb(*rtxn), memory_id) is Corrupt,
            Err(LoadError::Storage(_)) => true,
        },
{
    match pipeline_audit_entry(rtxn, memory_id)? {
        None => Ok(0),
        Some(entry) => Ok(entry.attempts),
    }
}

/// Records what became of a memory's extraction, in place of what was known.
pub fn record_extracted(wtxn: &mut WriteTransaction, entry: &ExtractorPipelineAuditEntry) -> (r: Result<
    (),
    redb::Error,
>)
    ensures
        wdb(*final(wtxn)).home == wdb(*old(wtxn)).home,
        r is Ok ==> wdb(*final(wtxn)) == wdb(*old(wtxn)).insert(
            (Table::ExtractorPipelineAudit, entry.memory_id_bytes@),
            image::<ExtractorPipelineAuditEntry>(entry.model()),
        ),
{
    save(wtxn, Table::ExtractorPipelineAudit, entry.memory_id_bytes.as_slice(), entry)
}

/// The number of memories whose extraction is known of.
pub fn audit_count(rtxn: &ReadTransaction) -> (r: Result<u64, redb::Error>)
    ensures
        r is Ok ==> opened(*rtxn, Table::ExtractorPipelineAudit),
        r matches Ok(n) ==> n == table_keys(rdb(*rtxn), Table::ExtractorPipelineAudit).len(),
{
    count(rtxn, Table::ExtractorPipelineAudit)
}

/// What is recorded of a memory is what is known of it afterwards, and of no
/// other memory is anything else known.
pub proof fn lemma_record_is_known(db: Db, m: PipelineAuditModel, other: MemoryId)
    requires
        fits::<ExtractorPipelineAuditEntry>(m),
    ensures
        ({
            let after = db.insert(
                (Table::ExtractorPipelineAudit, m.memory_id_bytes@),
                image::<ExtractorPipelineAuditEntry>(m),
            );
            &&& audited(after, MemoryId(m.memory_id_bytes)) == Slot::Row(m)
            &&& other.0 != m.memory_id_bytes ==> audited(after, other) == audited(db, other)
        }),
{
    lemma_saved_row_is_found::<ExtractorPipelineAuditEntry>(
        db,
        Table::ExtractorPipelineAudit,
        m.memory_id_bytes@,
        m,
    );
    if other.0@ == m.memory_id_bytes@ {
        assert(other.0 =~= m.memory_id_bytes);
    }
}

/// A failure that is to be retried is never done with, and its time comes.
pub proof fn lemma_retry_comes(m: PipelineAuditModel)
    requires
        m.status != pipeline_status::SUCCESS,
        m.status != pipeline_status::SKIPPED,
        retryable(m),
    ensures
        !terminal(m),
        due_at(m) <= m.extracted_at_unix_nanos + RETRY_BACKOFF_CAP_NANOS,
{
    lemma_backoff_grows(m.attempts, m.attempts);
}

/// The first try and the first retry wait a second; every further one waits twice as
/// long as the one before, but an hour at most.
pub proof fn lemma_backoff_doubles(attempts: u8)
    ensures
        backoff(0) == 1_000_000_000,
        backoff(1) == 1_000_000_000,
        1 <= attempts < 255 ==> backoff((attempts + 1) as u8) == if 2 * backoff(attempts) < 3_600_000_000_000 {
            2 * backoff(attempts)
        } else {
            3_600_000_000_000
        },
{
    lemma2_to64();
    if 1 <= attempts < 255 {
        let n = (attempts - 1) as nat;
        lemma_pow2_unfold(n + 1);
        assert(pow2(n + 1) == 2 * pow2(n));
        assert(RETRY_BACKOFF_BASE_NANOS * pow2(n + 1) == 2 * (RETRY_BACKOFF_BASE_NANOS * pow2(n)));
    }
}

/// Extraction is done with unless the LLM failed, and not for good, in a run that
/// neither succeeded nor had nothing to do. Such a run is due once the wait since it
/// is over.
pub proof fn lemma_when_done_and_due(m: PipelineAuditModel)
    ensures
        terminal(m) <==> m.status == 1 || m.status == 4 || m.tier_llm != 3 || m.failure_class == 2,
        due_at(m) == if m.extracted_at_unix_nanos + backoff(m.attempts) < 0x1_0000_0000_0000_0000 {
            m.extracted_at_unix_nanos + backoff(m.attempts)
        } else {
            0xffff_ffff_ffff_ffff
        },
{
}

} // verus!
