//! Statements, the rows that hold them, and the keys of their indexes.

use vstd::prelude::*;

use crate::bytes::{
    be, bytes_eq, get_array, get_be, lemma_be_injective, lemma_be_len, lemma_pow256_values, put_be, put_bytes,
};
use crate::cells::{cell_models, Cell};
use crate::inline_evidence::InlineEvidence;
use crate::row::{
    array_at, blob_cell, flag, flag_at, flag_cell, group_row_fields, int_at, int_cell, lemma_opt_blob_injective,
    lemma_packed_injective, lemma_text_injective, list, list_at, list_cell, opt_array_at, opt_blob, opt_blob_cell,
    opt_int, opt_int_at, opt_int_cell, text, text_at, text_cell, u32_at, u8_at, CellModel, Packed, Row,
};
use crate::types::{
    scope_key, AuditId, EntityId, EvidenceOverflowId, ExtractorId, F32, MemoryId, PredicateId, RowScope, StatementId,
    StatementKind,
};

verus! {

/// The number of evidence entries that a statement row holds itself.
pub const INLINE_EVIDENCE_CAP: usize = 8;

/// The stored reason byte of a row that is not tombstoned.
pub const NOT_TOMBSTONED: u8 = 0;

/// One piece of evidence: a memory, and what an extractor made of it.
#[derive(Clone, Copy, Debug, PartialEq, Eq)]
pub struct EvidenceEntry {
    pub memory_id: MemoryId,
    /// Confidence in thousandths. Zero if the entry carries no metadata.
    pub confidence_milli: u16,
    pub timestamp_unix_nanos: u64,
    pub extractor_id: ExtractorId,
}

impl Packed for EvidenceEntry {
    open spec fn width() -> nat {
        30
    }

    open spec fn packed(self) -> Seq<u8> {
        self.memory_id.0@ + be(self.confidence_milli as nat, 2) + be(self.timestamp_unix_nanos as nat, 8) + be(
            self.extractor_id.0 as nat,
            4,
        )
    }

    proof fn packed_injective(a: Self, b: Self) {
        lemma_pow256_values();
        let x = a.packed();
        let y = b.packed();
        lemma_be_len(a.confidence_milli as nat, 2);
        lemma_be_len(b.confidence_milli as nat, 2);
        lemma_be_len(a.timestamp_unix_nanos as nat, 8);
        lemma_be_len(b.timestamp_unix_nanos as nat, 8);
        lemma_be_len(a.extractor_id.0 as nat, 4);
        lemma_be_len(b.extractor_id.0 as nat, 4);
        assert(x.subrange(0, 16) =~= a.memory_id.0@);
        assert(y.subrange(0, 16) =~= b.memory_id.0@);
        assert(a.memory_id.0 =~= b.memory_id.0);
        assert(x.subrange(16, 18) =~= be(a.confidence_milli as nat, 2));
        assert(y.subrange(16, 18) =~= be(b.confidence_milli as nat, 2));
        lemma_be_injective(a.confidence_milli as nat, b.confidence_milli as nat, 2);
        assert(x.subrange(18, 26) =~= be(a.timestamp_unix_nanos as nat, 8));
        assert(y.subrange(18, 26) =~= be(b.timestamp_unix_nanos as nat, 8));
        lemma_be_injective(a.timestamp_unix_nanos as nat, b.timestamp_unix_nanos as nat, 8);
        assert(x.subrange(26, 30) =~= be(a.extractor_id.0 as nat, 4));
        assert(y.subrange(26, 30) =~= be(b.extractor_id.0 as nat, 4));
        lemma_be_injective(a.extractor_id.0 as nat, b.extractor_id.0 as nat, 4);
    }

    proof fn packed_width(self) {
        lemma_be_len(self.confidence_milli as nat, 2);
        lemma_be_len(self.timestamp_unix_nanos as nat, 8);
        lemma_be_len(self.extractor_id.0 as nat, 4);
    }

    fn record_width() -> (r: usize) {
        30
    }

    fn pack(&self, out: &mut Vec<u8>) {
        put_bytes(out, self.memory_id.0.as_slice());
        put_be(out, self.confidence_milli as u64, 2);
        put_be(out, self.timestamp_unix_nanos, 8);
        put_be(out, self.extractor_id.0 as u64, 4);
        proof {
            assert(out@ =~= old(out)@ + self.packed());
        }
    }

    fn unpack(buf: &[u8], at: usize) -> (r: Self) {
        proof {
            lemma_pow256_values();
        }
        let end: usize = buf.len();
        let memory_id = MemoryId(get_array::<16>(buf, at));
        let confidence_milli: u16 = get_be(buf, at + 16, 2) as u16;
        let timestamp_unix_nanos: u64 = get_be(buf, at + 18, 8);
        let extractor_id = ExtractorId(get_be(buf, at + 26, 4) as u32);
        let r = EvidenceEntry { memory_id, confidence_milli, timestamp_unix_nanos, extractor_id };
        proof {
            assert(r.packed() =~= buf@.subrange(at as int, at + 30));
        }
        r
    }
}

/// A literal object. `T` is `String`, or `Seq<char>` where a statement is only
/// spoken of.
#[derive(Clone, Debug, PartialEq)]
pub enum StatementValue<T = String> {
    Text(T),
    Integer(u64),
    Bool(bool),
}

/// What a statement says of its subject.
#[derive(Clone, Debug, PartialEq)]
pub enum StatementObject<T = String> {
    Entity(EntityId),
    Value(StatementValue<T>),
    Memory(MemoryId),
    Statement(StatementId),
}

impl StatementObject {
    pub open spec fn model(&self) -> StatementObject<Seq<char>> {
        match self {
            StatementObject::Entity(e) => StatementObject::Entity(*e),
            StatementObject::Value(StatementValue::Text(s)) => StatementObject::Value(StatementValue::Text(s@)),
            StatementObject::Value(StatementValue::Integer(x)) => StatementObject::Value(
                StatementValue::Integer(*x),
            ),
            StatementObject::Value(StatementValue::Bool(b)) => StatementObject::Value(StatementValue::Bool(*b)),
            StatementObject::Memory(m) => StatementObject::Memory(*m),
            StatementObject::Statement(s) => StatementObject::Statement(*s),
        }
    }

    /// The variant's number: entity, value, memory, statement.
    pub fn discriminant(&self) -> (r: u8)
        ensures
            r == self.model().variant(),
    {
        match self {
            StatementObject::Entity(_) => 0,
            StatementObject::Value(_) => 1,
            StatementObject::Memory(_) => 2,
            StatementObject::Statement(_) => 3,
        }
    }

    fn tag_byte(&self) -> (r: u8)
        ensures
            r == self.model().tag(),
    {
        match self {
            StatementObject::Entity(_) => 0,
            StatementObject::Value(StatementValue::Text(_)) => 1,
            StatementObject::Value(StatementValue::Integer(_)) => 2,
            StatementObject::Value(StatementValue::Bool(_)) => 3,
            StatementObject::Memory(_) => 4,
            StatementObject::Statement(_) => 5,
        }
    }

    fn payload_cell(&self) -> (r: Cell<Vec<u8>>)
        ensures
            r.model() == self.model().payload(),
    {
        match self {
            StatementObject::Entity(e) => blob_cell(e.0.as_slice()),
            StatementObject::Value(StatementValue::Text(s)) => text_cell(s),
            StatementObject::Value(StatementValue::Integer(x)) => int_cell(*x),
            StatementObject::Value(StatementValue::Bool(b)) => flag_cell(*b),
            StatementObject::Memory(m) => blob_cell(m.0.as_slice()),
            StatementObject::Statement(s) => blob_cell(s.0.as_slice()),
        }
    }

    /// Whether two objects are the same.
    pub fn same(&self, other: &StatementObject) -> (r: bool)
        ensures
            r == (self.model() == other.model()),
    {
        match (self, other) {
            (StatementObject::Entity(a), StatementObject::Entity(b)) => *a == *b,
            (StatementObject::Value(StatementValue::Text(a)), StatementObject::Value(StatementValue::Text(b))) => {
                let same: bool = bytes_eq(a.as_str().as_bytes(), b.as_str().as_bytes());
                proof {
                    if same {
                        lemma_text_injective(a@, b@);
                    }
                }
                same
            },
            (
                StatementObject::Value(StatementValue::Integer(a)),
                StatementObject::Value(StatementValue::Integer(b)),
            ) => *a == *b,
            (StatementObject::Value(StatementValue::Bool(a)), StatementObject::Value(StatementValue::Bool(b))) => *a
                == *b,
            (StatementObject::Memory(a), StatementObject::Memory(b)) => *a == *b,
            (StatementObject::Statement(a), StatementObject::Statement(b)) => *a == *b,
            _ => false,
        }
    }

    /// A copy of the object.
    pub fn copy(&self) -> (r: StatementObject)
        ensures
            r.model() == self.model(),
    {
        match self {
            StatementObject::Entity(e) => StatementObject::Entity(*e),
            StatementObject::Value(StatementValue::Text(s)) => StatementObject::Value(
                StatementValue::Text(s.as_str().to_owned()),
            ),
            StatementObject::Value(StatementValue::Integer(x)) => StatementObject::Value(
                StatementValue::Integer(*x),
            ),
            StatementObject::Value(StatementValue::Bool(b)) => StatementObject::Value(StatementValue::Bool(*b)),
            StatementObject::Memory(m) => StatementObject::Memory(*m),
            StatementObject::Statement(s) => StatementObject::Statement(*s),
        }
    }
}

impl StatementObject<Seq<char>> {
    pub open spec fn variant(self) -> u8 {
        match self {
            StatementObject::Entity(_) => 0,
            StatementObject::Value(_) => 1,
            StatementObject::Memory(_) => 2,
            StatementObject::Statement(_) => 3,
        }
    }

    /// The stored tag: which variant, and which kind of value.
    pub open spec fn tag(self) -> u8 {
        match self {
            StatementObject::Entity(_) => 0,
            StatementObject::Value(StatementValue::Text(_)) => 1,
            StatementObject::Value(StatementValue::Integer(_)) => 2,
            StatementObject::Value(StatementValue::Bool(_)) => 3,
            StatementObject::Memory(_) => 4,
            StatementObject::Statement(_) => 5,
        }
    }

    pub open spec fn payload(self) -> CellModel {
        match self {
            StatementObject::Entity(e) => Cell::Blob(e.0@),
            StatementObject::Value(StatementValue::Text(s)) => text(s),
            StatementObject::Value(StatementValue::Integer(x)) => Cell::Int(x),
            StatementObject::Value(StatementValue::Bool(b)) => flag(b),
            StatementObject::Memory(m) => Cell::Blob(m.0@),
            StatementObject::Statement(s) => Cell::Blob(s.0@),
        }
    }
}

/// Objects with the same cells are the same.
proof fn lemma_object_cells(a: StatementObject<Seq<char>>, b: StatementObject<Seq<char>>)
    requires
        a.tag() == b.tag(),
        a.payload() == b.payload(),
    ensures
        a == b,
{
    broadcast use group_row_fields;

    match (a, b) {
        (StatementObject::Entity(x), StatementObject::Entity(y)) => {
            assert(x.0@ == y.0@);
        },
        (StatementObject::Memory(x), StatementObject::Memory(y)) => {
            assert(x.0@ == y.0@);
        },
        (StatementObject::Statement(x), StatementObject::Statement(y)) => {
            assert(x.0@ == y.0@);
        },
        _ => {},
    }
}

/// Reads an object from its two cells.
fn object_at(cells: &Vec<Cell<Vec<u8>>>, i: usize) -> (r: Option<StatementObject>)
    requires
        i + 1 < cells@.len(),
    ensures
        r matches Some(o) ==> cell_models(cells@)[i as int] == CellModel::Int(o.model().tag() as u64) && cell_models(
            cells@,
        )[i + 1] == o.model().payload(),
        r is None ==> forall|o: StatementObject<Seq<char>>|
            #![trigger o.tag()]
            #![trigger o.payload()]
            cell_models(cells@)[i as int] != CellModel::Int(o.tag() as u64) || cell_models(cells@)[i + 1]
                != o.payload(),
{
    let end: usize = cells.len();
    let tag: u8 = match u8_at(cells, i) {
        Some(x) => x,
        None => {
            return None;
        },
    };
    match tag {
        0 => match array_at::<16>(cells, i + 1) {
            Some(x) => Some(StatementObject::Entity(EntityId(x))),
            None => {
                proof {
                    assert forall|o: StatementObject<Seq<char>>| o.tag() == 0 implies cell_models(cells@)[i + 1]
                        != #[trigger] o.payload() by {
                        let bytes = o->Entity_0.0@;
                    }
                }
                None
            },
        },
        1 => match text_at(cells, i + 1) {
            Some(x) => Some(StatementObject::Value(StatementValue::Text(x))),
            None => None,
        },
        2 => match int_at(cells, i + 1) {
            Some(x) => Some(StatementObject::Value(StatementValue::Integer(x))),
            None => None,
        },
        3 => match flag_at(cells, i + 1) {
            Some(x) => Some(StatementObject::Value(StatementValue::Bool(x))),
            None => None,
        },
        4 => match array_at::<16>(cells, i + 1) {
            Some(x) => Some(StatementObject::Memory(MemoryId(x))),
            None => {
                proof {
                    assert forall|o: StatementObject<Seq<char>>| o.tag() == 4 implies cell_models(cells@)[i + 1]
                        != #[trigger] o.payload() by {
                        let bytes = o->Memory_0.0@;
                    }
                }
                None
            },
        },
        5 => match array_at::<16>(cells, i + 1) {
            Some(x) => Some(StatementObject::Statement(StatementId(x))),
            None => {
                proof {
                    assert forall|o: StatementObject<Seq<char>>| o.tag() == 5 implies cell_models(cells@)[i + 1]
                        != #[trigger] o.payload() by {
                        let bytes = o->Statement_0.0@;
                    }
                }
                None
            },
        },
        _ => None,
    }
}

/// What a statement is about.
#[derive(Clone, Copy, Debug, PartialEq, Eq)]
pub enum SubjectRef {
    Entity(EntityId),
    /// An entity that is not resolved yet, known by its audit row.
    Pending(AuditId),
    Memory(MemoryId),
}

impl SubjectRef {
    pub open spec fn tag(self) -> u8 {
        match self {
            SubjectRef::Entity(_) => 0,
            SubjectRef::Pending(_) => 1,
            SubjectRef::Memory(_) => 2,
        }
    }

    pub open spec fn id_bytes(self) -> [u8; 16] {
        match self {
            SubjectRef::Entity(e) => e.0,
            SubjectRef::Pending(a) => a.0,
            SubjectRef::Memory(m) => m.0,
        }
    }

    pub open spec fn of_parts(tag: u8, id: [u8; 16]) -> Option<SubjectRef> {
        if tag == 0 {
            Some(SubjectRef::Entity(EntityId(id)))
        } else if tag == 1 {
            Some(SubjectRef::Pending(AuditId(id)))
        } else if tag == 2 {
            Some(SubjectRef::Memory(MemoryId(id)))
        } else {
            None
        }
    }

    /// The stored tag and identifier.
    pub fn to_parts(&self) -> (r: (u8, [u8; 16]))
        ensures
            r == (self.tag(), self.id_bytes()),
    {
        match self {
            SubjectRef::Entity(e) => (0, e.0),
            SubjectRef::Pending(a) => (1, a.0),
            SubjectRef::Memory(m) => (2, m.0),
        }
    }

    pub fn from_parts(tag: u8, id: [u8; 16]) -> (r: Option<SubjectRef>)
        ensures
            r == SubjectRef::of_parts(tag, id),
    {
        match tag {
            0 => Some(SubjectRef::Entity(EntityId(id))),
            1 => Some(SubjectRef::Pending(AuditId(id))),
            2 => Some(SubjectRef::Memory(MemoryId(id))),
            _ => None,
        }
    }

    pub open spec fn entity(self) -> Option<EntityId> {
        match self {
            SubjectRef::Entity(e) => Some(e),
            _ => None,
        }
    }

    /// The entity, if the subject is one.
    pub fn as_entity(&self) -> (r: Option<EntityId>)
        ensures
            r == self.entity(),
    {
        match self {
            SubjectRef::Entity(e) => Some(*e),
            _ => None,
        }
    }
}

/// Where the evidence of a statement is: on its row, or spilled to a row of its
/// own.
#[derive(Clone, Debug, PartialEq, Eq)]
pub enum EvidenceRef<L = InlineEvidence> {
    Inline(L),
    Overflow(EvidenceOverflowId),
}

impl EvidenceRef {
    pub open spec fn model(&self) -> EvidenceRef<Seq<EvidenceEntry>> {
        match self {
            EvidenceRef::Inline(v) => EvidenceRef::Inline(v@),
            EvidenceRef::Overflow(id) => EvidenceRef::Overflow(*id),
        }
    }

    /// Evidence that stays with its statement.
    pub fn inline(entries: &[EvidenceEntry]) -> (r: EvidenceRef)
        ensures
            r.model() == EvidenceRef::Inline(entries@),
    {
        EvidenceRef::Inline(InlineEvidence::from_entries(entries))
    }

    /// A copy of the reference.
    pub fn copy(&self) -> (r: EvidenceRef)
        ensures
            r.model() == self.model(),
    {
        match self {
            EvidenceRef::Inline(v) => EvidenceRef::Inline(InlineEvidence::from_entries(v.as_slice())),
            EvidenceRef::Overflow(id) => EvidenceRef::Overflow(*id),
        }
    }
}

/// A copy of a list of evidence.
pub fn copy_entries(v: &[EvidenceEntry]) -> (r: Vec<EvidenceEntry>)
    ensures
        r@ == v@,
{
    let mut r: Vec<EvidenceEntry> = Vec::new();
    let mut i: usize = 0;
    while i < v.len()
        invariant
            i <= v.len(),
            r@ == v@.take(i as int),
        decreases v.len() - i,
    {
        r.push(v[i]);
        i = i + 1;
        proof {
            assert(v@.take(i as int) =~= v@.take(i as int - 1).push(v@[i as int - 1]));
        }
    }
    proof {
        assert(v@.take(i as int) =~= v@);
    }
    r
}

/// Why a statement was tombstoned.
#[derive(Clone, Copy, Debug, PartialEq, Eq, Structural)]
pub enum TombstoneReason {
    UserRequest,
    /// Physical removal is wanted once the grace period is over.
    Retract,
}

impl TombstoneReason {
    pub open spec fn byte(self) -> u8 {
        match self {
            TombstoneReason::UserRequest => 1,
            TombstoneReason::Retract => 2,
        }
    }

    pub fn as_u8(self) -> (r: u8)
        ensures
            r == self.byte(),
    {
        match self {
            TombstoneReason::UserRequest => 1,
            TombstoneReason::Retract => 2,
        }
    }
}

/// A statement: a kind of assertion that a subject stands in a predicate to an
/// object, with its evidence, its validity and its place in a chain of
/// versions. `T` and `L` are `String` and [`InlineEvidence`], or `Seq` where a
/// statement is only spoken of.
#[derive(Clone, Debug, PartialEq)]
pub struct Statement<T = String, L = InlineEvidence> {
    pub id: StatementId,
    pub kind: StatementKind,
    pub subject: SubjectRef,
    pub predicate: PredicateId,
    pub object: StatementObject<T>,
    pub confidence: F32,
    pub evidence: EvidenceRef<L>,
    pub extractor_id: ExtractorId,
    pub extracted_at_unix_nanos: u64,
    pub schema_version: u32,
    pub valid_from_unix_nanos: Option<u64>,
    pub valid_to_unix_nanos: Option<u64>,
    pub event_at_unix_nanos: Option<u64>,
    /// The place in the chain: 1 is the root.
    pub version: u32,
    pub supersedes: Option<StatementId>,
    pub superseded_by: Option<StatementId>,
    pub chain_root: StatementId,
    pub tombstoned: bool,
    pub tombstoned_at_unix_nanos: Option<u64>,
    /// The stored reason byte. Zero while the statement is not tombstoned.
    pub tombstone_reason: u8,
    /// When the record stopped being believed.
    pub record_invalidated_at_unix_nanos: Option<u64>,
    pub is_stateful: bool,
}

/// A statement as it is spoken of.
pub type StatementModel = Statement<Seq<char>, Seq<EvidenceEntry>>;

/// A statement row as it is spoken of.
pub type StatementRowModel = StatementMetadata<Seq<char>, Seq<EvidenceEntry>>;

/// A row of the `statements` table.
#[derive(Clone, Debug, PartialEq)]
pub struct StatementMetadata<T = String, L = Vec<EvidenceEntry>> {
    pub statement_id_bytes: [u8; 16],
    pub namespace_id: u32,
    pub agent_id_bytes: [u8; 16],
    /// The byte of the [`StatementKind`].
    pub kind: u8,
    /// Which variant of [`SubjectRef`].
    pub subject_kind: u8,
    /// The identifier of the subject, whichever variant it is.
    pub subject_entity_bytes: [u8; 16],
    pub predicate_id: u32,
    pub object: StatementObject<T>,
    pub confidence: F32,
    /// Empty if the evidence is spilled.
    pub evidence_inline: L,
    pub evidence_overflow_bytes: Option<[u8; 16]>,
    pub extractor_id: u32,
    pub extracted_at_unix_nanos: u64,
    pub schema_version: u32,
    pub valid_from_unix_nanos: Option<u64>,
    pub valid_to_unix_nanos: Option<u64>,
    pub event_at_unix_nanos: Option<u64>,
    pub version: u32,
    pub supersedes_bytes: Option<[u8; 16]>,
    pub superseded_by_bytes: Option<[u8; 16]>,
    pub chain_root_bytes: [u8; 16],
    pub tombstoned: u8,
    pub tombstoned_at_unix_nanos: Option<u64>,
    pub tombstone_reason: u8,
    pub record_invalidated_at_unix_nanos: Option<u64>,
    /// 1 while the row is neither superseded nor tombstoned.
    pub is_current: u8,
    pub is_stateful: bool,
}

impl Row for StatementMetadata {
    type M = StatementMetadata<Seq<char>, Seq<EvidenceEntry>>;

    open spec fn model(&self) -> StatementMetadata<Seq<char>, Seq<EvidenceEntry>> {
        StatementMetadata {
            statement_id_bytes: self.statement_id_bytes,
            namespace_id: self.namespace_id,
            agent_id_bytes: self.agent_id_bytes,
            kind: self.kind,
            subject_kind: self.subject_kind,
            subject_entity_bytes: self.subject_entity_bytes,
            predicate_id: self.predicate_id,
            object: self.object.model(),
            confidence: self.confidence,
            evidence_inline: self.evidence_inline@,
            evidence_overflow_bytes: self.evidence_overflow_bytes,
            extractor_id: self.extractor_id,
            extracted_at_unix_nanos: self.extracted_at_unix_nanos,
            schema_version: self.schema_version,
            valid_from_unix_nanos: self.valid_from_unix_nanos,
            valid_to_unix_nanos: self.valid_to_unix_nanos,
            event_at_unix_nanos: self.event_at_unix_nanos,
            version: self.version,
            supersedes_bytes: self.supersedes_bytes,
            superseded_by_bytes: self.superseded_by_bytes,
            chain_root_bytes: self.chain_root_bytes,
            tombstoned: self.tombstoned,
            tombstoned_at_unix_nanos: self.tombstoned_at_unix_nanos,
            tombstone_reason: self.tombstone_reason,
            record_invalidated_at_unix_nanos: self.record_invalidated_at_unix_nanos,
            is_current: self.is_current,
            is_stateful: self.is_stateful,
        }
    }

    open spec fn cells(m: StatementMetadata<Seq<char>, Seq<EvidenceEntry>>) -> Seq<CellModel> {
        seq![
            Cell::Blob(m.statement_id_bytes@),
            Cell::Int(m.namespace_id as u64),
            Cell::Blob(m.agent_id_bytes@),
            Cell::Int(m.kind as u64),
            Cell::Int(m.subject_kind as u64),
            Cell::Blob(m.subject_entity_bytes@),
            Cell::Int(m.predicate_id as u64),
            Cell::Int(m.object.tag() as u64),
            m.object.payload(),
            Cell::Int(m.confidence.bits as u64),
            list(m.evidence_inline),
            opt_blob(m.evidence_overflow_bytes),
            Cell::Int(m.extractor_id as u64),
            Cell::Int(m.extracted_at_unix_nanos),
            Cell::Int(m.schema_version as u64),
            opt_int(m.valid_from_unix_nanos),
            opt_int(m.valid_to_unix_nanos),
            opt_int(m.event_at_unix_nanos),
            Cell::Int(m.version as u64),
            opt_blob(m.supersedes_bytes),
            opt_blob(m.superseded_by_bytes),
            Cell::Blob(m.chain_root_bytes@),
            Cell::Int(m.tombstoned as u64),
            opt_int(m.tombstoned_at_unix_nanos),
            Cell::Int(m.tombstone_reason as u64),
            opt_int(m.record_invalidated_at_unix_nanos),
            Cell::Int(m.is_current as u64),
            flag(m.is_stateful),
        ]
    }

    proof fn cells_injective(a: StatementMetadata<Seq<char>, Seq<EvidenceEntry>>, b: StatementMetadata<Seq<char>, Seq<EvidenceEntry>>) {
        broadcast use group_row_fields;

        let x = Self::cells(a);
        let y = Self::cells(b);
        assert(x[0] == y[0]
            && x[1] == y[1]
            && x[2] == y[2]
            && x[3] == y[3]
            && x[4] == y[4]
            && x[5] == y[5]
            && x[6] == y[6]
            && x[7] == y[7]
            && x[8] == y[8]
            && x[9] == y[9]
            && x[10] == y[10]
            && x[11] == y[11]
            && x[12] == y[12]
            && x[13] == y[13]
            && x[14] == y[14]
            && x[15] == y[15]
            && x[16] == y[16]
            && x[17] == y[17]
            && x[18] == y[18]
            && x[19] == y[19]
            && x[20] == y[20]
            && x[21] == y[21]
            && x[22] == y[22]
            && x[23] == y[23]
            && x[24] == y[24]
            && x[25] == y[25]
            && x[26] == y[26]
            && x[27] == y[27]);
        assert(a.statement_id_bytes@ == b.statement_id_bytes@);
        assert(a.agent_id_bytes@ == b.agent_id_bytes@);
        assert(a.subject_entity_bytes@ == b.subject_entity_bytes@);
        lemma_object_cells(a.object, b.object);
        lemma_packed_injective(a.evidence_inline, b.evidence_inline);
        lemma_opt_blob_injective(a.evidence_overflow_bytes, b.evidence_overflow_bytes);
        lemma_opt_blob_injective(a.supersedes_bytes, b.supersedes_bytes);
        lemma_opt_blob_injective(a.superseded_by_bytes, b.superseded_by_bytes);
        assert(a.chain_root_bytes@ == b.chain_root_bytes@);
    }

    fn to_cells(&self) -> (r: Vec<Cell<Vec<u8>>>) {
        let cells: Vec<Cell<Vec<u8>>> = vec![
            blob_cell(self.statement_id_bytes.as_slice()),
            int_cell(self.namespace_id as u64),
            blob_cell(self.agent_id_bytes.as_slice()),
            int_cell(self.kind as u64),
            int_cell(self.subject_kind as u64),
            blob_cell(self.subject_entity_bytes.as_slice()),
            int_cell(self.predicate_id as u64),
            int_cell(self.object.tag_byte() as u64),
            self.object.payload_cell(),
            int_cell(self.confidence.bits as u64),
            list_cell(&self.evidence_inline),
            opt_blob_cell(&self.evidence_overflow_bytes),
            int_cell(self.extractor_id as u64),
            int_cell(self.extracted_at_unix_nanos),
            int_cell(self.schema_version as u64),
            opt_int_cell(self.valid_from_unix_nanos),
            opt_int_cell(self.valid_to_unix_nanos),
            opt_int_cell(self.event_at_unix_nanos),
            int_cell(self.version as u64),
            opt_blob_cell(&self.supersedes_bytes),
            opt_blob_cell(&self.superseded_by_bytes),
            blob_cell(self.chain_root_bytes.as_slice()),
            int_cell(self.tombstoned as u64),
            opt_int_cell(self.tombstoned_at_unix_nanos),
            int_cell(self.tombstone_reason as u64),
            opt_int_cell(self.record_invalidated_at_unix_nanos),
            int_cell(self.is_current as u64),
            flag_cell(self.is_stateful),
        ];
        proof {
            assert(cell_models(cells@) =~= Self::cells(self.model()));
        }
        cells
    }

    fn from_cells(cells: &Vec<Cell<Vec<u8>>>) -> (r: Option<Self>) {
        if cells.len() != 28 {
            proof {
                assert forall|m: StatementMetadata<Seq<char>, Seq<EvidenceEntry>>| #[trigger] Self::cells(m) != cell_models(cells@) by {
                    assert(Self::cells(m).len() == 28);
                }
            }
            return None;
        }
        let statement_id_bytes = match array_at::<16>(cells, 0) {
            Some(x) => x,
            None => return None,
        };
        let namespace_id = match u32_at(cells, 1) {
            Some(x) => x,
            None => return None,
        };
        let agent_id_bytes = match array_at::<16>(cells, 2) {
            Some(x) => x,
            None => return None,
        };
        let kind = match u8_at(cells, 3) {
            Some(x) => x,
            None => return None,
        };
        let subject_kind = match u8_at(cells, 4) {
            Some(x) => x,
            None => return None,
        };
        let subject_entity_bytes = match array_at::<16>(cells, 5) {
            Some(x) => x,
            None => return None,
        };
        let predicate_id = match u32_at(cells, 6) {
            Some(x) => x,
            None => return None,
        };
        let object = match object_at(cells, 7) {
            Some(x) => x,
            None => return None,
        };
        let confidence = match u32_at(cells, 9) {
            Some(x) => F32 { bits: x },
            None => return None,
        };
        let evidence_inline = match list_at::<EvidenceEntry>(cells, 10) {
            Some(x) => x,
            None => return None,
        };
        let evidence_overflow_bytes = match opt_array_at::<16>(cells, 11) {
            Some(x) => x,
            None => return None,
        };
        let extractor_id = match u32_at(cells, 12) {
            Some(x) => x,
            None => return None,
        };
        let extracted_at_unix_nanos = match int_at(cells, 13) {
            Some(x) => x,
            None => return None,
        };
        let schema_version = match u32_at(cells, 14) {
            Some(x) => x,
            None => return None,
        };
        let valid_from_unix_nanos = match opt_int_at(cells, 15) {
            Some(x) => x,
            None => return None,
        };
        let valid_to_unix_nanos = match opt_int_at(cells, 16) {
            Some(x) => x,
            None => return None,
        };
        let event_at_unix_nanos = match opt_int_at(cells, 17) {
            Some(x) => x,
            None => return None,
        };
        let version = match u32_at(cells, 18) {
            Some(x) => x,
            None => return None,
        };
        let supersedes_bytes = match opt_array_at::<16>(cells, 19) {
            Some(x) => x,
            None => return None,
        };
        let superseded_by_bytes = match opt_array_at::<16>(cells, 20) {
            Some(x) => x,
            None => return None,
        };
        let chain_root_bytes = match array_at::<16>(cells, 21) {
            Some(x) => x,
            None => return None,
        };
        let tombstoned = match u8_at(cells, 22) {
            Some(x) => x,
            None => return None,
        };
        let tombstoned_at_unix_nanos = match opt_int_at(cells, 23) {
            Some(x) => x,
            None => return None,
        };
        let tombstone_reason = match u8_at(cells, 24) {
            Some(x) => x,
            None => return None,
        };
        let record_invalidated_at_unix_nanos = match opt_int_at(cells, 25) {
            Some(x) => x,
            None => return None,
        };
        let is_current = match u8_at(cells, 26) {
            Some(x) => x,
            None => return None,
        };
        let is_stateful = match flag_at(cells, 27) {
            Some(x) => x,
            None => return None,
        };
        let row = StatementMetadata {
            statement_id_bytes,
            namespace_id,
            agent_id_bytes,
            kind,
            subject_kind,
            subject_entity_bytes,
            predicate_id,
            object,
            confidence,
            evidence_inline,
            evidence_overflow_bytes,
            extractor_id,
            extracted_at_unix_nanos,
            schema_version,
            valid_from_unix_nanos,
            valid_to_unix_nanos,
            event_at_unix_nanos,
            version,
            supersedes_bytes,
            superseded_by_bytes,
            chain_root_bytes,
            tombstoned,
            tombstoned_at_unix_nanos,
            tombstone_reason,
            record_invalidated_at_unix_nanos,
            is_current,
            is_stateful,
        };
        proof {
            assert(Self::cells(row.model()) =~= cell_models(cells@));
        }
        Some(row)
    }
}

/// A row of the `evidence_overflow` table: evidence that did not fit its statement's row.
#[derive(Clone, Debug, PartialEq)]
pub struct EvidenceOverflow<L = Vec<EvidenceEntry>> {
    pub overflow_id_bytes: [u8; 16],
    pub entries: L,
    pub created_at_unix_nanos: u64,
}

impl Row for EvidenceOverflow {
    type M = EvidenceOverflow<Seq<EvidenceEntry>>;

    open spec fn model(&self) -> EvidenceOverflow<Seq<EvidenceEntry>> {
        EvidenceOverflow {
            overflow_id_bytes: self.overflow_id_bytes,
            entries: self.entries@,
            created_at_unix_nanos: self.created_at_unix_nanos,
        }
    }

    open spec fn cells(m: EvidenceOverflow<Seq<EvidenceEntry>>) -> Seq<CellModel> {
        seq![
            Cell::Blob(m.overflow_id_bytes@),
            list(m.entries),
            Cell::Int(m.created_at_unix_nanos),
        ]
    }

    proof fn cells_injective(a: EvidenceOverflow<Seq<EvidenceEntry>>, b: EvidenceOverflow<Seq<EvidenceEntry>>) {
        broadcast use group_row_fields;

        let x = Self::cells(a);
        let y = Self::cells(b);
        assert(x[0] == y[0]
            && x[1] == y[1]
            && x[2] == y[2]);
        assert(a.overflow_id_bytes@ == b.overflow_id_bytes@);
        lemma_packed_injective(a.entries, b.entries);
    }

    fn to_cells(&self) -> (r: Vec<Cell<Vec<u8>>>) {
        let cells: Vec<Cell<Vec<u8>>> = vec![
            blob_cell(self.overflow_id_bytes.as_slice()),
            list_cell(&self.entries),
            int_cell(self.created_at_unix_nanos),
        ];
        proof {
            assert(cell_models(cells@) =~= Self::cells(self.model()));
        }
        cells
    }

    fn from_cells(cells: &Vec<Cell<Vec<u8>>>) -> (r: Option<Self>) {
        if cells.len() != 3 {
            proof {
                assert forall|m: EvidenceOverflow<Seq<EvidenceEntry>>| #[trigger] Self::cells(m) != cell_models(cells@) by {
                    assert(Self::cells(m).len() == 3);
                }
            }
            return None;
        }
        let overflow_id_bytes = match array_at::<16>(cells, 0) {
            Some(x) => x,
            None => return None,
        };
        let entries = match list_at::<EvidenceEntry>(cells, 1) {
            Some(x) => x,
            None => return None,
        };
        let created_at_unix_nanos = match int_at(cells, 2) {
            Some(x) => x,
            None => return None,
        };
        let row = EvidenceOverflow {
            overflow_id_bytes,
            entries,
            created_at_unix_nanos,
        };
        proof {
            assert(Self::cells(row.model()) =~= cell_models(cells@));
        }
        Some(row)
    }
}

impl Statement {
    pub open spec fn model(&self) -> StatementModel {
        Statement {
            id: self.id,
            kind: self.kind,
            subject: self.subject,
            predicate: self.predicate,
            object: self.object.model(),
            confidence: self.confidence,
            evidence: self.evidence.model(),
            extractor_id: self.extractor_id,
            extracted_at_unix_nanos: self.extracted_at_unix_nanos,
            schema_version: self.schema_version,
            valid_from_unix_nanos: self.valid_from_unix_nanos,
            valid_to_unix_nanos: self.valid_to_unix_nanos,
            event_at_unix_nanos: self.event_at_unix_nanos,
            version: self.version,
            supersedes: self.supersedes,
            superseded_by: self.superseded_by,
            chain_root: self.chain_root,
            tombstoned: self.tombstoned,
            tombstoned_at_unix_nanos: self.tombstoned_at_unix_nanos,
            tombstone_reason: self.tombstone_reason,
            record_invalidated_at_unix_nanos: self.record_invalidated_at_unix_nanos,
            is_stateful: self.is_stateful,
        }
    }

    /// A statement that begins a chain: valid without bounds, neither superseded
    /// nor tombstoned.
    pub fn new_root(
        id: StatementId,
        kind: StatementKind,
        subject: SubjectRef,
        predicate: PredicateId,
        object: StatementObject,
        confidence: F32,
        evidence: EvidenceRef,
        extractor_id: ExtractorId,
        extracted_at_unix_nanos: u64,
        schema_version: u32,
    ) -> (r: Statement)
        ensures
            r.model() == (StatementModel {
                id,
                kind,
                subject,
                predicate,
                object: object.model(),
                confidence,
                evidence: evidence.model(),
                extractor_id,
                extracted_at_unix_nanos,
                schema_version,
                valid_from_unix_nanos: None,
                valid_to_unix_nanos: None,
                event_at_unix_nanos: None,
                version: 1,
                supersedes: None,
                superseded_by: None,
                chain_root: id,
                tombstoned: false,
                tombstoned_at_unix_nanos: None,
                tombstone_reason: NOT_TOMBSTONED,
                record_invalidated_at_unix_nanos: None,
                is_stateful: false,
            }),
    {
        Statement {
            id,
            kind,
            subject,
            predicate,
            object,
            confidence,
            evidence,
            extractor_id,
            extracted_at_unix_nanos,
            schema_version,
            valid_from_unix_nanos: None,
            valid_to_unix_nanos: None,
            event_at_unix_nanos: None,
            version: 1,
            supersedes: None,
            superseded_by: None,
            chain_root: id,
            tombstoned: false,
            tombstoned_at_unix_nanos: None,
            tombstone_reason: NOT_TOMBSTONED,
            record_invalidated_at_unix_nanos: None,
            is_stateful: false,
        }
    }

    /// A copy of the statement.
    pub fn copy(&self) -> (r: Statement)
        ensures
            r.model() == self.model(),
    {
        Statement {
            id: self.id,
            kind: self.kind,
            subject: self.subject,
            predicate: self.predicate,
            object: self.object.copy(),
            confidence: self.confidence,
            evidence: self.evidence.copy(),
            extractor_id: self.extractor_id,
            extracted_at_unix_nanos: self.extracted_at_unix_nanos,
            schema_version: self.schema_version,
            valid_from_unix_nanos: self.valid_from_unix_nanos,
            valid_to_unix_nanos: self.valid_to_unix_nanos,
            event_at_unix_nanos: self.event_at_unix_nanos,
            version: self.version,
            supersedes: self.supersedes,
            superseded_by: self.superseded_by,
            chain_root: self.chain_root,
            tombstoned: self.tombstoned,
            tombstoned_at_unix_nanos: self.tombstoned_at_unix_nanos,
            tombstone_reason: self.tombstone_reason,
            record_invalidated_at_unix_nanos: self.record_invalidated_at_unix_nanos,
            is_stateful: self.is_stateful,
        }
    }
}

pub open spec fn opt_statement_bytes(o: Option<StatementId>) -> Option<[u8; 16]> {
    match o {
        Some(id) => Some(id.0),
        None => None,
    }
}

pub open spec fn opt_statement_id(o: Option<[u8; 16]>) -> Option<StatementId> {
    match o {
        Some(b) => Some(StatementId(b)),
        None => None,
    }
}

/// The row of a statement in a scope. It is current while it is neither
/// superseded nor tombstoned.
pub open spec fn row_of(s: StatementModel, scope: RowScope) -> StatementRowModel {
    StatementMetadata {
        statement_id_bytes: s.id.0,
        namespace_id: scope.namespace_id,
        agent_id_bytes: scope.agent_id_bytes,
        kind: s.kind.byte(),
        subject_kind: s.subject.tag(),
        subject_entity_bytes: s.subject.id_bytes(),
        predicate_id: s.predicate.0,
        object: s.object,
        confidence: s.confidence,
        evidence_inline: match s.evidence {
            EvidenceRef::Inline(v) => v,
            EvidenceRef::Overflow(_) => Seq::empty(),
        },
        evidence_overflow_bytes: match s.evidence {
            EvidenceRef::Inline(_) => None,
            EvidenceRef::Overflow(id) => Some(id.0),
        },
        extractor_id: s.extractor_id.0,
        extracted_at_unix_nanos: s.extracted_at_unix_nanos,
        schema_version: s.schema_version,
        valid_from_unix_nanos: s.valid_from_unix_nanos,
        valid_to_unix_nanos: s.valid_to_unix_nanos,
        event_at_unix_nanos: s.event_at_unix_nanos,
        version: s.version,
        supersedes_bytes: opt_statement_bytes(s.supersedes),
        superseded_by_bytes: opt_statement_bytes(s.superseded_by),
        chain_root_bytes: s.chain_root.0,
        tombstoned: if s.tombstoned {
            1
        } else {
            0
        },
        tombstoned_at_unix_nanos: s.tombstoned_at_unix_nanos,
        tombstone_reason: s.tombstone_reason,
        record_invalidated_at_unix_nanos: s.record_invalidated_at_unix_nanos,
        is_current: if !s.tombstoned && s.superseded_by is None {
            1
        } else {
            0
        },
        is_stateful: s.is_stateful,
    }
}

/// The statement that a row holds, if its kind and subject bytes are known.
pub open spec fn statement_of(m: StatementRowModel) -> Option<StatementModel> {
    match (StatementKind::of_byte(m.kind), SubjectRef::of_parts(m.subject_kind, m.subject_entity_bytes)) {
        (Some(kind), Some(subject)) => Some(
            Statement {
                id: StatementId(m.statement_id_bytes),
                kind,
                subject,
                predicate: PredicateId(m.predicate_id),
                object: m.object,
                confidence: m.confidence,
                evidence: match m.evidence_overflow_bytes {
                    Some(id) => EvidenceRef::Overflow(EvidenceOverflowId(id)),
                    None => EvidenceRef::Inline(m.evidence_inline),
                },
                extractor_id: ExtractorId(m.extractor_id),
                extracted_at_unix_nanos: m.extracted_at_unix_nanos,
                schema_version: m.schema_version,
                valid_from_unix_nanos: m.valid_from_unix_nanos,
                valid_to_unix_nanos: m.valid_to_unix_nanos,
                event_at_unix_nanos: m.event_at_unix_nanos,
                version: m.version,
                supersedes: opt_statement_id(m.supersedes_bytes),
                superseded_by: opt_statement_id(m.superseded_by_bytes),
                chain_root: StatementId(m.chain_root_bytes),
                tombstoned: m.tombstoned != 0,
                tombstoned_at_unix_nanos: m.tombstoned_at_unix_nanos,
                tombstone_reason: m.tombstone_reason,
                record_invalidated_at_unix_nanos: m.record_invalidated_at_unix_nanos,
                is_stateful: m.is_stateful,
            },
        ),
        _ => None,
    }
}

/// A statement is read back from its row as it was.
pub proof fn lemma_statement_of_row(s: StatementModel, scope: RowScope)
    ensures
        statement_of(row_of(s, scope)) == Some(s),
{
}

fn opt_bytes(o: Option<StatementId>) -> (r: Option<[u8; 16]>)
    ensures
        r == opt_statement_bytes(o),
{
    match o {
        Some(id) => Some(id.0),
        None => None,
    }
}

fn opt_id(o: Option<[u8; 16]>) -> (r: Option<StatementId>)
    ensures
        r == opt_statement_id(o),
{
    match o {
        Some(b) => Some(StatementId(b)),
        None => None,
    }
}

/// The row of a statement in a scope.
pub fn metadata_from_statement(s: &Statement, scope: RowScope) -> (r: StatementMetadata)
    ensures
        r.model() == row_of(s.model(), scope),
{
    let (subject_kind, subject_entity_bytes) = s.subject.to_parts();
    let (evidence_inline, evidence_overflow_bytes) = match &s.evidence {
        EvidenceRef::Inline(v) => (copy_entries(v.as_slice()), None),
        EvidenceRef::Overflow(id) => (Vec::new(), Some(id.0)),
    };
    StatementMetadata {
        statement_id_bytes: s.id.0,
        namespace_id: scope.namespace_id,
        agent_id_bytes: scope.agent_id_bytes,
        kind: s.kind.as_u8(),
        subject_kind,
        subject_entity_bytes,
        predicate_id: s.predicate.0,
        object: s.object.copy(),
        confidence: s.confidence,
        evidence_inline,
        evidence_overflow_bytes,
        extractor_id: s.extractor_id.0,
        extracted_at_unix_nanos: s.extracted_at_unix_nanos,
        schema_version: s.schema_version,
        valid_from_unix_nanos: s.valid_from_unix_nanos,
        valid_to_unix_nanos: s.valid_to_unix_nanos,
        event_at_unix_nanos: s.event_at_unix_nanos,
        version: s.version,
        supersedes_bytes: opt_bytes(s.supersedes),
        superseded_by_bytes: opt_bytes(s.superseded_by),
        chain_root_bytes: s.chain_root.0,
        tombstoned: if s.tombstoned {
            1
        } else {
            0
        },
        tombstoned_at_unix_nanos: s.tombstoned_at_unix_nanos,
        tombstone_reason: s.tombstone_reason,
        record_invalidated_at_unix_nanos: s.record_invalidated_at_unix_nanos,
        is_current: if !s.tombstoned && s.superseded_by.is_none() {
            1
        } else {
            0
        },
        is_stateful: s.is_stateful,
    }
}

/// The statement that a row holds, if its kind and subject bytes are known.
pub fn statement_from_metadata(m: &StatementMetadata) -> (r: Option<Statement>)
    ensures
        r matches Some(s) ==> statement_of(m.model()) == Some(s.model()),
        r is None ==> statement_of(m.model()) is None,
{
    let kind = match StatementKind::from_u8(m.kind) {
        Some(k) => k,
        None => return None,
    };
    let subject = match SubjectRef::from_parts(m.subject_kind, m.subject_entity_bytes) {
        Some(x) => x,
        None => return None,
    };
    Some(
        Statement {
            id: StatementId(m.statement_id_bytes),
            kind,
            subject,
            predicate: PredicateId(m.predicate_id),
            object: m.object.copy(),
            confidence: m.confidence,
            evidence: match m.evidence_overflow_bytes {
                Some(id) => EvidenceRef::Overflow(EvidenceOverflowId(id)),
                None => EvidenceRef::inline(m.evidence_inline.as_slice()),
            },
            extractor_id: ExtractorId(m.extractor_id),
            extracted_at_unix_nanos: m.extracted_at_unix_nanos,
            schema_version: m.schema_version,
            valid_from_unix_nanos: m.valid_from_unix_nanos,
            valid_to_unix_nanos: m.valid_to_unix_nanos,
            event_at_unix_nanos: m.event_at_unix_nanos,
            version: m.version,
            supersedes: opt_id(m.supersedes_bytes),
            superseded_by: opt_id(m.superseded_by_bytes),
            chain_root: StatementId(m.chain_root_bytes),
            tombstoned: m.tombstoned != 0,
            tombstoned_at_unix_nanos: m.tombstoned_at_unix_nanos,
            tombstone_reason: m.tombstone_reason,
            record_invalidated_at_unix_nanos: m.record_invalidated_at_unix_nanos,
            is_stateful: m.is_stateful,
        },
    )
}

// Confidence buckets.

/// The least binary32 bit pattern of each bucket from 1 on: one to ten tenths.
pub open spec fn bucket_floor(k: int) -> int {
    if k <= 0 {
        0
    } else if k == 1 {
        0x3dcc_cccd
    } else if k == 2 {
        0x3e4c_cccd
    } else if k == 3 {
        0x3e99_999a
    } else if k == 4 {
        0x3ecc_cccd
    } else if k == 5 {
        0x3f00_0000
    } else if k == 6 {
        0x3f19_999a
    } else if k == 7 {
        0x3f33_3333
    } else if k == 8 {
        0x3f4c_cccd
    } else if k == 9 {
        0x3f66_6666
    } else {
        0x3f80_0000
    }
}

/// The bucket of a confidence: how many whole tenths it reaches, up to ten.
pub open spec fn bucket_of(c: F32) -> u8 {
    if c.rank() >= bucket_floor(10) {
        10
    } else if c.rank() >= bucket_floor(9) {
        9
    } else if c.rank() >= bucket_floor(8) {
        8
    } else if c.rank() >= bucket_floor(7) {
        7
    } else if c.rank() >= bucket_floor(6) {
        6
    } else if c.rank() >= bucket_floor(5) {
        5
    } else if c.rank() >= bucket_floor(4) {
        4
    } else if c.rank() >= bucket_floor(3) {
        3
    } else if c.rank() >= bucket_floor(2) {
        2
    } else if c.rank() >= bucket_floor(1) {
        1
    } else {
        0
    }
}

/// The coarse bucket that a confidence is indexed under.
pub fn confidence_bucket(c: F32) -> (r: u8)
    ensures
        r == bucket_of(c),
        r <= 10,
{
    if c.bits >= 0x8000_0000 {
        return 0;
    }
    let x: u32 = c.bits;
    if x >= 0x3f80_0000 {
        10
    } else if x >= 0x3f66_6666 {
        9
    } else if x >= 0x3f4c_cccd {
        8
    } else if x >= 0x3f33_3333 {
        7
    } else if x >= 0x3f19_999a {
        6
    } else if x >= 0x3f00_0000 {
        5
    } else if x >= 0x3ecc_cccd {
        4
    } else if x >= 0x3e99_999a {
        3
    } else if x >= 0x3e4c_cccd {
        2
    } else if x >= 0x3dcc_cccd {
        1
    } else {
        0
    }
}

/// The buckets are tenths: a confidence is in the bucket of the most tenths that it is
/// not below, by the bits of the tenths. One with a sign is in the lowest.
pub proof fn lemma_bucket_by_bits(c: F32)
    ensures
        c.bits < 0x8000_0000 ==> {
            &&& bucket_of(c) >= 1 <==> c.bits >= 0x3dcc_cccd
            &&& bucket_of(c) >= 2 <==> c.bits >= 0x3e4c_cccd
            &&& bucket_of(c) >= 3 <==> c.bits >= 0x3e99_999a
            &&& bucket_of(c) >= 4 <==> c.bits >= 0x3ecc_cccd
            &&& bucket_of(c) >= 5 <==> c.bits >= 0x3f00_0000
            &&& bucket_of(c) >= 6 <==> c.bits >= 0x3f19_999a
            &&& bucket_of(c) >= 7 <==> c.bits >= 0x3f33_3333
            &&& bucket_of(c) >= 8 <==> c.bits >= 0x3f4c_cccd
            &&& bucket_of(c) >= 9 <==> c.bits >= 0x3f66_6666
            &&& bucket_of(c) >= 10 <==> c.bits >= 0x3f80_0000
        },
        c.bits >= 0x8000_0000 ==> bucket_of(c) == 0,
        bucket_of(c) <= 10,
{
}

/// A higher confidence is never in a lower bucket.
pub proof fn lemma_bucket_monotone(a: F32, b: F32)
    requires
        a.lt_spec(b),
    ensures
        bucket_of(a) <= bucket_of(b),
{
}

// Index keys. Each begins with the scope, so that one tenant's rows are
// contiguous.

/// `statements_by_subject`, up to the current flag.
pub open spec fn by_subject_prefix(scope: RowScope, subject: [u8; 16], kind: u8, predicate: u32, current: u8) -> Seq<u8> {
    scope_key(scope) + subject@ + seq![kind] + be(predicate as nat, 4) + seq![current]
}

/// `statements_by_subject`: scope, subject, kind, predicate, current flag,
/// statement.
pub open spec fn by_subject_key(
    scope: RowScope,
    subject: [u8; 16],
    kind: u8,
    predicate: u32,
    current: u8,
    id: [u8; 16],
) -> Seq<u8> {
    by_subject_prefix(scope, subject, kind, predicate, current) + id@
}

/// `statements_by_predicate`: scope, predicate, kind, confidence bucket,
/// statement.
pub open spec fn by_predicate_key(scope: RowScope, predicate: u32, kind: u8, bucket: u8, id: [u8; 16]) -> Seq<u8> {
    scope_key(scope) + be(predicate as nat, 4) + seq![kind] + seq![bucket] + id@
}

/// `statements_by_object_entity`: scope, object, kind, statement.
pub open spec fn by_object_key(scope: RowScope, object: [u8; 16], kind: u8, id: [u8; 16]) -> Seq<u8> {
    scope_key(scope) + object@ + seq![kind] + id@
}

/// `statements_by_event_time`: scope, time, subject, statement.
pub open spec fn by_event_key(scope: RowScope, at: u64, subject: [u8; 16], id: [u8; 16]) -> Seq<u8> {
    scope_key(scope) + be(at as nat, 8) + subject@ + id@
}

/// `statements_by_evidence`: scope, memory, statement.
pub open spec fn by_evidence_key(scope: RowScope, memory: [u8; 16], id: [u8; 16]) -> Seq<u8> {
    scope_key(scope) + memory@ + id@
}

/// `statement_chain`: scope, chain root, version.
pub open spec fn chain_key(scope: RowScope, root: [u8; 16], version: u32) -> Seq<u8> {
    scope_key(scope) + root@ + be(version as nat, 4)
}

/// The head of every key of one scope.
pub fn put_scope(scope: &RowScope) -> (r: Vec<u8>)
    ensures
        r@ == scope_key(*scope),
{
    let mut k: Vec<u8> = Vec::new();
    put_be(&mut k, scope.namespace_id as u64, 4);
    put_bytes(&mut k, scope.agent_id_bytes.as_slice());
    k
}

fn put_u8(out: &mut Vec<u8>, x: u8)
    ensures
        final(out)@ == old(out)@ + seq![x],
{
    out.push(x);
    proof {
        assert(out@ =~= old(out)@ + seq![x]);
    }
}

pub fn make_by_subject_prefix(scope: &RowScope, subject: &[u8; 16], kind: u8, predicate: u32, current: u8) -> (r: Vec<u8>)
    ensures
        r@ == by_subject_prefix(*scope, *subject, kind, predicate, current),
{
    let mut k = put_scope(scope);
    put_bytes(&mut k, subject.as_slice());
    put_u8(&mut k, kind);
    put_be(&mut k, predicate as u64, 4);
    put_u8(&mut k, current);
    k
}

pub fn make_by_subject_key(
    scope: &RowScope,
    subject: &[u8; 16],
    kind: u8,
    predicate: u32,
    current: u8,
    id: &[u8; 16],
) -> (r: Vec<u8>)
    ensures
        r@ == by_subject_key(*scope, *subject, kind, predicate, current, *id),
{
    let mut k = make_by_subject_prefix(scope, subject, kind, predicate, current);
    put_bytes(&mut k, id.as_slice());
    k
}

pub fn make_by_predicate_key(scope: &RowScope, predicate: u32, kind: u8, bucket: u8, id: &[u8; 16]) -> (r: Vec<u8>)
    ensures
        r@ == by_predicate_key(*scope, predicate, kind, bucket, *id),
{
    let mut k = put_scope(scope);
    put_be(&mut k, predicate as u64, 4);
    put_u8(&mut k, kind);
    put_u8(&mut k, bucket);
    put_bytes(&mut k, id.as_slice());
    k
}

pub fn make_by_object_key(scope: &RowScope, object: &[u8; 16], kind: u8, id: &[u8; 16]) -> (r: Vec<u8>)
    ensures
        r@ == by_object_key(*scope, *object, kind, *id),
{
    let mut k = put_scope(scope);
    put_bytes(&mut k, object.as_slice());
    put_u8(&mut k, kind);
    put_bytes(&mut k, id.as_slice());
    k
}

pub fn make_by_event_key(scope: &RowScope, at: u64, subject: &[u8; 16], id: &[u8; 16]) -> (r: Vec<u8>)
    ensures
        r@ == by_event_key(*scope, at, *subject, *id),
{
    let mut k = put_scope(scope);
    put_be(&mut k, at, 8);
    put_bytes(&mut k, subject.as_slice());
    put_bytes(&mut k, id.as_slice());
    k
}

pub fn make_by_evidence_key(scope: &RowScope, memory: &[u8; 16], id: &[u8; 16]) -> (r: Vec<u8>)
    ensures
        r@ == by_evidence_key(*scope, *memory, *id),
{
    let mut k = put_scope(scope);
    put_bytes(&mut k, memory.as_slice());
    put_bytes(&mut k, id.as_slice());
    k
}

pub fn make_chain_key(scope: &RowScope, root: &[u8; 16], version: u32) -> (r: Vec<u8>)
    ensures
        r@ == chain_key(*scope, *root, version),
{
    let mut k = put_scope(scope);
    put_bytes(&mut k, root.as_slice());
    put_be(&mut k, version as u64, 4);
    k
}

impl StatementMetadata {
    pub fn is_tombstoned(&self) -> (r: bool)
        ensures
            r == (self.tombstoned != 0),
    {
        self.tombstoned != 0
    }

    pub fn scope(&self) -> (r: RowScope)
        ensures
            r == scope_of(self.model()),
    {
        RowScope { namespace_id: self.namespace_id, agent_id_bytes: self.agent_id_bytes }
    }
}

/// The scope that a row was written under.
pub open spec fn scope_of(m: StatementRowModel) -> RowScope {
    RowScope { namespace_id: m.namespace_id, agent_id_bytes: m.agent_id_bytes }
}

} // verus!
