//! Memories, and the index of each agent's memories by time.

use vstd::prelude::*;

use crate::bytes::{
    be, get_array, lemma_be_len, lemma_be_order, lemma_lex_join, lemma_pow256_values, put_be, put_bytes,
};
use crate::cells::{cell_models, Cell};
use crate::order::{has_prefix, lex_lt};
use crate::row::{
    array_at, blob_cell, group_row_fields, int_at, int_cell, lemma_opt_blob_injective, opt_array_at, opt_blob,
    opt_blob_cell, opt_int, opt_int_at, opt_int_cell, u32_at, u8_at, CellModel, Row,
};
use crate::types::{AgentId, ContextId, MemoryId, F32};

pub mod flags;

verus! {

/// The length of a key of the timeline: agent, time, context, memory.
pub const AGENT_TIMELINE_KEY_LEN: usize = 48;

/// A key of the timeline: agent, time, context, memory.
pub open spec fn timeline_key(agent: [u8; 16], at: u64, context: u64, memory: [u8; 16]) -> Seq<u8> {
    Seq::<u8>::empty() + agent@ + be(at as nat, 8) + be(context as nat, 8) + memory@
}

/// The key under which a memory stands in its agent's timeline.
#[must_use]
pub fn agent_timeline_key(
    agent_id_bytes: [u8; 16],
    created_at_unix_nanos: u64,
    context_id: u64,
    memory_id_bytes: [u8; 16],
) -> (r: [u8; 48])
    ensures
        r@ == timeline_key(agent_id_bytes, created_at_unix_nanos, context_id, memory_id_bytes),
{
    let mut k: Vec<u8> = Vec::new();
    put_bytes(&mut k, agent_id_bytes.as_slice());
    put_be(&mut k, created_at_unix_nanos, 8);
    put_be(&mut k, context_id, 8);
    put_bytes(&mut k, memory_id_bytes.as_slice());
    proof {
        lemma_be_len(created_at_unix_nanos as nat, 8);
        lemma_be_len(context_id as nat, 8);
    }
    let r = get_array::<48>(k.as_slice(), 0);
    proof {
        assert(r@ =~= k@);
    }
    r
}

/// The head of every key of an agent.
#[must_use]
pub fn agent_timeline_prefix_agent(agent_id_bytes: [u8; 16]) -> (r: [u8; 16])
    ensures
        r == agent_id_bytes,
{
    agent_id_bytes
}

/// The head of every key of an agent at a time.
#[must_use]
pub fn agent_timeline_prefix_agent_time(agent_id_bytes: [u8; 16], created_at_unix_nanos: u64) -> (r: [u8; 24])
    ensures
        r@ == agent_id_bytes@ + be(created_at_unix_nanos as nat, 8),
{
    let mut k: Vec<u8> = Vec::new();
    put_bytes(&mut k, agent_id_bytes.as_slice());
    put_be(&mut k, created_at_unix_nanos, 8);
    proof {
        lemma_be_len(created_at_unix_nanos as nat, 8);
    }
    let r = get_array::<24>(k.as_slice(), 0);
    proof {
        assert(r@ =~= agent_id_bytes@ + be(created_at_unix_nanos as nat, 8));
    }
    r
}

/// Within one agent, an earlier memory comes first in key order.
pub proof fn lemma_timeline_is_chronological(
    agent: [u8; 16],
    a_at: u64,
    a_context: u64,
    a_memory: [u8; 16],
    b_at: u64,
    b_context: u64,
    b_memory: [u8; 16],
)
    requires
        a_at < b_at,
    ensures
        lex_lt(timeline_key(agent, a_at, a_context, a_memory), timeline_key(agent, b_at, b_context, b_memory)),
{
    lemma_pow256_values();
    lemma_be_len(a_at as nat, 8);
    lemma_be_len(b_at as nat, 8);
    lemma_be_order(a_at as nat, b_at as nat, 8);
    let a_rest = be(a_context as nat, 8) + a_memory@;
    let b_rest = be(b_context as nat, 8) + b_memory@;
    lemma_lex_join(be(a_at as nat, 8), be(b_at as nat, 8), a_rest, b_rest);
    lemma_lex_join(agent@, agent@, be(a_at as nat, 8) + a_rest, be(b_at as nat, 8) + b_rest);
    assert(timeline_key(agent, a_at, a_context, a_memory) =~= agent@ + (be(a_at as nat, 8) + a_rest));
    assert(timeline_key(agent, b_at, b_context, b_memory) =~= agent@ + (be(b_at as nat, 8) + b_rest));
}

/// A key begins with the agent, and with the agent and the time.
pub proof fn lemma_timeline_prefixes(agent: [u8; 16], at: u64, context: u64, memory: [u8; 16])
    ensures
        has_prefix(timeline_key(agent, at, context, memory), agent@),
        has_prefix(timeline_key(agent, at, context, memory), agent@ + be(at as nat, 8)),
{
    lemma_be_len(at as nat, 8);
    lemma_be_len(context as nat, 8);
    let k = timeline_key(agent, at, context, memory);
    assert(k.take(16) =~= agent@);
    assert(k.take(24) =~= agent@ + be(at as nat, 8));
}

/// What a memory is.
#[derive(Clone, Copy, Debug, PartialEq, Eq, Structural)]
pub enum MemoryKind {
    Episodic,
    Semantic,
    Consolidated,
}

/// A byte that names no kind of memory.
#[derive(Clone, Copy, Debug, PartialEq, Eq, Structural)]
pub enum BadMemoryKind {
    Invalid(u8),
}

pub open spec fn memory_kind_byte(k: MemoryKind) -> u8 {
    match k {
        MemoryKind::Episodic => 0,
        MemoryKind::Semantic => 1,
        MemoryKind::Consolidated => 2,
    }
}

pub open spec fn memory_kind_of(b: u8) -> Result<MemoryKind, BadMemoryKind> {
    if b == 0 {
        Ok(MemoryKind::Episodic)
    } else if b == 1 {
        Ok(MemoryKind::Semantic)
    } else if b == 2 {
        Ok(MemoryKind::Consolidated)
    } else {
        Err(BadMemoryKind::Invalid(b))
    }
}

pub fn memory_kind_to_u8(k: MemoryKind) -> (r: u8)
    ensures
        r == memory_kind_byte(k),
{
    match k {
        MemoryKind::Episodic => 0,
        MemoryKind::Semantic => 1,
        MemoryKind::Consolidated => 2,
    }
}

pub fn memory_kind_from_u8(b: u8) -> (r: Result<MemoryKind, BadMemoryKind>)
    ensures
        r == memory_kind_of(b),
{
    match b {
        0 => Ok(MemoryKind::Episodic),
        1 => Ok(MemoryKind::Semantic),
        2 => Ok(MemoryKind::Consolidated),
        x => Err(BadMemoryKind::Invalid(x)),
    }
}

/// A kind is read back from its byte as it was.
pub proof fn lemma_memory_kind_round_trip(k: MemoryKind)
    ensures
        memory_kind_of(memory_kind_byte(k)) == Ok::<_, BadMemoryKind>(k),
{
}

/// A row of the `memories` table.
#[derive(Clone, Copy, Debug, PartialEq)]
pub struct MemoryMetadata {
    pub memory_id_bytes: [u8; 16],
    pub agent_id_bytes: [u8; 16],
    pub context_id: u64,
    pub slot_id: u64,
    pub slot_version: u32,
    /// The byte of the [`MemoryKind`].
    pub kind: u8,
    pub text_size: u32,
    pub created_at_unix_nanos: u64,
    pub last_accessed_at_unix_nanos: u64,
    pub forgot_at_unix_nanos: Option<u64>,
    pub tombstoned_at_unix_nanos: Option<u64>,
    pub consolidated_at_unix_nanos: Option<u64>,
    /// When the content happened, if the client said so.
    pub occurred_at_unix_nanos: Option<u64>,
    pub salience: F32,
    pub salience_initial: F32,
    pub access_count: u32,
    pub embedding_model_fp: [u8; 16],
    /// See [`flags`].
    pub flags: u32,
    pub edges_out_count: u32,
    pub edges_in_count: u32,
    /// The hash of the text, if the memory takes part in deduplication.
    pub content_hash: Option<[u8; 32]>,
    /// The log position of the record that created the memory; 0 if unknown.
    pub encoded_at_lsn: u64,
}

impl Row for MemoryMetadata {
    type M = MemoryMetadata;

    open spec fn model(&self) -> MemoryMetadata {
        *self
    }

    open spec fn cells(m: MemoryMetadata) -> Seq<CellModel> {
        seq![
            Cell::Blob(m.memory_id_bytes@),
            Cell::Blob(m.agent_id_bytes@),
            Cell::Int(m.context_id),
            Cell::Int(m.slot_id),
            Cell::Int(m.slot_version as u64),
            Cell::Int(m.kind as u64),
            Cell::Int(m.text_size as u64),
            Cell::Int(m.created_at_unix_nanos),
            Cell::Int(m.last_accessed_at_unix_nanos),
            opt_int(m.forgot_at_unix_nanos),
            opt_int(m.tombstoned_at_unix_nanos),
            opt_int(m.consolidated_at_unix_nanos),
            opt_int(m.occurred_at_unix_nanos),
            Cell::Int(m.salience.bits as u64),
            Cell::Int(m.salience_initial.bits as u64),
            Cell::Int(m.access_count as u64),
            Cell::Blob(m.embedding_model_fp@),
            Cell::Int(m.flags as u64),
            Cell::Int(m.edges_out_count as u64),
            Cell::Int(m.edges_in_count as u64),
            opt_blob(m.content_hash),
            Cell::Int(m.encoded_at_lsn),
        ]
    }

    proof fn cells_injective(a: MemoryMetadata, b: MemoryMetadata) {
        broadcast use group_row_fields;

        let x = Self::cells(a);
        let y = Self::cells(b);
        assert(x[0] == y[0]
            && x[1] == y[1]
            && x[2] == y[2]
            && x[3] == y[3]
            && x[4] == y[4]
            && x[5] == y[5]
            && x[6] == y[6]
            && x[7] == y[7]
            && x[8] == y[8]
            && x[9] == y[9]
            && x[10] == y[10]
            && x[11] == y[11]
            && x[12] == y[12]
            && x[13] == y[13]
            && x[14] == y[14]
            && x[15] == y[15]
            && x[16] == y[16]
            && x[17] == y[17]
            && x[18] == y[18]
            && x[19] == y[19]
            && x[20] == y[20]
            && x[21] == y[21]);
        assert(a.memory_id_bytes@ == b.memory_id_bytes@);
        assert(a.agent_id_bytes@ == b.agent_id_bytes@);
        assert(a.embedding_model_fp@ == b.embedding_model_fp@);
        lemma_opt_blob_injective(a.content_hash, b.content_hash);
    }

    fn to_cells(&self) -> (r: Vec<Cell<Vec<u8>>>) {
        let cells: Vec<Cell<Vec<u8>>> = vec![
            blob_cell(self.memory_id_bytes.as_slice()),
            blob_cell(self.agent_id_bytes.as_slice()),
            int_cell(self.context_id),
            int_cell(self.slot_id),
            int_cell(self.slot_version as u64),
            int_cell(self.kind as u64),
            int_cell(self.text_size as u64),
            int_cell(self.created_at_unix_nanos),
            int_cell(self.last_accessed_at_unix_nanos),
            opt_int_cell(self.forgot_at_unix_nanos),
            opt_int_cell(self.tombstoned_at_unix_nanos),
            opt_int_cell(self.consolidated_at_unix_nanos),
            opt_int_cell(self.occurred_at_unix_nanos),
            int_cell(self.salience.bits as u64),
            int_cell(self.salience_initial.bits as u64),
            int_cell(self.access_count as u64),
            blob_cell(self.embedding_model_fp.as_slice()),
            int_cell(self.flags as u64),
            int_cell(self.edges_out_count as u64),
            int_cell(self.edges_in_count as u64),
            opt_blob_cell(&self.content_hash),
            int_cell(self.encoded_at_lsn),
        ];
        proof {
            assert(cell_models(cells@) =~= Self::cells(self.model()));
        }
        cells
    }

    fn from_cells(cells: &Vec<Cell<Vec<u8>>>) -> (r: Option<Self>) {
        if cells.len() != 22 {
            proof {
                assert forall|m: MemoryMetadata| #[trigger] Self::cells(m) != cell_models(cells@) by {
                    assert(Self::cells(m).len() == 22);
                }
            }
            return None;
        }
        let memory_id_bytes = match array_at::<16>(cells, 0) {
            Some(x) => x,
            None => return None,
        };
        let agent_id_bytes = match array_at::<16>(cells, 1) {
            Some(x) => x,
            None => return None,
        };
        let context_id = match int_at(cells, 2) {
            Some(x) => x,
            None => return None,
        };
        let slot_id = match int_at(cells, 3) {
            Some(x) => x,
            None => return None,
        };
        let slot_version = match u32_at(cells, 4) {
            Some(x) => x,
            None => return None,
        };
        let kind = match u8_at(cells, 5) {
            Some(x) => x,
            None => return None,
        };
        let text_size = match u32_at(cells, 6) {
            Some(x) => x,
            None => return None,
        };
        let created_at_unix_nanos = match int_at(cells, 7) {
            Some(x) => x,
            None => return None,
        };
        let last_accessed_at_unix_nanos = match int_at(cells, 8) {
            Some(x) => x,
            None => return None,
        };
        let forgot_at_unix_nanos = match opt_int_at(cells, 9) {
            Some(x) => x,
            None => return None,
        };
        let tombstoned_at_unix_nanos = match opt_int_at(cells, 10) {
            Some(x) => x,
            None => return None,
        };
        let consolidated_at_unix_nanos = match opt_int_at(cells, 11) {
            Some(x) => x,
            None => return None,
        };
        let occurred_at_unix_nanos = match opt_int_at(cells, 12) {
            Some(x) => x,
            None => return None,
        };
        let salience = match u32_at(cells, 13) {
            Some(x) => F32 { bits: x },
            None => return None,
        };
        let salience_initial = match u32_at(cells, 14) {
            Some(x) => F32 { bits: x },
            None => return None,
        };
        let access_count = match u32_at(cells, 15) {
            Some(x) => x,
            None => return None,
        };
        let embedding_model_fp = match array_at::<16>(cells, 16) {
            Some(x) => x,
            None => return None,
        };
        let flags = match u32_at(cells, 17) {
            Some(x) => x,
            None => return None,
        };
        let edges_out_count = match u32_at(cells, 18) {
            Some(x) => x,
            None => return None,
        };
        let edges_in_count = match u32_at(cells, 19) {
            Some(x) => x,
            None => return None,
        };
        let content_hash = match opt_array_at::<32>(cells, 20) {
            Some(x) => x,
            None => return None,
        };
        let encoded_at_lsn = match int_at(cells, 21) {
            Some(x) => x,
            None => return None,
        };
        let row = MemoryMetadata {
            memory_id_bytes,
            agent_id_bytes,
            context_id,
            slot_id,
            slot_version,
            kind,
            text_size,
            created_at_unix_nanos,
            last_accessed_at_unix_nanos,
            forgot_at_unix_nanos,
            tombstoned_at_unix_nanos,
            consolidated_at_unix_nanos,
            occurred_at_unix_nanos,
            salience,
            salience_initial,
            access_count,
            embedding_model_fp,
            flags,
            edges_out_count,
            edges_in_count,
            content_hash,
            encoded_at_lsn,
        };
        proof {
            assert(Self::cells(row.model()) =~= cell_models(cells@));
        }
        Some(row)
    }
}

/// A fresh active memory: unread, without edges, as salient as at first.
pub open spec fn active_memory(
    memory_id: MemoryId,
    agent_id: AgentId,
    context_id: ContextId,
    slot_id: u64,
    slot_version: u32,
    kind: MemoryKind,
    embedding_model_fp: [u8; 16],
    salience_initial: F32,
    text_size: u32,
    created_at_unix_nanos: u64,
) -> MemoryMetadata {
    MemoryMetadata {
        memory_id_bytes: memory_id.0,
        agent_id_bytes: agent_id.0,
        context_id: context_id.0,
        slot_id,
        slot_version,
        kind: memory_kind_byte(kind),
        text_size,
        created_at_unix_nanos,
        last_accessed_at_unix_nanos: created_at_unix_nanos,
        forgot_at_unix_nanos: None,
        tombstoned_at_unix_nanos: None,
        consolidated_at_unix_nanos: None,
        occurred_at_unix_nanos: None,
        salience: salience_initial,
        salience_initial,
        access_count: 0,
        embedding_model_fp,
        flags: flags::ACTIVE,
        edges_out_count: 0,
        edges_in_count: 0,
        content_hash: None,
        encoded_at_lsn: 0,
    }
}

impl MemoryMetadata {
    /// A fresh active memory.
    #[must_use]
    pub fn new_active(
        memory_id: MemoryId,
        agent_id: AgentId,
        context_id: ContextId,
        slot_id: u64,
        slot_version: u32,
        kind: MemoryKind,
        embedding_model_fp: [u8; 16],
        salience_initial: F32,
        text_size: u32,
        created_at_unix_nanos: u64,
    ) -> (r: Self)
        ensures
            r == active_memory(
                memory_id,
                agent_id,
                context_id,
                slot_id,
                slot_version,
                kind,
                embedding_model_fp,
                salience_initial,
                text_size,
                created_at_unix_nanos,
            ),
    {
        MemoryMetadata {
            memory_id_bytes: memory_id.0,
            agent_id_bytes: agent_id.0,
            context_id: context_id.0,
            slot_id,
            slot_version,
            kind: memory_kind_to_u8(kind),
            text_size,
            created_at_unix_nanos,
            last_accessed_at_unix_nanos: created_at_unix_nanos,
            forgot_at_unix_nanos: None,
            tombstoned_at_unix_nanos: None,
            consolidated_at_unix_nanos: None,
            occurred_at_unix_nanos: None,
            salience: salience_initial,
            salience_initial,
            access_count: 0,
            embedding_model_fp,
            flags: flags::ACTIVE,
            edges_out_count: 0,
            edges_in_count: 0,
            content_hash: None,
            encoded_at_lsn: 0,
        }
    }

    /// The row with the hash of its text.
    pub fn with_content_hash(self, content_hash: [u8; 32]) -> (r: Self)
        ensures
            r == (MemoryMetadata { content_hash: Some(content_hash), ..self }),
    {
        let mut r = self;
        r.content_hash = Some(content_hash);
        r
    }

    /// The row with the log position of its creation.
    pub fn with_encoded_at_lsn(self, lsn: u64) -> (r: Self)
        ensures
            r == (MemoryMetadata { encoded_at_lsn: lsn, ..self }),
    {
        let mut r = self;
        r.encoded_at_lsn = lsn;
        r
    }

    /// The row with the time of what it tells.
    #[must_use]
    pub fn with_occurred_at(self, occurred_at_unix_nanos: Option<u64>) -> (r: Self)
        ensures
            r == (MemoryMetadata { occurred_at_unix_nanos, ..self }),
    {
        let mut r = self;
        r.occurred_at_unix_nanos = occurred_at_unix_nanos;
        r
    }

    #[must_use]
    pub fn memory_id(&self) -> (r: MemoryId)
        ensures
            r == MemoryId(self.memory_id_bytes),
    {
        MemoryId(self.memory_id_bytes)
    }

    #[must_use]
    pub fn agent_id(&self) -> (r: AgentId)
        ensures
            r == AgentId(self.agent_id_bytes),
    {
        AgentId(self.agent_id_bytes)
    }

    #[must_use]
    pub fn context(&self) -> (r: ContextId)
        ensures
            r == ContextId(self.context_id),
    {
        ContextId(self.context_id)
    }

    pub fn kind(&self) -> (r: Result<MemoryKind, BadMemoryKind>)
        ensures
            r == memory_kind_of(self.kind),
    {
        memory_kind_from_u8(self.kind)
    }

    #[must_use]
    pub fn is_active(&self) -> (r: bool)
        ensures
            r == (self.flags & flags::ACTIVE != 0),
    {
        self.flags & flags::ACTIVE != 0
    }

    #[must_use]
    pub fn is_tombstoned(&self) -> (r: bool)
        ensures
            r == (self.flags & flags::ACTIVE == 0),
    {
        !self.is_active()
    }

    #[must_use]
    pub fn is_pinned(&self) -> (r: bool)
        ensures
            r == (self.flags & flags::PINNED != 0),
    {
        self.flags & flags::PINNED != 0
    }

    #[must_use]
    pub fn is_hard_forgotten(&self) -> (r: bool)
        ensures
            r == (self.flags & flags::HARD_FORGOTTEN != 0),
    {
        self.flags & flags::HARD_FORGOTTEN != 0
    }

    #[must_use]
    pub fn is_stale(&self) -> (r: bool)
        ensures
            r == (self.flags & flags::STALE != 0),
    {
        self.flags & flags::STALE != 0
    }

    /// Sets or clears the bits of `mask`, and leaves the others.
    pub fn set_flag(&mut self, mask: u32, on: bool)
        ensures
            *final(self) == (MemoryMetadata {
                flags: if on {
                    old(self).flags | mask
                } else {
                    old(self).flags & !mask
                },
                ..*old(self)
            }),
    {
        if on {
            self.flags = self.flags | mask;
        } else {
            self.flags = self.flags & !mask;
        }
    }
}

/// Setting bits sets those and no others, and clearing them undoes it.
pub proof fn lemma_flag_bits(bits: u32, mask: u32, other: u32)
    requires
        mask & other == 0,
    ensures
        (bits | mask) & mask == mask,
        (bits | mask) & other == bits & other,
        (bits & !mask) & mask == 0,
        (bits & !mask) & other == bits & other,
{
    assert((bits | mask) & mask == mask && (bits | mask) & other == bits & other && (bits & !mask) & mask == 0 && (bits
        & !mask) & other == bits & other) by (bit_vector)
        requires
            mask & other == 0,
    ;
}

} // verus!
