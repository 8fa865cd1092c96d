//! Which texts an agent already holds.

use vstd::prelude::*;
use vstd::utf8::encode_utf8;

use crate::bytes::{be, get_array, lemma_be_injective, lemma_be_len, lemma_pow256_values, put_be, put_bytes};
use crate::cells::{cell_models, Cell};
use crate::row::{array_at, blob_cell, group_row_fields, int_at, int_cell, CellModel, Row};
use crate::types::{AgentId, ContextId, MemoryId};

verus! {

/// A row of the `fingerprints` table: which memory of an agent's context holds a
/// text.
#[derive(Clone, Copy, Debug, PartialEq, Eq)]
pub struct FingerprintEntry {
    /// The active memory with the text.
    pub memory_id_bytes: [u8; 16],
    pub inserted_at_unix_nanos: u64,
}

impl Row for FingerprintEntry {
    type M = FingerprintEntry;

    open spec fn model(&self) -> FingerprintEntry {
        *self
    }

    open spec fn cells(m: FingerprintEntry) -> Seq<CellModel> {
        seq![
            Cell::Blob(m.memory_id_bytes@),
            Cell::Int(m.inserted_at_unix_nanos),
        ]
    }

    proof fn cells_injective(a: FingerprintEntry, b: FingerprintEntry) {
        broadcast use group_row_fields;

        let x = Self::cells(a);
        let y = Self::cells(b);
        assert(x[0] == y[0]
            && x[1] == y[1]);
        assert(a.memory_id_bytes@ == b.memory_id_bytes@);
    }

    fn to_cells(&self) -> (r: Vec<Cell<Vec<u8>>>) {
        let cells: Vec<Cell<Vec<u8>>> = vec![
            blob_cell(self.memory_id_bytes.as_slice()),
            int_cell(self.inserted_at_unix_nanos),
        ];
        proof {
            assert(cell_models(cells@) =~= Self::cells(self.model()));
        }
        cells
    }

    fn from_cells(cells: &Vec<Cell<Vec<u8>>>) -> (r: Option<Self>) {
        if cells.len() != 2 {
            proof {
                assert forall|m: FingerprintEntry| #[trigger] Self::cells(m) != cell_models(cells@) by {
                    assert(Self::cells(m).len() == 2);
                }
            }
            return None;
        }
        let memory_id_bytes = match array_at::<16>(cells, 0) {
            Some(x) => x,
            None => return None,
        };
        let inserted_at_unix_nanos = match int_at(cells, 1) {
            Some(x) => x,
            None => return None,
        };
        let row = FingerprintEntry {
            memory_id_bytes,
            inserted_at_unix_nanos,
        };
        proof {
            assert(Self::cells(row.model()) =~= cell_models(cells@));
        }
        Some(row)
    }
}

impl FingerprintEntry {
    #[must_use]
    pub fn new(memory_id: MemoryId, inserted_at_unix_nanos: u64) -> (r: Self)
        ensures
            r == (FingerprintEntry { memory_id_bytes: memory_id.0, inserted_at_unix_nanos }),
    {
        FingerprintEntry { memory_id_bytes: memory_id.0, inserted_at_unix_nanos }
    }

    #[must_use]
    pub fn memory_id(&self) -> (r: MemoryId)
        ensures
            r == MemoryId(self.memory_id_bytes),
    {
        MemoryId(self.memory_id_bytes)
    }
}

/// The key of a text: agent, context, hash.
pub open spec fn fingerprint_key_of(agent: AgentId, context: ContextId, hash: [u8; 32]) -> Seq<u8> {
    Seq::<u8>::empty() + agent.0@ + be(context.0 as nat, 8) + hash@
}

/// The key of a text: agent, context, hash.
#[must_use]
pub fn fingerprint_key(agent_id: AgentId, context_id: ContextId, content_hash: &[u8; 32]) -> (r: [u8; 56])
    ensures
        r@ == fingerprint_key_of(agent_id, context_id, *content_hash),
{
    let mut k: Vec<u8> = Vec::new();
    put_bytes(&mut k, agent_id.0.as_slice());
    put_be(&mut k, context_id.0, 8);
    put_bytes(&mut k, content_hash.as_slice());
    proof {
        lemma_be_len(context_id.0 as nat, 8);
    }
    let r = get_array::<56>(k.as_slice(), 0);
    proof {
        assert(r@ =~= k@);
    }
    r
}

/// Keys differ in agent, context or hash.
pub proof fn lemma_fingerprint_key_injective(
    a: AgentId,
    b: AgentId,
    c: ContextId,
    d: ContextId,
    g: [u8; 32],
    h: [u8; 32],
)
    requires
        fingerprint_key_of(a, c, g) == fingerprint_key_of(b, d, h),
    ensures
        a == b,
        c == d,
        g == h,
{
    let x = fingerprint_key_of(a, c, g);
    let y = fingerprint_key_of(b, d, h);
    lemma_pow256_values();
    lemma_be_len(c.0 as nat, 8);
    lemma_be_len(d.0 as nat, 8);
    assert(x.subrange(0, 16) =~= a.0@ && y.subrange(0, 16) =~= b.0@);
    assert(a.0 =~= b.0);
    assert(x.subrange(16, 24) =~= be(c.0 as nat, 8) && y.subrange(16, 24) =~= be(d.0 as nat, 8));
    lemma_be_injective(c.0 as nat, d.0 as nat, 8);
    assert(x.subrange(24, 56) =~= g@ && y.subrange(24, 56) =~= h@);
    assert(g =~= h);
}

/// The BLAKE3 hash of a byte string.
pub uninterp spec fn blake3_hash(bytes: Seq<u8>) -> Seq<u8>;

/// `blake3::hash`: a function of the bytes alone, of 32 bytes. That different
/// texts have different hashes is not claimed.
#[verifier::external_body]
fn blake3_of(bytes: &[u8]) -> (r: [u8; 32])
    ensures
        r@ == blake3_hash(bytes@),
{
    *blake3::hash(bytes).as_bytes()
}

/// The hash by which equal texts are found: that of the bytes of the text.
#[must_use]
pub fn content_hash(text: &str) -> (r: [u8; 32])
    ensures
        r@ == blake3_hash(encode_utf8(text@)),
{
    blake3_of(text.as_bytes())
}

} // verus!
