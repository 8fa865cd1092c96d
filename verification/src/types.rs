//! Identifiers and the small values that rows are made of.

use vstd::prelude::*;

use crate::bytes::{
    be, be_value, bytes_eq, get_array, get_be, lemma_be_len, lemma_be_value_of_be, lemma_pow256_values, put_be,
};

verus! {

/// Whether two 16-byte identifiers are the same.
pub fn id_eq(a: &[u8; 16], b: &[u8; 16]) -> (r: bool)
    ensures
        r == (*a == *b),
{
    let r = bytes_eq(a.as_slice(), b.as_slice());
    proof {
        if r {
            assert(*a =~= *b);
        }
    }
    r
}

/// A statement.
#[derive(Clone, Copy, Debug, Hash)]
pub struct StatementId(pub [u8; 16]);

impl PartialEq for StatementId {
    fn eq(&self, other: &Self) -> (r: bool) {
        id_eq(&self.0, &other.0)
    }
}

impl vstd::std_specs::cmp::PartialEqSpecImpl for StatementId {
    open spec fn obeys_eq_spec() -> bool {
        true
    }

    open spec fn eq_spec(&self, other: &Self) -> bool {
        self.0 == other.0
    }
}

impl Eq for StatementId {

}

impl StatementId {
    pub fn from_bytes(b: [u8; 16]) -> (r: Self)
        ensures
            r.0 == b,
    {
        StatementId(b)
    }

    pub fn to_bytes(self) -> (r: [u8; 16])
        ensures
            r == self.0,
    {
        self.0
    }
}

/// An entity.
#[derive(Clone, Copy, Debug, Hash)]
pub struct EntityId(pub [u8; 16]);

impl PartialEq for EntityId {
    fn eq(&self, other: &Self) -> (r: bool) {
        id_eq(&self.0, &other.0)
    }
}

impl vstd::std_specs::cmp::PartialEqSpecImpl for EntityId {
    open spec fn obeys_eq_spec() -> bool {
        true
    }

    open spec fn eq_spec(&self, other: &Self) -> bool {
        self.0 == other.0
    }
}

impl Eq for EntityId {

}

impl EntityId {
    pub fn from_bytes(b: [u8; 16]) -> (r: Self)
        ensures
            r.0 == b,
    {
        EntityId(b)
    }

    pub fn to_bytes(self) -> (r: [u8; 16])
        ensures
            r == self.0,
    {
        self.0
    }
}

/// An audit row.
#[derive(Clone, Copy, Debug, Hash)]
pub struct AuditId(pub [u8; 16]);

impl PartialEq for AuditId {
    fn eq(&self, other: &Self) -> (r: bool) {
        id_eq(&self.0, &other.0)
    }
}

impl vstd::std_specs::cmp::PartialEqSpecImpl for AuditId {
    open spec fn obeys_eq_spec() -> bool {
        true
    }

    open spec fn eq_spec(&self, other: &Self) -> bool {
        self.0 == other.0
    }
}

impl Eq for AuditId {

}

impl AuditId {
    pub fn from_bytes(b: [u8; 16]) -> (r: Self)
        ensures
            r.0 == b,
    {
        AuditId(b)
    }

    pub fn to_bytes(self) -> (r: [u8; 16])
        ensures
            r == self.0,
    {
        self.0
    }
}

/// A row of spilled evidence.
#[derive(Clone, Copy, Debug, Hash)]
pub struct EvidenceOverflowId(pub [u8; 16]);

impl PartialEq for EvidenceOverflowId {
    fn eq(&self, other: &Self) -> (r: bool) {
        id_eq(&self.0, &other.0)
    }
}

impl vstd::std_specs::cmp::PartialEqSpecImpl for EvidenceOverflowId {
    open spec fn obeys_eq_spec() -> bool {
        true
    }

    open spec fn eq_spec(&self, other: &Self) -> bool {
        self.0 == other.0
    }
}

impl Eq for EvidenceOverflowId {

}

impl EvidenceOverflowId {
    pub fn from_bytes(b: [u8; 16]) -> (r: Self)
        ensures
            r.0 == b,
    {
        EvidenceOverflowId(b)
    }

    pub fn to_bytes(self) -> (r: [u8; 16])
        ensures
            r == self.0,
    {
        self.0
    }
}

/// An agent.
#[derive(Clone, Copy, Debug, Hash)]
pub struct AgentId(pub [u8; 16]);

impl PartialEq for AgentId {
    fn eq(&self, other: &Self) -> (r: bool) {
        id_eq(&self.0, &other.0)
    }
}

impl vstd::std_specs::cmp::PartialEqSpecImpl for AgentId {
    open spec fn obeys_eq_spec() -> bool {
        true
    }

    open spec fn eq_spec(&self, other: &Self) -> bool {
        self.0 == other.0
    }
}

impl Eq for AgentId {

}

impl AgentId {
    pub fn from_bytes(b: [u8; 16]) -> (r: Self)
        ensures
            r.0 == b,
    {
        AgentId(b)
    }

    pub fn to_bytes(self) -> (r: [u8; 16])
        ensures
            r == self.0,
    {
        self.0
    }
}

/// A memory, in its big-endian wire form.
#[derive(Clone, Copy, Debug, Hash)]
pub struct MemoryId(pub [u8; 16]);

impl PartialEq for MemoryId {
    fn eq(&self, other: &Self) -> (r: bool) {
        id_eq(&self.0, &other.0)
    }
}

impl vstd::std_specs::cmp::PartialEqSpecImpl for MemoryId {
    open spec fn obeys_eq_spec() -> bool {
        true
    }

    open spec fn eq_spec(&self, other: &Self) -> bool {
        self.0 == other.0
    }
}

impl Eq for MemoryId {

}

impl MemoryId {
    pub fn from_bytes(b: [u8; 16]) -> (r: Self)
        ensures
            r.0 == b,
    {
        MemoryId(b)
    }

    pub fn to_bytes(self) -> (r: [u8; 16])
        ensures
            r == self.0,
    {
        self.0
    }
}

/// A typed relation.
#[derive(Clone, Copy, Debug, Hash)]
pub struct RelationId(pub [u8; 16]);

impl PartialEq for RelationId {
    fn eq(&self, other: &Self) -> (r: bool) {
        id_eq(&self.0, &other.0)
    }
}

impl vstd::std_specs::cmp::PartialEqSpecImpl for RelationId {
    open spec fn obeys_eq_spec() -> bool {
        true
    }

    open spec fn eq_spec(&self, other: &Self) -> bool {
        self.0 == other.0
    }
}

impl Eq for RelationId {

}

impl RelationId {
    pub fn from_bytes(b: [u8; 16]) -> (r: Self)
        ensures
            r.0 == b,
    {
        RelationId(b)
    }

    pub fn to_bytes(self) -> (r: [u8; 16])
        ensures
            r == self.0,
    {
        self.0
    }
}

/// A namespace: the boundary between tenants.
#[derive(Clone, Copy, Debug, PartialEq, Eq, Hash, Structural)]
pub struct NamespaceId(pub u32);

impl NamespaceId {
    pub fn raw(self) -> (r: u32)
        ensures
            r == self.0,
    {
        self.0
    }
}

/// A registered predicate.
#[derive(Clone, Copy, Debug, PartialEq, Eq, Hash, Structural)]
pub struct PredicateId(pub u32);

impl PredicateId {
    pub fn raw(self) -> (r: u32)
        ensures
            r == self.0,
    {
        self.0
    }
}

/// A registered entity type.
#[derive(Clone, Copy, Debug, PartialEq, Eq, Hash, Structural)]
pub struct EntityTypeId(pub u32);

impl EntityTypeId {
    pub fn raw(self) -> (r: u32)
        ensures
            r == self.0,
    {
        self.0
    }
}

/// A registered relation type.
#[derive(Clone, Copy, Debug, PartialEq, Eq, Hash, Structural)]
pub struct RelationTypeId(pub u32);

impl RelationTypeId {
    pub fn raw(self) -> (r: u32)
        ensures
            r == self.0,
    {
        self.0
    }
}

/// A registered extractor.
#[derive(Clone, Copy, Debug, PartialEq, Eq, Hash, Structural)]
pub struct ExtractorId(pub u32);

impl ExtractorId {
    pub fn raw(self) -> (r: u32)
        ensures
            r == self.0,
    {
        self.0
    }
}

/// A context.
#[derive(Clone, Copy, Debug, PartialEq, Eq, Hash, Structural)]
pub struct ContextId(pub u64);

impl ContextId {
    pub fn raw(self) -> (r: u64)
        ensures
            r == self.0,
    {
        self.0
    }
}

/// A number in the IEEE 754 binary32 format, held as its bit pattern.
#[derive(Clone, Copy, Debug, PartialEq, Eq, Structural)]
pub struct F32 {
    pub bits: u32,
}

impl F32 {
    /// Not a number: every exponent bit is set, and a fraction bit is.
    pub open spec fn is_nan_spec(self) -> bool {
        self.magnitude() > 0x7f80_0000
    }

    /// The bits without the sign.
    pub open spec fn magnitude(self) -> int {
        if self.bits >= 0x8000_0000u32 {
            self.bits - 0x8000_0000u32
        } else {
            self.bits as int
        }
    }

    /// A number that grows with the value, the same for both zeros. It means
    /// nothing on a NaN.
    pub open spec fn rank(self) -> int {
        if self.bits >= 0x8000_0000u32 {
            -self.magnitude()
        } else {
            self.magnitude()
        }
    }

    /// `self < other`: false if either is a NaN.
    pub open spec fn lt_spec(self, other: F32) -> bool {
        !self.is_nan_spec() && !other.is_nan_spec() && self.rank() < other.rank()
    }

    /// `self >= other`: false if either is a NaN.
    pub open spec fn ge_spec(self, other: F32) -> bool {
        !self.is_nan_spec() && !other.is_nan_spec() && self.rank() >= other.rank()
    }

    /// From 0.0 to 1.0, both included, and not a NaN.
    pub open spec fn in_unit_spec(self) -> bool {
        !self.is_nan_spec() && 0 <= self.rank() <= 0x3f80_0000
    }

    pub fn from_bits(bits: u32) -> (r: F32)
        ensures
            r.bits == bits,
    {
        F32 { bits }
    }

    pub fn is_nan(self) -> (r: bool)
        ensures
            r == self.is_nan_spec(),
    {
        if self.bits >= 0x8000_0000 {
            self.bits - 0x8000_0000 > 0x7f80_0000
        } else {
            self.bits > 0x7f80_0000
        }
    }

    fn rank_exec(self) -> (r: i64)
        ensures
            r == self.rank(),
    {
        if self.bits >= 0x8000_0000 {
            0 - (self.bits - 0x8000_0000) as i64
        } else {
            self.bits as i64
        }
    }

    /// `self < other`.
    pub fn is_lt(self, other: F32) -> (r: bool)
        ensures
            r == self.lt_spec(other),
    {
        !self.is_nan() && !other.is_nan() && self.rank_exec() < other.rank_exec()
    }

    /// `self >= other`.
    pub fn is_ge(self, other: F32) -> (r: bool)
        ensures
            r == self.ge_spec(other),
    {
        !self.is_nan() && !other.is_nan() && self.rank_exec() >= other.rank_exec()
    }

    /// Whether the number lies in `[0, 1]`.
    pub fn in_unit(self) -> (r: bool)
        ensures
            r == self.in_unit_spec(),
    {
        !self.is_nan() && self.rank_exec() >= 0 && self.rank_exec() <= 0x3f80_0000
    }
}

/// On numbers that are no NaN, `<` and `>=` exclude each other, and one holds.
pub proof fn lemma_f32_order_total(a: F32, b: F32)
    requires
        !a.is_nan_spec(),
        !b.is_nan_spec(),
    ensures
        a.lt_spec(b) != a.ge_spec(b),
{
}

/// The order goes by the bits: among numbers without a sign more bits are more, among
/// numbers with one they are less, and a number with a sign lies below one without
/// unless both are zero. With a NaN nothing holds. A number lies in `[0, 1]` if its bits
/// are at most those of 1.0, or if it is the zero with a sign.
pub proof fn lemma_f32_order_by_bits(a: F32, b: F32)
    ensures
        ({
            let nan = |x: F32| 0x7f80_0000 < x.bits < 0x8000_0000 || 0xff80_0000 < x.bits;
            if nan(a) || nan(b) {
                !a.lt_spec(b) && !a.ge_spec(b)
            } else {
                &&& a.lt_spec(b) <==> if a.bits < 0x8000_0000 {
                    a.bits < b.bits < 0x8000_0000
                } else if b.bits < 0x8000_0000 {
                    a.bits != 0x8000_0000 || b.bits != 0
                } else {
                    b.bits < a.bits
                }
                &&& a.ge_spec(b) <==> !a.lt_spec(b)
            }
        }),
        a.in_unit_spec() <==> a.bits <= 0x3f80_0000 || a.bits == 0x8000_0000,
        a.is_nan_spec() <==> 0x7f80_0000 < a.bits < 0x8000_0000 || 0xff80_0000 < a.bits,
{
}

/// The owner of a row: a namespace and an agent.
#[derive(Clone, Copy, Debug, PartialEq, Eq)]
pub struct RowScope {
    pub namespace_id: u32,
    pub agent_id_bytes: [u8; 16],
}

impl RowScope {
    pub fn from_bytes(namespace_id: u32, agent_id_bytes: [u8; 16]) -> (r: RowScope)
        ensures
            r == (RowScope { namespace_id, agent_id_bytes }),
    {
        RowScope { namespace_id, agent_id_bytes }
    }
}

/// The bytes of a scope at the head of a key.
pub open spec fn scope_key(s: RowScope) -> Seq<u8> {
    Seq::<u8>::empty() + be(s.namespace_id as nat, 4) + s.agent_id_bytes@
}

/// What kind of assertion a statement makes.
#[derive(Clone, Copy, Debug, PartialEq, Eq, Structural)]
pub enum StatementKind {
    Fact,
    Preference,
    Event,
}

impl StatementKind {
    pub open spec fn byte(self) -> u8 {
        match self {
            StatementKind::Fact => 0,
            StatementKind::Preference => 1,
            StatementKind::Event => 2,
        }
    }

    pub open spec fn of_byte(b: u8) -> Option<StatementKind> {
        if b == 0 {
            Some(StatementKind::Fact)
        } else if b == 1 {
            Some(StatementKind::Preference)
        } else if b == 2 {
            Some(StatementKind::Event)
        } else {
            None
        }
    }

    pub fn as_u8(self) -> (r: u8)
        ensures
            r == self.byte(),
    {
        match self {
            StatementKind::Fact => 0,
            StatementKind::Preference => 1,
            StatementKind::Event => 2,
        }
    }

    pub fn from_u8(b: u8) -> (r: Option<StatementKind>)
        ensures
            r == StatementKind::of_byte(b),
    {
        match b {
            0 => Some(StatementKind::Fact),
            1 => Some(StatementKind::Preference),
            2 => Some(StatementKind::Event),
            _ => None,
        }
    }
}

/// A request of a client.
#[derive(Clone, Copy, Debug, Hash)]
pub struct RequestId(pub [u8; 16]);

impl PartialEq for RequestId {
    fn eq(&self, other: &Self) -> (r: bool) {
        id_eq(&self.0, &other.0)
    }
}

impl vstd::std_specs::cmp::PartialEqSpecImpl for RequestId {
    open spec fn obeys_eq_spec() -> bool {
        true
    }

    open spec fn eq_spec(&self, other: &Self) -> bool {
        self.0 == other.0
    }
}

impl Eq for RequestId {

}

impl RequestId {
    pub fn from_bytes(b: [u8; 16]) -> (r: Self)
        ensures
            r.0 == b,
    {
        RequestId(b)
    }

    pub fn to_bytes(self) -> (r: [u8; 16])
        ensures
            r == self.0,
    {
        self.0
    }
}

/// A transaction of a client.
#[derive(Clone, Copy, Debug, Hash)]
pub struct TxnId(pub [u8; 16]);

impl PartialEq for TxnId {
    fn eq(&self, other: &Self) -> (r: bool) {
        id_eq(&self.0, &other.0)
    }
}

impl vstd::std_specs::cmp::PartialEqSpecImpl for TxnId {
    open spec fn obeys_eq_spec() -> bool {
        true
    }

    open spec fn eq_spec(&self, other: &Self) -> bool {
        self.0 == other.0
    }
}

impl Eq for TxnId {

}

impl TxnId {
    pub fn from_bytes(b: [u8; 16]) -> (r: Self)
        ensures
            r.0 == b,
    {
        TxnId(b)
    }

    pub fn to_bytes(self) -> (r: [u8; 16])
        ensures
            r == self.0,
    {
        self.0
    }
}

/// A merge of two entities.
#[derive(Clone, Copy, Debug, Hash)]
pub struct MergeId(pub [u8; 16]);

impl PartialEq for MergeId {
    fn eq(&self, other: &Self) -> (r: bool) {
        id_eq(&self.0, &other.0)
    }
}

impl vstd::std_specs::cmp::PartialEqSpecImpl for MergeId {
    open spec fn obeys_eq_spec() -> bool {
        true
    }

    open spec fn eq_spec(&self, other: &Self) -> bool {
        self.0 == other.0
    }
}

impl Eq for MergeId {

}

impl MergeId {
    pub fn from_bytes(b: [u8; 16]) -> (r: Self)
        ensures
            r.0 == b,
    {
        MergeId(b)
    }

    pub fn to_bytes(self) -> (r: [u8; 16])
        ensures
            r == self.0,
    {
        self.0
    }
}

/// The bytes of a memory identifier: shard, slot, version, two zero bytes.
pub open spec fn packed_memory_id(shard: u16, slot: u64, version: u32) -> Seq<u8> {
    Seq::<u8>::empty() + be(shard as nat, 2) + be(slot as nat, 8) + be(version as nat, 4) + be(0, 2)
}

/// The slot that a memory identifier names.
pub open spec fn slot_of(id: MemoryId) -> u64 {
    be_value(id.0@.subrange(2, 10)) as u64
}

/// The version of the slot that a memory identifier names.
pub open spec fn version_of(id: MemoryId) -> u32 {
    be_value(id.0@.subrange(10, 14)) as u32
}

impl MemoryId {
    /// The identifier of a memory in a version of a slot of a shard.
    #[must_use]
    pub fn pack(shard: u16, slot: u64, version: u32) -> (r: MemoryId)
        ensures
            r.0@ == packed_memory_id(shard, slot, version),
            slot_of(r) == slot,
            version_of(r) == version,
    {
        let mut k: Vec<u8> = Vec::new();
        put_be(&mut k, shard as u64, 2);
        put_be(&mut k, slot, 8);
        put_be(&mut k, version as u64, 4);
        put_be(&mut k, 0, 2);
        proof {
            lemma_be_len(shard as nat, 2);
            lemma_be_len(slot as nat, 8);
            lemma_be_len(version as nat, 4);
            lemma_be_len(0, 2);
        }
        let r = MemoryId(get_array::<16>(k.as_slice(), 0));
        proof {
            assert(r.0@ =~= k@);
            assert(k@.subrange(2, 10) =~= be(slot as nat, 8));
            assert(k@.subrange(10, 14) =~= be(version as nat, 4));
            lemma_pow256_values();
            lemma_be_value_of_be(slot as nat, 8);
            lemma_be_value_of_be(version as nat, 4);
        }
        r
    }

    #[must_use]
    pub fn slot(self) -> (r: u64)
        ensures
            r == slot_of(self),
    {
        get_be(self.0.as_slice(), 2, 8)
    }

    #[must_use]
    pub fn version(self) -> (r: u32)
        ensures
            r == version_of(self),
    {
        proof {
            lemma_pow256_values();
        }
        get_be(self.0.as_slice(), 10, 4) as u32
    }

    #[must_use]
    pub fn to_be_bytes(self) -> (r: [u8; 16])
        ensures
            r == self.0,
    {
        self.0
    }
}

} // verus!
