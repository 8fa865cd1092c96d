//! What keys of different tables tell apart, and which of them stand together.

use vstd::prelude::*;
use vstd::utf8::encode_utf8;

use crate::bytes::{
    be, be_value, lemma_be_injective, lemma_be_len, lemma_be_order, lemma_be_value_of_be, lemma_lex_join,
    lemma_pow256_values,
};
use crate::order::{has_prefix, lex_lt};
use crate::row::lemma_text_injective;
use crate::statement::laws::{lemma_scope_key_len, lemma_scopes_apart};
use crate::tables::audit::{kept_outputs, OutputRef};
use crate::tables::entity::{alias_key, canonical_name_key, mention_key, trigram_key};
use crate::tables::merge::overflow_key;
use crate::tables::merge_review_queue::{pending_proposal, status_key};
use crate::tables::relation::relation_evidence_key;
use crate::types::{packed_memory_id, scope_key, EntityId, MemoryId, RelationId, RowScope, F32};

verus! {

/// Two byte strings whose heads are of one length are the same only part by part.
proof fn lemma_parts(a: Seq<u8>, x: Seq<u8>, b: Seq<u8>, y: Seq<u8>)
    requires
        a.len() == b.len(),
        a + x == b + y,
    ensures
        a == b,
        x == y,
{
    let n = a.len() as int;
    assert((a + x).take(n) =~= a);
    assert((b + y).take(n) =~= b);
    assert((a + x).skip(n) =~= x);
    assert((b + y).skip(n) =~= y);
}

proof fn lemma_scopes(a: RowScope, x: Seq<u8>, b: RowScope, y: Seq<u8>)
    requires
        scope_key(a) + x == scope_key(b) + y,
    ensures
        a == b,
        x == y,
{
    lemma_scope_key_len(a);
    lemma_scope_key_len(b);
    lemma_parts(scope_key(a), x, scope_key(b), y);
    assert((scope_key(a) + x).take(20) =~= scope_key(a));
    lemma_scopes_apart(a, b, scope_key(a) + x);
}

proof fn lemma_numbers(a: u32, x: Seq<u8>, b: u32, y: Seq<u8>)
    requires
        be(a as nat, 4) + x == be(b as nat, 4) + y,
    ensures
        a == b,
        x == y,
{
    lemma_pow256_values();
    lemma_be_len(a as nat, 4);
    lemma_be_len(b as nat, 4);
    lemma_parts(be(a as nat, 4), x, be(b as nat, 4), y);
    lemma_be_injective(a as nat, b as nat, 4);
}

proof fn lemma_ids(a: [u8; 16], x: Seq<u8>, b: [u8; 16], y: Seq<u8>)
    requires
        a@ + x == b@ + y,
    ensures
        a == b,
        x == y,
{
    lemma_parts(a@, x, b@, y);
    assert(a =~= b);
}

/// The key of a name is one name's of one owner and type.
pub proof fn lemma_canonical_name_keys(a: RowScope, s: u32, x: Seq<char>, b: RowScope, t: u32, y: Seq<char>)
    requires
        canonical_name_key(a, s, x) == canonical_name_key(b, t, y),
    ensures
        a == b,
        s == t,
        x == y,
{
    let ax = be(s as nat, 4) + encode_utf8(x);
    let by = be(t as nat, 4) + encode_utf8(y);
    assert(canonical_name_key(a, s, x) =~= scope_key(a) + ax);
    assert(canonical_name_key(b, t, y) =~= scope_key(b) + by);
    lemma_scopes(a, ax, b, by);
    lemma_numbers(s, encode_utf8(x), t, encode_utf8(y));
    lemma_text_injective(x, y);
}

/// The key of an alias is one alias's of one entity, owner and type; the keys of one
/// alias, owner and type stand together.
pub proof fn lemma_alias_keys(
    a: RowScope,
    s: u32,
    x: Seq<char>,
    e: EntityId,
    b: RowScope,
    t: u32,
    y: Seq<char>,
    f: EntityId,
)
    requires
        encode_utf8(x).len() < 0x1_0000_0000_0000_0000,
        encode_utf8(y).len() < 0x1_0000_0000_0000_0000,
    ensures
        alias_key(a, s, x, e) == alias_key(b, t, y, f) ==> a == b && s == t && x == y && e == f,
        has_prefix(
            alias_key(a, s, x, e),
            be(a.namespace_id as nat, 4) + a.agent_id_bytes@ + be(s as nat, 4) + be(encode_utf8(x).len(), 8)
                + encode_utf8(x),
        ),
{
    let xl = be(encode_utf8(x).len(), 8);
    let yl = be(encode_utf8(y).len(), 8);
    let ax = be(s as nat, 4) + (xl + (encode_utf8(x) + e.0@));
    let by = be(t as nat, 4) + (yl + (encode_utf8(y) + f.0@));
    assert(alias_key(a, s, x, e) =~= scope_key(a) + ax);
    assert(alias_key(b, t, y, f) =~= scope_key(b) + by);
    lemma_pow256_values();
    lemma_be_len(encode_utf8(x).len(), 8);
    lemma_be_len(encode_utf8(y).len(), 8);
    let head = be(a.namespace_id as nat, 4) + a.agent_id_bytes@ + be(s as nat, 4) + xl + encode_utf8(x);
    assert(alias_key(a, s, x, e) =~= head + e.0@);
    assert(alias_key(a, s, x, e).take(head.len() as int) =~= head);
    if alias_key(a, s, x, e) == alias_key(b, t, y, f) {
        lemma_scopes(a, ax, b, by);
        lemma_numbers(s, xl + (encode_utf8(x) + e.0@), t, yl + (encode_utf8(y) + f.0@));
        lemma_parts(xl, encode_utf8(x) + e.0@, yl, encode_utf8(y) + f.0@);
        lemma_be_injective(encode_utf8(x).len(), encode_utf8(y).len(), 8);
        lemma_parts(encode_utf8(x), e.0@, encode_utf8(y), f.0@);
        lemma_text_injective(x, y);
        assert(e.0 =~= f.0);
    }
}

/// The key of a trigram is one trigram's of one entity, owner and type; the keys of one
/// trigram, owner and type stand together.
pub proof fn lemma_trigram_keys(
    a: RowScope,
    s: u32,
    x: [u8; 3],
    e: EntityId,
    b: RowScope,
    t: u32,
    y: [u8; 3],
    f: EntityId,
)
    ensures
        trigram_key(a, s, x, e) == trigram_key(b, t, y, f) ==> a == b && s == t && x == y && e == f,
        has_prefix(
            trigram_key(a, s, x, e),
            be(a.namespace_id as nat, 4) + a.agent_id_bytes@ + be(s as nat, 4) + x@,
        ),
{
    let ax = be(s as nat, 4) + (x@ + e.0@);
    let by = be(t as nat, 4) + (y@ + f.0@);
    assert(trigram_key(a, s, x, e) =~= scope_key(a) + ax);
    assert(trigram_key(b, t, y, f) =~= scope_key(b) + by);
    let head = be(a.namespace_id as nat, 4) + a.agent_id_bytes@ + be(s as nat, 4) + x@;
    assert(trigram_key(a, s, x, e) =~= head + e.0@);
    assert(trigram_key(a, s, x, e).take(head.len() as int) =~= head);
    if trigram_key(a, s, x, e) == trigram_key(b, t, y, f) {
        lemma_scopes(a, ax, b, by);
        lemma_numbers(s, x@ + e.0@, t, y@ + f.0@);
        lemma_parts(x@, e.0@, y@, f.0@);
        assert(x =~= y);
        assert(e.0 =~= f.0);
    }
}

/// The key of a mention is one memory's mention of one entity; the mentions of an entity
/// stand together.
pub proof fn lemma_mention_keys(a: RowScope, e: EntityId, x: MemoryId, b: RowScope, f: EntityId, y: MemoryId)
    ensures
        mention_key(a, e, x) == mention_key(b, f, y) ==> a == b && e == f && x == y,
        has_prefix(mention_key(a, e, x), be(a.namespace_id as nat, 4) + a.agent_id_bytes@ + e.0@),
{
    assert(mention_key(a, e, x) =~= scope_key(a) + (e.0@ + x.0@));
    assert(mention_key(b, f, y) =~= scope_key(b) + (f.0@ + y.0@));
    let head = be(a.namespace_id as nat, 4) + a.agent_id_bytes@ + e.0@;
    assert(mention_key(a, e, x) =~= head + x.0@);
    assert(mention_key(a, e, x).take(head.len() as int) =~= head);
    if mention_key(a, e, x) == mention_key(b, f, y) {
        lemma_scopes(a, e.0@ + x.0@, b, f.0@ + y.0@);
        lemma_ids(e.0, x.0@, f.0, y.0@);
        assert(x.0 =~= y.0);
    }
}

/// The key of a relation under a memory is one relation's; the relations that rest on a
/// memory stand together.
pub proof fn lemma_relation_evidence_keys(
    a: RowScope,
    m: [u8; 16],
    x: RelationId,
    b: RowScope,
    n: [u8; 16],
    y: RelationId,
)
    ensures
        relation_evidence_key(a, m, x) == relation_evidence_key(b, n, y) ==> a == b && m == n && x == y,
        has_prefix(relation_evidence_key(a, m, x), be(a.namespace_id as nat, 4) + a.agent_id_bytes@ + m@),
{
    assert(relation_evidence_key(a, m, x) =~= scope_key(a) + (m@ + x.0@));
    assert(relation_evidence_key(b, n, y) =~= scope_key(b) + (n@ + y.0@));
    let head = be(a.namespace_id as nat, 4) + a.agent_id_bytes@ + m@;
    assert(relation_evidence_key(a, m, x) =~= head + x.0@);
    assert(relation_evidence_key(a, m, x).take(head.len() as int) =~= head);
    if relation_evidence_key(a, m, x) == relation_evidence_key(b, n, y) {
        lemma_scopes(a, m@ + x.0@, b, n@ + y.0@);
        lemma_ids(m, x.0@, n, y.0@);
        assert(x.0 =~= y.0);
    }
}

/// The parts of what a merge moved stand together, in the order of their numbers.
pub proof fn lemma_merge_parts_in_order(merge: [u8; 16], a: u32, b: u32)
    ensures
        a < b ==> lex_lt(overflow_key(merge, a), overflow_key(merge, b)),
        has_prefix(overflow_key(merge, a), merge@),
{
    lemma_pow256_values();
    assert(overflow_key(merge, a).take(16) =~= merge@);
    if a < b {
        lemma_be_order(a as nat, b as nat, 4);
        lemma_lex_join(merge@, merge@, be(a as nat, 4), be(b as nat, 4));
    }
}

/// The proposals of one status stand together, and each has its key.
pub proof fn lemma_status_keys(a: u8, x: [u8; 16], b: u8, y: [u8; 16])
    ensures
        status_key(a, x) == status_key(b, y) ==> a == b && x == y,
        has_prefix(status_key(a, x), seq![a]),
{
    assert(status_key(a, x).take(1) =~= seq![a]);
    if status_key(a, x) == status_key(b, y) {
        lemma_parts(seq![a], x@, seq![b], y@);
        assert(seq![a][0] == seq![b][0]);
        assert(x =~= y);
    }
}

/// A proposal that was just made says what it was made of, is pending, and was neither
/// resolved nor checked again.
pub proof fn lemma_pending_proposal(
    proposal: [u8; 16],
    source: [u8; 16],
    candidate: [u8; 16],
    confidence: F32,
    tier: u8,
    now: u64,
)
    ensures
        ({
            let p = pending_proposal(proposal, source, candidate, confidence, tier, now);
            &&& p.proposal_id == proposal
            &&& p.source_entity == source
            &&& p.candidate_entity == candidate
            &&& p.confidence == confidence
            &&& p.tier_that_proposed == tier
            &&& p.proposed_at_unix_nanos == now
            &&& p.status == 0
            &&& p.resolved_at_unix_nanos == 0
            &&& p.last_recheck_confidence.bits == 0
            &&& p.last_recheck_unix_nanos == 0
        }),
{
}

/// Of the outputs of a run the first sixty-four are kept, in their order.
pub proof fn lemma_kept_outputs(outputs: Seq<OutputRef>, i: int)
    requires
        0 <= i < outputs.len(),
    ensures
        kept_outputs(outputs).len() <= 64,
        outputs.len() <= 64 ==> kept_outputs(outputs).len() == outputs.len(),
        outputs.len() > 64 ==> kept_outputs(outputs).len() == 64,
        i < 64 ==> kept_outputs(outputs)[i] == outputs[i],
{
}

/// A memory identifier holds its shard, slot and version, most significant byte first,
/// and two zero bytes.
pub proof fn lemma_memory_id_parts(shard: u16, slot: u64, version: u32)
    ensures
        ({
            let b = packed_memory_id(shard, slot, version);
            &&& b.len() == 16
            &&& be_value(b.subrange(0, 2)) == shard
            &&& be_value(b.subrange(2, 10)) == slot
            &&& be_value(b.subrange(10, 14)) == version
            &&& b[14] == 0 && b[15] == 0
        }),
{
    let b = packed_memory_id(shard, slot, version);
    lemma_pow256_values();
    lemma_be_len(shard as nat, 2);
    lemma_be_len(slot as nat, 8);
    lemma_be_len(version as nat, 4);
    lemma_be_len(0, 2);
    assert(b.subrange(0, 2) =~= be(shard as nat, 2));
    assert(b.subrange(2, 10) =~= be(slot as nat, 8));
    assert(b.subrange(10, 14) =~= be(version as nat, 4));
    assert(b.subrange(14, 16) =~= be(0, 2));
    lemma_be_value_of_be(shard as nat, 2);
    lemma_be_value_of_be(slot as nat, 8);
    lemma_be_value_of_be(version as nat, 4);
    reveal_with_fuel(be, 3);
    assert(be(0, 2) =~= seq![0u8, 0u8]);
    assert(b[14] == b.subrange(14, 16)[0]);
    assert(b[15] == b.subrange(14, 16)[1]);
}

} // verus!
