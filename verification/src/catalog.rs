//! The tables of the metadata database.

use redb::WriteTransaction;
use vstd::prelude::*;

use crate::redb_txn::{create_table, write_home, write_rows, write_tables};

verus! {

/// A table of the metadata database.
#[derive(Clone, Copy, PartialEq, Eq, Structural)]
pub enum Table {
    Agents,
    ExtractorAudit,
    ExtractorAuditByMemory,
    ExtractorAuditByExtractor,
    ExtractorAuditByTime,
    EntityResolutionAudit,
    StatementContradictionAudit,
    Checkpoints,
    Contexts,
    ContextNames,
    AgentContexts,
    Edges,
    EdgesReverse,
    EntityTypes,
    Entities,
    EntityByCanonicalName,
    EntityAliases,
    EntityTrigrams,
    EntityMentions,
    EntityVectors,
    Extractors,
    ExtractorsByQname,
    ExtractorPipelineAudit,
    Fingerprints,
    Idempotency,
    Memories,
    MemoriesByAgentTimeline,
    MergeLog,
    EntityMergeAuditOverflow,
    MergeReviewQueue,
    MergeReviewByStatus,
    ModelFingerprints,
    NextLsn,
    Predicates,
    PredicatesByQname,
    RelationMetadata,
    RelationByEvidence,
    RelationTypes,
    RelationTypesByQname,
    SchemaVersions,
    SchemaActiveVersions,
    SlotVersions,
    Statements,
    StatementsBySubject,
    StatementsByPredicate,
    StatementsByObjectEntity,
    StatementsByEventTime,
    StatementsByEvidence,
    StatementChain,
    EvidenceOverflow,
    StatementEmbedQueue,
    Texts,
    WorkerCheckpoints,
    SchemaMeta,
    StatementQuestionVectors,
    Namespaces,
    NamespaceByName,
    ApiKeys,
    ApiKeysByAgent,
    HypeQuestionVectors,
    RelationTypeEmbeddings,
}

impl Table {
    /// The name under which the table is stored.
    pub open spec fn spec_name(self) -> Seq<char> {
        match self {
            Table::Agents => "agents"@,
            Table::ExtractorAudit => "extractor_audit"@,
            Table::ExtractorAuditByMemory => "extractor_audit_by_memory"@,
            Table::ExtractorAuditByExtractor => "extractor_audit_by_extractor"@,
            Table::ExtractorAuditByTime => "extractor_audit_by_time"@,
            Table::EntityResolutionAudit => "entity_resolution_audit"@,
            Table::StatementContradictionAudit => "statement_contradiction_audit"@,
            Table::Checkpoints => "checkpoints"@,
            Table::Contexts => "contexts"@,
            Table::ContextNames => "context_names"@,
            Table::AgentContexts => "agent_contexts"@,
            Table::Edges => "edges_v2"@,
            Table::EdgesReverse => "edges_reverse_v2"@,
            Table::EntityTypes => "entity_types"@,
            Table::Entities => "entities"@,
            Table::EntityByCanonicalName => "entity_by_canonical_name"@,
            Table::EntityAliases => "entity_aliases"@,
            Table::EntityTrigrams => "entity_trigrams"@,
            Table::EntityMentions => "entity_mentions"@,
            Table::EntityVectors => "entity_vectors"@,
            Table::Extractors => "extractors"@,
            Table::ExtractorsByQname => "extractors_by_qname"@,
            Table::ExtractorPipelineAudit => "extractor_pipeline_audit"@,
            Table::Fingerprints => "fingerprints"@,
            Table::Idempotency => "idempotency"@,
            Table::Memories => "memories"@,
            Table::MemoriesByAgentTimeline => "memories_by_agent_timeline"@,
            Table::MergeLog => "merge_log"@,
            Table::EntityMergeAuditOverflow => "entity_merge_audit_overflow"@,
            Table::MergeReviewQueue => "merge_review_queue"@,
            Table::MergeReviewByStatus => "merge_review_by_status"@,
            Table::ModelFingerprints => "model_fingerprints"@,
            Table::NextLsn => "next_lsn"@,
            Table::Predicates => "predicates"@,
            Table::PredicatesByQname => "predicates_by_qname"@,
            Table::RelationMetadata => "relation_metadata"@,
            Table::RelationByEvidence => "relation_by_evidence"@,
            Table::RelationTypes => "relation_types"@,
            Table::RelationTypesByQname => "relation_types_by_qname"@,
            Table::SchemaVersions => "schema_versions"@,
            Table::SchemaActiveVersions => "schema_active_versions"@,
            Table::SlotVersions => "slot_versions"@,
            Table::Statements => "statements"@,
            Table::StatementsBySubject => "statements_by_subject"@,
            Table::StatementsByPredicate => "statements_by_predicate"@,
            Table::StatementsByObjectEntity => "statements_by_object_entity"@,
            Table::StatementsByEventTime => "statements_by_event_time"@,
            Table::StatementsByEvidence => "statements_by_evidence"@,
            Table::StatementChain => "statement_chain"@,
            Table::EvidenceOverflow => "evidence_overflow"@,
            Table::StatementEmbedQueue => "statement_embed_queue"@,
            Table::Texts => "texts"@,
            Table::WorkerCheckpoints => "worker_checkpoints"@,
            Table::SchemaMeta => "__schema_meta"@,
            Table::StatementQuestionVectors => "statement_question_vectors"@,
            Table::Namespaces => "namespaces"@,
            Table::NamespaceByName => "namespace_by_name"@,
            Table::ApiKeys => "api_keys"@,
            Table::ApiKeysByAgent => "api_keys_by_agent"@,
            Table::HypeQuestionVectors => "hype_question_vectors"@,
            Table::RelationTypeEmbeddings => "relation_type_embeddings"@,
        }
    }

    /// The name under which the table is stored.
    pub fn name(self) -> (r: &'static str)
        ensures
            r@ == self.spec_name(),
            r@.len() > 0,
    {
        proof {
            lemma_name_code(self);
        }
        match self {
            Table::Agents => "agents",
            Table::ExtractorAudit => "extractor_audit",
            Table::ExtractorAuditByMemory => "extractor_audit_by_memory",
            Table::ExtractorAuditByExtractor => "extractor_audit_by_extractor",
            Table::ExtractorAuditByTime => "extractor_audit_by_time",
            Table::EntityResolutionAudit => "entity_resolution_audit",
            Table::StatementContradictionAudit => "statement_contradiction_audit",
            Table::Checkpoints => "checkpoints",
            Table::Contexts => "contexts",
            Table::ContextNames => "context_names",
            Table::AgentContexts => "agent_contexts",
            Table::Edges => "edges_v2",
            Table::EdgesReverse => "edges_reverse_v2",
            Table::EntityTypes => "entity_types",
            Table::Entities => "entities",
            Table::EntityByCanonicalName => "entity_by_canonical_name",
            Table::EntityAliases => "entity_aliases",
            Table::EntityTrigrams => "entity_trigrams",
            Table::EntityMentions => "entity_mentions",
            Table::EntityVectors => "entity_vectors",
            Table::Extractors => "extractors",
            Table::ExtractorsByQname => "extractors_by_qname",
            Table::ExtractorPipelineAudit => "extractor_pipeline_audit",
            Table::Fingerprints => "fingerprints",
            Table::Idempotency => "idempotency",
            Table::Memories => "memories",
            Table::MemoriesByAgentTimeline => "memories_by_agent_timeline",
            Table::MergeLog => "merge_log",
            Table::EntityMergeAuditOverflow => "entity_merge_audit_overflow",
            Table::MergeReviewQueue => "merge_review_queue",
            Table::MergeReviewByStatus => "merge_review_by_status",
            Table::ModelFingerprints => "model_fingerprints",
            Table::NextLsn => "next_lsn",
            Table::Predicates => "predicates",
            Table::PredicatesByQname => "predicates_by_qname",
            Table::RelationMetadata => "relation_metadata",
            Table::RelationByEvidence => "relation_by_evidence",
            Table::RelationTypes => "relation_types",
            Table::RelationTypesByQname => "relation_types_by_qname",
            Table::SchemaVersions => "schema_versions",
            Table::SchemaActiveVersions => "schema_active_versions",
            Table::SlotVersions => "slot_versions",
            Table::Statements => "statements",
            Table::StatementsBySubject => "statements_by_subject",
            Table::StatementsByPredicate => "statements_by_predicate",
            Table::StatementsByObjectEntity => "statements_by_object_entity",
            Table::StatementsByEventTime => "statements_by_event_time",
            Table::StatementsByEvidence => "statements_by_evidence",
            Table::StatementChain => "statement_chain",
            Table::EvidenceOverflow => "evidence_overflow",
            Table::StatementEmbedQueue => "statement_embed_queue",
            Table::Texts => "texts",
            Table::WorkerCheckpoints => "worker_checkpoints",
            Table::SchemaMeta => "__schema_meta",
            Table::StatementQuestionVectors => "statement_question_vectors",
            Table::Namespaces => "namespaces",
            Table::NamespaceByName => "namespace_by_name",
            Table::ApiKeys => "api_keys",
            Table::ApiKeysByAgent => "api_keys_by_agent",
            Table::HypeQuestionVectors => "hype_question_vectors",
            Table::RelationTypeEmbeddings => "relation_type_embeddings",
        }
    }
}

/// A number by which the table names are told apart: the length and a few of
/// the characters.
spec fn name_code(name: Seq<char>) -> int {
    ((name.len()) * 256 + name[0] as int) * 256 + name[name.len() - 2] as int
}

spec fn table_code(t: Table) -> int {
    match t {
        Table::Agents => 418164,
        Table::ExtractorAudit => 1009001,
        Table::ExtractorAuditByMemory => 1664370,
        Table::ExtractorAuditByExtractor => 1860975,
        Table::ExtractorAuditByTime => 1533293,
        Table::EntityResolutionAudit => 1533289,
        Table::StatementContradictionAudit => 1930089,
        Table::Checkpoints => 746356,
        Table::Contexts => 549748,
        Table::ContextNames => 877413,
        Table::AgentContexts => 942452,
        Table::Edges => 550262,
        Table::EdgesReverse => 1074550,
        Table::EntityTypes => 812389,
        Table::Entities => 550245,
        Table::EntityByCanonicalName => 1598829,
        Table::EntityAliases => 943461,
        Table::EntityTrigrams => 1009005,
        Table::EntityMentions => 1009006,
        Table::EntityVectors => 943474,
        Table::Extractors => 681330,
        Table::ExtractorsByQname => 1271149,
        Table::ExtractorPipelineAudit => 1598825,
        Table::Fingerprints => 812660,
        Table::Idempotency => 747875,
        Table::Memories => 552293,
        Table::MemoriesByAgentTimeline => 1731950,
        Table::MergeLog => 617839,
        Table::EntityMergeAuditOverflow => 1795439,
        Table::MergeReviewQueue => 1207669,
        Table::MergeReviewByStatus => 1469813,
        Table::ModelFingerprints => 1207668,
        Table::NextLsn => 552563,
        Table::Predicates => 684133,
        Table::PredicatesByQname => 1273965,
        Table::RelationMetadata => 1143412,
        Table::RelationByEvidence => 1340003,
        Table::RelationTypes => 946789,
        Table::RelationTypesByQname => 1536621,
        Table::SchemaVersions => 1012590,
        Table::SchemaActiveVersions => 1471342,
        Table::SlotVersions => 881518,
        Table::Statements => 684916,
        Table::StatementsBySubject => 1405795,
        Table::StatementsByPredicate => 1536884,
        Table::StatementsByObjectEntity => 1799028,
        Table::StatementsByEventTime => 1602413,
        Table::StatementsByEvidence => 1471331,
        Table::StatementChain => 1012585,
        Table::EvidenceOverflow => 1140079,
        Table::StatementEmbedQueue => 1405813,
        Table::Texts => 357492,
        Table::WorkerCheckpoints => 1210228,
        Table::SchemaMeta => 876404,
        Table::StatementQuestionVectors => 1733490,
        Table::Namespaces => 683621,
        Table::NamespaceByName => 1142381,
        Table::ApiKeys => 549241,
        Table::ApiKeysByAgent => 1139054,
        Table::HypeQuestionVectors => 1402994,
        Table::RelationTypeEmbeddings => 1602151,
    }
}

proof fn lemma_name_code(t: Table)
    ensures
        name_code(t.spec_name()) == table_code(t),
        t.spec_name().len() > 0,
{
    match t {
        Table::Agents => {
            reveal_strlit("agents");
        },
        Table::ExtractorAudit => {
            reveal_strlit("extractor_audit");
        },
        Table::ExtractorAuditByMemory => {
            reveal_strlit("extractor_audit_by_memory");
        },
        Table::ExtractorAuditByExtractor => {
            reveal_strlit("extractor_audit_by_extractor");
        },
        Table::ExtractorAuditByTime => {
            reveal_strlit("extractor_audit_by_time");
        },
        Table::EntityResolutionAudit => {
            reveal_strlit("entity_resolution_audit");
        },
        Table::StatementContradictionAudit => {
            reveal_strlit("statement_contradiction_audit");
        },
        Table::Checkpoints => {
            reveal_strlit("checkpoints");
        },
        Table::Contexts => {
            reveal_strlit("contexts");
        },
        Table::ContextNames => {
            reveal_strlit("context_names");
        },
        Table::AgentContexts => {
            reveal_strlit("agent_contexts");
        },
        Table::Edges => {
            reveal_strlit("edges_v2");
        },
        Table::EdgesReverse => {
            reveal_strlit("edges_reverse_v2");
        },
        Table::EntityTypes => {
            reveal_strlit("entity_types");
        },
        Table::Entities => {
            reveal_strlit("entities");
        },
        Table::EntityByCanonicalName => {
            reveal_strlit("entity_by_canonical_name");
        },
        Table::EntityAliases => {
            reveal_strlit("entity_aliases");
        },
        Table::EntityTrigrams => {
            reveal_strlit("entity_trigrams");
        },
        Table::EntityMentions => {
            reveal_strlit("entity_mentions");
        },
        Table::EntityVectors => {
            reveal_strlit("entity_vectors");
        },
        Table::Extractors => {
            reveal_strlit("extractors");
        },
        Table::ExtractorsByQname => {
            reveal_strlit("extractors_by_qname");
        },
        Table::ExtractorPipelineAudit => {
            reveal_strlit("extractor_pipeline_audit");
        },
        Table::Fingerprints => {
            reveal_strlit("fingerprints");
        },
        Table::Idempotency => {
            reveal_strlit("idempotency");
        },
        Table::Memories => {
            reveal_strlit("memories");
        },
        Table::MemoriesByAgentTimeline => {
            reveal_strlit("memories_by_agent_timeline");
        },
        Table::MergeLog => {
            reveal_strlit("merge_log");
        },
        Table::EntityMergeAuditOverflow => {
            reveal_strlit("entity_merge_audit_overflow");
        },
        Table::MergeReviewQueue => {
            reveal_strlit("merge_review_queue");
        },
        Table::MergeReviewByStatus => {
            reveal_strlit("merge_review_by_status");
        },
        Table::ModelFingerprints => {
            reveal_strlit("model_fingerprints");
        },
        Table::NextLsn => {
            reveal_strlit("next_lsn");
        },
        Table::Predicates => {
            reveal_strlit("predicates");
        },
        Table::PredicatesByQname => {
            reveal_strlit("predicates_by_qname");
        },
        Table::RelationMetadata => {
            reveal_strlit("relation_metadata");
        },
        Table::RelationByEvidence => {
            reveal_strlit("relation_by_evidence");
        },
        Table::RelationTypes => {
            reveal_strlit("relation_types");
        },
        Table::RelationTypesByQname => {
            reveal_strlit("relation_types_by_qname");
        },
        Table::SchemaVersions => {
            reveal_strlit("schema_versions");
        },
        Table::SchemaActiveVersions => {
            reveal_strlit("schema_active_versions");
        },
        Table::SlotVersions => {
            reveal_strlit("slot_versions");
        },
        Table::Statements => {
            reveal_strlit("statements");
        },
        Table::StatementsBySubject => {
            reveal_strlit("statements_by_subject");
        },
        Table::StatementsByPredicate => {
            reveal_strlit("statements_by_predicate");
        },
        Table::StatementsByObjectEntity => {
            reveal_strlit("statements_by_object_entity");
        },
        Table::StatementsByEventTime => {
            reveal_strlit("statements_by_event_time");
        },
        Table::StatementsByEvidence => {
            reveal_strlit("statements_by_evidence");
        },
        Table::StatementChain => {
            reveal_strlit("statement_chain");
        },
        Table::EvidenceOverflow => {
            reveal_strlit("evidence_overflow");
        },
        Table::StatementEmbedQueue => {
            reveal_strlit("statement_embed_queue");
        },
        Table::Texts => {
            reveal_strlit("texts");
        },
        Table::WorkerCheckpoints => {
            reveal_strlit("worker_checkpoints");
        },
        Table::SchemaMeta => {
            reveal_strlit("__schema_meta");
        },
        Table::StatementQuestionVectors => {
            reveal_strlit("statement_question_vectors");
        },
        Table::Namespaces => {
            reveal_strlit("namespaces");
        },
        Table::NamespaceByName => {
            reveal_strlit("namespace_by_name");
        },
        Table::ApiKeys => {
            reveal_strlit("api_keys");
        },
        Table::ApiKeysByAgent => {
            reveal_strlit("api_keys_by_agent");
        },
        Table::HypeQuestionVectors => {
            reveal_strlit("hype_question_vectors");
        },
        Table::RelationTypeEmbeddings => {
            reveal_strlit("relation_type_embeddings");
        },
    }
}

/// No two tables share a name.
pub proof fn lemma_names_differ(a: Table, b: Table)
    ensures
        a != b ==> a.spec_name() != b.spec_name(),
{
    lemma_name_code(a);
    lemma_name_code(b);
}

/// Whether opening the database creates the table. The others come into being
/// with their first row.
pub open spec fn is_materialized(t: Table) -> bool {
    !(t is SchemaMeta || t is StatementQuestionVectors || t is Namespaces || t is NamespaceByName || t is ApiKeys
        || t is ApiKeysByAgent || t is HypeQuestionVectors || t is RelationTypeEmbeddings)
}

/// The tables once those that a read path relies on were created.
pub open spec fn materialized(tables: Set<Seq<char>>) -> Set<Seq<char>> {
    Set::new(
        |name: Seq<char>|
            tables.contains(name) || exists|t: Table| is_materialized(t) && #[trigger] t.spec_name() == name,
    )
}

/// Whether every table that a read path relies on is there.
pub open spec fn complete(tables: Set<Seq<char>>) -> bool {
    forall|t: Table| is_materialized(t) ==> tables.contains(#[trigger] t.spec_name())
}

/// Creating the tables makes them complete, and where they are complete, whatever
/// else there is, it changes nothing.
pub proof fn lemma_materialized(tables: Set<Seq<char>>)
    ensures
        tables.subset_of(materialized(tables)),
        complete(materialized(tables)),
        complete(tables) ==> materialized(tables) == tables,
        materialized(materialized(tables)) == materialized(tables),
{
    if complete(tables) {
        assert(materialized(tables) =~= tables);
    }
    assert(materialized(materialized(tables)) =~= materialized(tables));
}

/// Creating the tables again, once they were created and whatever came to them
/// since, adds none.
pub proof fn lemma_materialize_again(before: Set<Seq<char>>, later: Set<Seq<char>>)
    requires
        materialized(before).subset_of(later),
    ensures
        complete(later),
        materialized(later) == later,
{
    lemma_materialized(before);
    assert(complete(later));
    lemma_materialized(later);
}

/// Creates every table that a read path relies on, and changes no row. The
/// tables that exist already are left as they are.
pub fn materialize_all_tables(txn: &mut WriteTransaction) -> (r: Result<(), redb::Error>)
    ensures
        write_rows(*final(txn)) == write_rows(*old(txn)),
        write_home(*final(txn)) == write_home(*old(txn)),
        write_tables(*old(txn)).subset_of(write_tables(*final(txn))),
        r is Ok ==> write_tables(*final(txn)) == materialized(write_tables(*old(txn))),
{
    let all: [Table; 53] = [
        Table::Agents,
        Table::ExtractorAudit,
        Table::ExtractorAuditByMemory,
        Table::ExtractorAuditByExtractor,
        Table::ExtractorAuditByTime,
        Table::EntityResolutionAudit,
        Table::StatementContradictionAudit,
        Table::Checkpoints,
        Table::Contexts,
        Table::ContextNames,
        Table::AgentContexts,
        Table::Edges,
        Table::EdgesReverse,
        Table::EntityTypes,
        Table::Entities,
        Table::EntityByCanonicalName,
        Table::EntityAliases,
        Table::EntityTrigrams,
        Table::EntityMentions,
        Table::EntityVectors,
        Table::Extractors,
        Table::ExtractorsByQname,
        Table::ExtractorPipelineAudit,
        Table::Fingerprints,
        Table::Idempotency,
        Table::Memories,
        Table::MemoriesByAgentTimeline,
        Table::MergeLog,
        Table::EntityMergeAuditOverflow,
        Table::MergeReviewQueue,
        Table::MergeReviewByStatus,
        Table::ModelFingerprints,
        Table::NextLsn,
        Table::Predicates,
        Table::PredicatesByQname,
        Table::RelationMetadata,
        Table::RelationByEvidence,
        Table::RelationTypes,
        Table::RelationTypesByQname,
        Table::SchemaVersions,
        Table::SchemaActiveVersions,
        Table::SlotVersions,
        Table::Statements,
        Table::StatementsBySubject,
        Table::StatementsByPredicate,
        Table::StatementsByObjectEntity,
        Table::StatementsByEventTime,
        Table::StatementsByEvidence,
        Table::StatementChain,
        Table::EvidenceOverflow,
        Table::StatementEmbedQueue,
        Table::Texts,
        Table::WorkerCheckpoints,
    ];
    let mut i: usize = 0;
    while i < 53
        invariant
            i <= 53,
            all@ == catalogue(),
            write_rows(*txn) == write_rows(*old(txn)),
            write_home(*txn) == write_home(*old(txn)),
            forall|name: Seq<char>| #[trigger]
                write_tables(*txn).contains(name) <==> write_tables(*old(txn)).contains(name) || exists|j: int|
                    0 <= j < i && (#[trigger] catalogue()[j]).spec_name() == name,
        decreases 53 - i,
    {
        create_table(txn, all[i].name())?;
        i = i + 1;
    }
    proof {
        lemma_catalogue();
    }
    Ok(())
}

/// The tables that opening the database creates.
spec fn catalogue() -> Seq<Table> {
    seq![
        Table::Agents,
        Table::ExtractorAudit,
        Table::ExtractorAuditByMemory,
        Table::ExtractorAuditByExtractor,
        Table::ExtractorAuditByTime,
        Table::EntityResolutionAudit,
        Table::StatementContradictionAudit,
        Table::Checkpoints,
        Table::Contexts,
        Table::ContextNames,
        Table::AgentContexts,
        Table::Edges,
        Table::EdgesReverse,
        Table::EntityTypes,
        Table::Entities,
        Table::EntityByCanonicalName,
        Table::EntityAliases,
        Table::EntityTrigrams,
        Table::EntityMentions,
        Table::EntityVectors,
        Table::Extractors,
        Table::ExtractorsByQname,
        Table::ExtractorPipelineAudit,
        Table::Fingerprints,
        Table::Idempotency,
        Table::Memories,
        Table::MemoriesByAgentTimeline,
        Table::MergeLog,
        Table::EntityMergeAuditOverflow,
        Table::MergeReviewQueue,
        Table::MergeReviewByStatus,
        Table::ModelFingerprints,
        Table::NextLsn,
        Table::Predicates,
        Table::PredicatesByQname,
        Table::RelationMetadata,
        Table::RelationByEvidence,
        Table::RelationTypes,
        Table::RelationTypesByQname,
        Table::SchemaVersions,
        Table::SchemaActiveVersions,
        Table::SlotVersions,
        Table::Statements,
        Table::StatementsBySubject,
        Table::StatementsByPredicate,
        Table::StatementsByObjectEntity,
        Table::StatementsByEventTime,
        Table::StatementsByEvidence,
        Table::StatementChain,
        Table::EvidenceOverflow,
        Table::StatementEmbedQueue,
        Table::Texts,
        Table::WorkerCheckpoints,
    ]
}

proof fn lemma_catalogue()
    ensures
        forall|j: int| 0 <= j < catalogue().len() ==> is_materialized(#[trigger] catalogue()[j]),
        forall|t: Table|
            is_materialized(t) ==> exists|j: int| 0 <= j < catalogue().len() && #[trigger] catalogue()[j] == t,
{
    assert forall|t: Table| is_materialized(t) implies exists|j: int|
        0 <= j < catalogue().len() && #[trigger] catalogue()[j] == t by {
        let j: int = match t {
            Table::Agents => 0,
            Table::ExtractorAudit => 1,
            Table::ExtractorAuditByMemory => 2,
            Table::ExtractorAuditByExtractor => 3,
            Table::ExtractorAuditByTime => 4,
            Table::EntityResolutionAudit => 5,
            Table::StatementContradictionAudit => 6,
            Table::Checkpoints => 7,
            Table::Contexts => 8,
            Table::ContextNames => 9,
            Table::AgentContexts => 10,
            Table::Edges => 11,
            Table::EdgesReverse => 12,
            Table::EntityTypes => 13,
            Table::Entities => 14,
            Table::EntityByCanonicalName => 15,
            Table::EntityAliases => 16,
            Table::EntityTrigrams => 17,
            Table::EntityMentions => 18,
            Table::EntityVectors => 19,
            Table::Extractors => 20,
            Table::ExtractorsByQname => 21,
            Table::ExtractorPipelineAudit => 22,
            Table::Fingerprints => 23,
            Table::Idempotency => 24,
            Table::Memories => 25,
            Table::MemoriesByAgentTimeline => 26,
            Table::MergeLog => 27,
            Table::EntityMergeAuditOverflow => 28,
            Table::MergeReviewQueue => 29,
            Table::MergeReviewByStatus => 30,
            Table::ModelFingerprints => 31,
            Table::NextLsn => 32,
            Table::Predicates => 33,
            Table::PredicatesByQname => 34,
            Table::RelationMetadata => 35,
            Table::RelationByEvidence => 36,
            Table::RelationTypes => 37,
            Table::RelationTypesByQname => 38,
            Table::SchemaVersions => 39,
            Table::SchemaActiveVersions => 40,
            Table::SlotVersions => 41,
            Table::Statements => 42,
            Table::StatementsBySubject => 43,
            Table::StatementsByPredicate => 44,
            Table::StatementsByObjectEntity => 45,
            Table::StatementsByEventTime => 46,
            Table::StatementsByEvidence => 47,
            Table::StatementChain => 48,
            Table::EvidenceOverflow => 49,
            Table::StatementEmbedQueue => 50,
            Table::Texts => 51,
            Table::WorkerCheckpoints => 52,
            _ => 0,
        };
        assert(catalogue()[j] == t);
    }
}

} // verus!
