//! What is kept of relations beside their edges.

use vstd::prelude::*;

use crate::bytes::{copy_bytes, put_bytes, zero_bytes, zeros};
use crate::cells::{cell_models, Cell};
use crate::row::{
    array_at, blob_cell, bytes_at, group_row_fields, int_at, int_cell, lemma_opt_blob_injective,
    lemma_packed_injective, list, list_at, list_cell, opt_array_at, opt_blob, opt_blob_cell, opt_int, opt_int_at,
    opt_int_cell, u32_at, u8_at, CellModel, Row,
};
use crate::tables::edge::{NodeRef, NodeRefError};
use crate::tables::statement::put_scope;
use crate::types::{
    scope_key, AgentId, EntityId, ExtractorId, F32, MemoryId, NamespaceId, RelationId, RelationTypeId, RowScope,
};

verus! {

/// A relation between two entities. `B` and `L` are vectors in one that is held
/// and sequences in one that is spoken of.
#[derive(Clone, Debug, PartialEq)]
pub struct Relation<B = Vec<u8>, L = Vec<MemoryId>> {
    pub id: RelationId,
    pub relation_type: RelationTypeId,
    pub from_entity: EntityId,
    pub to_entity: EntityId,
    pub properties_blob: B,
    pub confidence: F32,
    pub evidence: L,
    pub extractor_id: ExtractorId,
    pub extracted_at_unix_nanos: u64,
    pub valid_from_unix_nanos: Option<u64>,
    pub valid_to_unix_nanos: Option<u64>,
    pub version: u32,
    pub superseded_by: Option<RelationId>,
    pub supersedes: Option<RelationId>,
    pub chain_root: RelationId,
    pub tombstoned: bool,
    pub tombstoned_at_unix_nanos: Option<u64>,
    pub is_symmetric: bool,
}

/// A relation as it is spoken of.
pub type RelationModel = Relation<Seq<u8>, Seq<MemoryId>>;

impl Relation {
    pub open spec fn model(&self) -> RelationModel {
        Relation {
            id: self.id,
            relation_type: self.relation_type,
            from_entity: self.from_entity,
            to_entity: self.to_entity,
            properties_blob: self.properties_blob@,
            confidence: self.confidence,
            evidence: self.evidence@,
            extractor_id: self.extractor_id,
            extracted_at_unix_nanos: self.extracted_at_unix_nanos,
            valid_from_unix_nanos: self.valid_from_unix_nanos,
            valid_to_unix_nanos: self.valid_to_unix_nanos,
            version: self.version,
            superseded_by: self.superseded_by,
            supersedes: self.supersedes,
            chain_root: self.chain_root,
            tombstoned: self.tombstoned,
            tombstoned_at_unix_nanos: self.tombstoned_at_unix_nanos,
            is_symmetric: self.is_symmetric,
        }
    }

    /// The first version of a relation.
    #[must_use]
    pub fn new_root(
        id: RelationId,
        relation_type: RelationTypeId,
        from_entity: EntityId,
        to_entity: EntityId,
        confidence: F32,
        evidence: Vec<MemoryId>,
        extractor_id: ExtractorId,
        extracted_at_unix_nanos: u64,
        is_symmetric: bool,
    ) -> (r: Self)
        ensures
            r.model() == (RelationModel {
                id,
                relation_type,
                from_entity,
                to_entity,
                properties_blob: Seq::empty(),
                confidence,
                evidence: evidence@,
                extractor_id,
                extracted_at_unix_nanos,
                valid_from_unix_nanos: None,
                valid_to_unix_nanos: None,
                version: 1,
                superseded_by: None,
                supersedes: None,
                chain_root: id,
                tombstoned: false,
                tombstoned_at_unix_nanos: None,
                is_symmetric,
            }),
    {
        let r = Relation {
            id,
            relation_type,
            from_entity,
            to_entity,
            properties_blob: Vec::new(),
            confidence,
            evidence,
            extractor_id,
            extracted_at_unix_nanos,
            valid_from_unix_nanos: None,
            valid_to_unix_nanos: None,
            version: 1,
            superseded_by: None,
            supersedes: None,
            chain_root: id,
            tombstoned: false,
            tombstoned_at_unix_nanos: None,
            is_symmetric,
        };
        proof {
            assert(r.properties_blob@ =~= Seq::<u8>::empty());
        }
        r
    }
}

/// A row of the `relation_metadata` table: what an edge does not hold of a
/// relation. The ends stand here too, each as a tag and an identifier, so that a
/// relation is found by its identifier alone.
#[derive(Clone, Debug, PartialEq)]
pub struct RelationMetadata<B = Vec<u8>, L = Vec<[u8; 16]>> {
    pub namespace_id: u32,
    pub agent_id_bytes: [u8; 16],
    pub from_tag: u8,
    pub from_bytes: [u8; 16],
    pub to_tag: u8,
    pub to_bytes: [u8; 16],
    pub relation_type_id: u32,
    pub chain_root_bytes: [u8; 16],
    /// Opaque here.
    pub properties_blob: B,
    pub version: u32,
    pub confidence: F32,
    pub extractor_id: u32,
    pub extracted_at_unix_nanos: u64,
    pub valid_from_unix_nanos: Option<u64>,
    pub valid_to_unix_nanos: Option<u64>,
    pub superseded_by_bytes: Option<[u8; 16]>,
    pub supersedes_bytes: Option<[u8; 16]>,
    pub evidence_inline: L,
    pub tombstoned: u8,
    pub tombstoned_at_unix_nanos: Option<u64>,
    pub is_current: u8,
    pub is_symmetric: u8,
    pub flags: u32,
}

impl Row for RelationMetadata {
    type M = RelationMetadata<Seq<u8>, Seq<[u8; 16]>>;

    open spec fn model(&self) -> RelationMetadata<Seq<u8>, Seq<[u8; 16]>> {
        RelationMetadata {
            namespace_id: self.namespace_id,
            agent_id_bytes: self.agent_id_bytes,
            from_tag: self.from_tag,
            from_bytes: self.from_bytes,
            to_tag: self.to_tag,
            to_bytes: self.to_bytes,
            relation_type_id: self.relation_type_id,
            chain_root_bytes: self.chain_root_bytes,
            properties_blob: self.properties_blob@,
            version: self.version,
            confidence: self.confidence,
            extractor_id: self.extractor_id,
            extracted_at_unix_nanos: self.extracted_at_unix_nanos,
            valid_from_unix_nanos: self.valid_from_unix_nanos,
            valid_to_unix_nanos: self.valid_to_unix_nanos,
            superseded_by_bytes: self.superseded_by_bytes,
            supersedes_bytes: self.supersedes_bytes,
            evidence_inline: self.evidence_inline@,
            tombstoned: self.tombstoned,
            tombstoned_at_unix_nanos: self.tombstoned_at_unix_nanos,
            is_current: self.is_current,
            is_symmetric: self.is_symmetric,
            flags: self.flags,
        }
    }

    open spec fn cells(m: RelationMetadata<Seq<u8>, Seq<[u8; 16]>>) -> Seq<CellModel> {
        seq![
            Cell::Int(m.namespace_id as u64),
            Cell::Blob(m.agent_id_bytes@),
            Cell::Int(m.from_tag as u64),
            Cell::Blob(m.from_bytes@),
            Cell::Int(m.to_tag as u64),
            Cell::Blob(m.to_bytes@),
            Cell::Int(m.relation_type_id as u64),
            Cell::Blob(m.chain_root_bytes@),
            Cell::Blob(m.properties_blob),
            Cell::Int(m.version as u64),
            Cell::Int(m.confidence.bits as u64),
            Cell::Int(m.extractor_id as u64),
            Cell::Int(m.extracted_at_unix_nanos),
            opt_int(m.valid_from_unix_nanos),
            opt_int(m.valid_to_unix_nanos),
            opt_blob(m.superseded_by_bytes),
            opt_blob(m.supersedes_bytes),
            list(m.evidence_inline),
            Cell::Int(m.tombstoned as u64),
            opt_int(m.tombstoned_at_unix_nanos),
            Cell::Int(m.is_current as u64),
            Cell::Int(m.is_symmetric as u64),
            Cell::Int(m.flags as u64),
        ]
    }

    proof fn cells_injective(a: RelationMetadata<Seq<u8>, Seq<[u8; 16]>>, b: RelationMetadata<Seq<u8>, Seq<[u8; 16]>>) {
        broadcast use group_row_fields;

        let x = Self::cells(a);
        let y = Self::cells(b);
        assert(x[0] == y[0]
            && x[1] == y[1]
            && x[2] == y[2]
            && x[3] == y[3]
            && x[4] == y[4]
            && x[5] == y[5]
            && x[6] == y[6]
            && x[7] == y[7]
            && x[8] == y[8]
            && x[9] == y[9]
            && x[10] == y[10]
            && x[11] == y[11]
            && x[12] == y[12]
            && x[13] == y[13]
            && x[14] == y[14]
            && x[15] == y[15]
            && x[16] == y[16]
            && x[17] == y[17]
            && x[18] == y[18]
            && x[19] == y[19]
            && x[20] == y[20]
            && x[21] == y[21]
            && x[22] == y[22]);
        assert(a.agent_id_bytes@ == b.agent_id_bytes@);
        assert(a.from_bytes@ == b.from_bytes@);
        assert(a.to_bytes@ == b.to_bytes@);
        assert(a.chain_root_bytes@ == b.chain_root_bytes@);
        lemma_opt_blob_injective(a.superseded_by_bytes, b.superseded_by_bytes);
        lemma_opt_blob_injective(a.supersedes_bytes, b.supersedes_bytes);
        lemma_packed_injective(a.evidence_inline, b.evidence_inline);
    }

    fn to_cells(&self) -> (r: Vec<Cell<Vec<u8>>>) {
        let cells: Vec<Cell<Vec<u8>>> = vec![
            int_cell(self.namespace_id as u64),
            blob_cell(self.agent_id_bytes.as_slice()),
            int_cell(self.from_tag as u64),
            blob_cell(self.from_bytes.as_slice()),
            int_cell(self.to_tag as u64),
            blob_cell(self.to_bytes.as_slice()),
            int_cell(self.relation_type_id as u64),
            blob_cell(self.chain_root_bytes.as_slice()),
            blob_cell(self.properties_blob.as_slice()),
            int_cell(self.version as u64),
            int_cell(self.confidence.bits as u64),
            int_cell(self.extractor_id as u64),
            int_cell(self.extracted_at_unix_nanos),
            opt_int_cell(self.valid_from_unix_nanos),
            opt_int_cell(self.valid_to_unix_nanos),
            opt_blob_cell(&self.superseded_by_bytes),
            opt_blob_cell(&self.supersedes_bytes),
            list_cell(&self.evidence_inline),
            int_cell(self.tombstoned as u64),
            opt_int_cell(self.tombstoned_at_unix_nanos),
            int_cell(self.is_current as u64),
            int_cell(self.is_symmetric as u64),
            int_cell(self.flags as u64),
        ];
        proof {
            assert(cell_models(cells@) =~= Self::cells(self.model()));
        }
        cells
    }

    fn from_cells(cells: &Vec<Cell<Vec<u8>>>) -> (r: Option<Self>) {
        if cells.len() != 23 {
            proof {
                assert forall|m: RelationMetadata<Seq<u8>, Seq<[u8; 16]>>| #[trigger] Self::cells(m) != cell_models(cells@) by {
                    assert(Self::cells(m).len() == 23);
                }
            }
            return None;
        }
        let namespace_id = match u32_at(cells, 0) {
            Some(x) => x,
            None => return None,
        };
        let agent_id_bytes = match array_at::<16>(cells, 1) {
            Some(x) => x,
            None => return None,
        };
        let from_tag = match u8_at(cells, 2) {
            Some(x) => x,
            None => return None,
        };
        let from_bytes = match array_at::<16>(cells, 3) {
            Some(x) => x,
            None => return None,
        };
        let to_tag = match u8_at(cells, 4) {
            Some(x) => x,
            None => return None,
        };
        let to_bytes = match array_at::<16>(cells, 5) {
            Some(x) => x,
            None => return None,
        };
        let relation_type_id = match u32_at(cells, 6) {
            Some(x) => x,
            None => return None,
        };
        let chain_root_bytes = match array_at::<16>(cells, 7) {
            Some(x) => x,
            None => return None,
        };
        let properties_blob = match bytes_at(cells, 8) {
            Some(x) => x,
            None => return None,
        };
        let version = match u32_at(cells, 9) {
            Some(x) => x,
            None => return None,
        };
        let confidence = match u32_at(cells, 10) {
            Some(x) => F32 { bits: x },
            None => return None,
        };
        let extractor_id = match u32_at(cells, 11) {
            Some(x) => x,
            None => return None,
        };
        let extracted_at_unix_nanos = match int_at(cells, 12) {
            Some(x) => x,
            None => return None,
        };
        let valid_from_unix_nanos = match opt_int_at(cells, 13) {
            Some(x) => x,
            None => return None,
        };
        let valid_to_unix_nanos = match opt_int_at(cells, 14) {
            Some(x) => x,
            None => return None,
        };
        let superseded_by_bytes = match opt_array_at::<16>(cells, 15) {
            Some(x) => x,
            None => return None,
        };
        let supersedes_bytes = match opt_array_at::<16>(cells, 16) {
            Some(x) => x,
            None => return None,
        };
        let evidence_inline = match list_at::<[u8; 16]>(cells, 17) {
            Some(x) => x,
            None => return None,
        };
        let tombstoned = match u8_at(cells, 18) {
            Some(x) => x,
            None => return None,
        };
        let tombstoned_at_unix_nanos = match opt_int_at(cells, 19) {
            Some(x) => x,
            None => return None,
        };
        let is_current = match u8_at(cells, 20) {
            Some(x) => x,
            None => return None,
        };
        let is_symmetric = match u8_at(cells, 21) {
            Some(x) => x,
            None => return None,
        };
        let flags = match u32_at(cells, 22) {
            Some(x) => x,
            None => return None,
        };
        let row = RelationMetadata {
            namespace_id,
            agent_id_bytes,
            from_tag,
            from_bytes,
            to_tag,
            to_bytes,
            relation_type_id,
            chain_root_bytes,
            properties_blob,
            version,
            confidence,
            extractor_id,
            extracted_at_unix_nanos,
            valid_from_unix_nanos,
            valid_to_unix_nanos,
            superseded_by_bytes,
            supersedes_bytes,
            evidence_inline,
            tombstoned,
            tombstoned_at_unix_nanos,
            is_current,
            is_symmetric,
            flags,
        };
        proof {
            assert(Self::cells(row.model()) =~= cell_models(cells@));
        }
        Some(row)
    }
}

/// A row as it is spoken of.
pub type RelationRowModel = RelationMetadata<Seq<u8>, Seq<[u8; 16]>>;

/// The node with a tag and an identifier.
pub open spec fn node_of(tag: u8, id: [u8; 16]) -> Result<NodeRef, NodeRefError> {
    if tag == 0 {
        Ok(NodeRef::Memory(MemoryId(id)))
    } else if tag == 1 {
        Ok(NodeRef::Entity(EntityId(id)))
    } else {
        Err(NodeRefError::UnknownTag(tag))
    }
}

fn make_node(tag: u8, id: [u8; 16]) -> (r: Result<NodeRef, NodeRefError>)
    ensures
        r == node_of(tag, id),
{
    match tag {
        0 => Ok(NodeRef::Memory(MemoryId(id))),
        1 => Ok(NodeRef::Entity(EntityId(id))),
        x => Err(NodeRefError::UnknownTag(x)),
    }
}

/// The two ends of a row, if both are entities.
pub open spec fn ends(m: RelationRowModel) -> Option<(EntityId, EntityId)> {
    match (node_of(m.from_tag, m.from_bytes), node_of(m.to_tag, m.to_bytes)) {
        (Ok(NodeRef::Entity(a)), Ok(NodeRef::Entity(b))) => Some((a, b)),
        _ => None,
    }
}

impl RelationMetadata {
    /// The node that the relation leads from.
    pub fn source_node(&self) -> (r: Result<NodeRef, NodeRefError>)
        ensures
            r == node_of(self.from_tag, self.from_bytes),
    {
        make_node(self.from_tag, self.from_bytes)
    }

    /// The node that the relation leads to.
    pub fn target_node(&self) -> (r: Result<NodeRef, NodeRefError>)
        ensures
            r == node_of(self.to_tag, self.to_bytes),
    {
        make_node(self.to_tag, self.to_bytes)
    }

    #[must_use]
    pub fn chain_root(&self) -> (r: RelationId)
        ensures
            r == RelationId(self.chain_root_bytes),
    {
        RelationId(self.chain_root_bytes)
    }

    #[must_use]
    pub fn namespace(&self) -> (r: NamespaceId)
        ensures
            r == NamespaceId(self.namespace_id),
    {
        NamespaceId(self.namespace_id)
    }

    #[must_use]
    pub fn agent_id(&self) -> (r: AgentId)
        ensures
            r == AgentId(self.agent_id_bytes),
    {
        AgentId(self.agent_id_bytes)
    }

    /// The owner of the relation.
    #[must_use]
    pub fn scope(&self) -> (r: RowScope)
        ensures
            r == (RowScope { namespace_id: self.namespace_id, agent_id_bytes: self.agent_id_bytes }),
    {
        RowScope::from_bytes(self.namespace_id, self.agent_id_bytes)
    }

    /// The two ends, if both are entities.
    #[must_use]
    pub fn entity_endpoints(&self) -> (r: Option<(EntityId, EntityId)>)
        ensures
            r == ends(self.model()),
    {
        match (self.source_node(), self.target_node()) {
            (Ok(NodeRef::Entity(a)), Ok(NodeRef::Entity(b))) => Some((a, b)),
            _ => None,
        }
    }

    #[must_use]
    pub fn is_current(&self) -> (r: bool)
        ensures
            r == (self.is_current != 0),
    {
        self.is_current != 0
    }

    #[must_use]
    pub fn is_symmetric(&self) -> (r: bool)
        ensures
            r == (self.is_symmetric != 0),
    {
        self.is_symmetric != 0
    }

    #[must_use]
    pub fn is_tombstoned(&self) -> (r: bool)
        ensures
            r == (self.tombstoned != 0),
    {
        self.tombstoned != 0
    }
}

/// A truth value as a byte.
pub open spec fn bit(b: bool) -> u8 {
    if b {
        1
    } else {
        0
    }
}

fn make_bit(b: bool) -> (r: u8)
    ensures
        r == bit(b),
{
    if b {
        1
    } else {
        0
    }
}

/// The bytes of an optional relation.
pub open spec fn relation_bytes(o: Option<RelationId>) -> Option<[u8; 16]> {
    match o {
        Some(r) => Some(r.0),
        None => None,
    }
}

/// The relation of optional bytes.
pub open spec fn relation_of(o: Option<[u8; 16]>) -> Option<RelationId> {
    match o {
        Some(b) => Some(RelationId(b)),
        None => None,
    }
}

fn make_relation_bytes(o: Option<RelationId>) -> (r: Option<[u8; 16]>)
    ensures
        r == relation_bytes(o),
{
    match o {
        Some(r) => Some(r.0),
        None => None,
    }
}

fn make_relation(o: Option<[u8; 16]>) -> (r: Option<RelationId>)
    ensures
        r == relation_of(o),
{
    match o {
        Some(b) => Some(RelationId(b)),
        None => None,
    }
}

/// The row of a relation. It is current unless it was superseded or removed.
pub open spec fn relation_row(r: RelationModel, scope: RowScope) -> RelationRowModel {
    RelationMetadata {
        namespace_id: scope.namespace_id,
        agent_id_bytes: scope.agent_id_bytes,
        from_tag: 1,
        from_bytes: r.from_entity.0,
        to_tag: 1,
        to_bytes: r.to_entity.0,
        relation_type_id: r.relation_type.0,
        chain_root_bytes: r.chain_root.0,
        properties_blob: r.properties_blob,
        version: r.version,
        confidence: r.confidence,
        extractor_id: r.extractor_id.0,
        extracted_at_unix_nanos: r.extracted_at_unix_nanos,
        valid_from_unix_nanos: r.valid_from_unix_nanos,
        valid_to_unix_nanos: r.valid_to_unix_nanos,
        superseded_by_bytes: relation_bytes(r.superseded_by),
        supersedes_bytes: relation_bytes(r.supersedes),
        evidence_inline: r.evidence.map_values(|m: MemoryId| m.0),
        tombstoned: bit(r.tombstoned),
        tombstoned_at_unix_nanos: r.tombstoned_at_unix_nanos,
        is_current: bit(!r.tombstoned && r.superseded_by is None),
        is_symmetric: bit(r.is_symmetric),
        flags: 0,
    }
}

/// The relation of a row. A row whose ends are not entities leads from zero to
/// zero.
pub open spec fn row_relation(id: RelationId, m: RelationRowModel) -> RelationModel {
    let e = match ends(m) {
        Some(e) => e,
        None => (EntityId(zeros::<16>()), EntityId(zeros::<16>())),
    };
    Relation {
        id,
        relation_type: RelationTypeId(m.relation_type_id),
        from_entity: e.0,
        to_entity: e.1,
        properties_blob: m.properties_blob,
        confidence: m.confidence,
        evidence: m.evidence_inline.map_values(|b: [u8; 16]| MemoryId(b)),
        extractor_id: ExtractorId(m.extractor_id),
        extracted_at_unix_nanos: m.extracted_at_unix_nanos,
        valid_from_unix_nanos: m.valid_from_unix_nanos,
        valid_to_unix_nanos: m.valid_to_unix_nanos,
        version: m.version,
        superseded_by: relation_of(m.superseded_by_bytes),
        supersedes: relation_of(m.supersedes_bytes),
        chain_root: RelationId(m.chain_root_bytes),
        tombstoned: m.tombstoned != 0,
        tombstoned_at_unix_nanos: m.tombstoned_at_unix_nanos,
        is_symmetric: m.is_symmetric != 0,
    }
}

fn memory_bytes(v: &Vec<MemoryId>) -> (r: Vec<[u8; 16]>)
    ensures
        r@ == v@.map_values(|m: MemoryId| m.0),
{
    let mut out: Vec<[u8; 16]> = Vec::new();
    let mut i: usize = 0;
    while i < v.len()
        invariant
            i <= v.len(),
            out@ == v@.take(i as int).map_values(|m: MemoryId| m.0),
        decreases v.len() - i,
    {
        out.push(v[i].0);
        i = i + 1;
        proof {
            assert(out@ =~= v@.take(i as int).map_values(|m: MemoryId| m.0));
        }
    }
    proof {
        assert(v@.take(i as int) =~= v@);
    }
    out
}

fn memories_of(v: &Vec<[u8; 16]>) -> (r: Vec<MemoryId>)
    ensures
        r@ == v@.map_values(|b: [u8; 16]| MemoryId(b)),
{
    let mut out: Vec<MemoryId> = Vec::new();
    let mut i: usize = 0;
    while i < v.len()
        invariant
            i <= v.len(),
            out@ == v@.take(i as int).map_values(|b: [u8; 16]| MemoryId(b)),
        decreases v.len() - i,
    {
        out.push(MemoryId(v[i]));
        i = i + 1;
        proof {
            assert(out@ =~= v@.take(i as int).map_values(|b: [u8; 16]| MemoryId(b)));
        }
    }
    proof {
        assert(v@.take(i as int) =~= v@);
    }
    out
}

/// The row of a relation.
#[must_use]
pub fn metadata_from_relation(r: &Relation, scope: RowScope) -> (row: RelationMetadata)
    ensures
        row.model() == relation_row(r.model(), scope),
{
    let live = match r.superseded_by {
        None => !r.tombstoned,
        Some(_) => false,
    };
    RelationMetadata {
        namespace_id: scope.namespace_id,
        agent_id_bytes: scope.agent_id_bytes,
        from_tag: 1,
        from_bytes: r.from_entity.0,
        to_tag: 1,
        to_bytes: r.to_entity.0,
        relation_type_id: r.relation_type.0,
        chain_root_bytes: r.chain_root.0,
        properties_blob: copy_bytes(&r.properties_blob),
        version: r.version,
        confidence: r.confidence,
        extractor_id: r.extractor_id.0,
        extracted_at_unix_nanos: r.extracted_at_unix_nanos,
        valid_from_unix_nanos: r.valid_from_unix_nanos,
        valid_to_unix_nanos: r.valid_to_unix_nanos,
        superseded_by_bytes: make_relation_bytes(r.superseded_by),
        supersedes_bytes: make_relation_bytes(r.supersedes),
        evidence_inline: memory_bytes(&r.evidence),
        tombstoned: make_bit(r.tombstoned),
        tombstoned_at_unix_nanos: r.tombstoned_at_unix_nanos,
        is_current: make_bit(live),
        is_symmetric: make_bit(r.is_symmetric),
        flags: 0,
    }
}

/// The relation of a row.
#[must_use]
pub fn relation_from_metadata(id: RelationId, m: &RelationMetadata) -> (r: Relation)
    ensures
        r.model() == row_relation(id, m.model()),
{
    let (from_entity, to_entity) = match m.entity_endpoints() {
        Some(e) => e,
        None => (EntityId(zero_bytes::<16>()), EntityId(zero_bytes::<16>())),
    };
    Relation {
        id,
        relation_type: RelationTypeId(m.relation_type_id),
        from_entity,
        to_entity,
        properties_blob: copy_bytes(&m.properties_blob),
        confidence: m.confidence,
        evidence: memories_of(&m.evidence_inline),
        extractor_id: ExtractorId(m.extractor_id),
        extracted_at_unix_nanos: m.extracted_at_unix_nanos,
        valid_from_unix_nanos: m.valid_from_unix_nanos,
        valid_to_unix_nanos: m.valid_to_unix_nanos,
        version: m.version,
        superseded_by: make_relation(m.superseded_by_bytes),
        supersedes: make_relation(m.supersedes_bytes),
        chain_root: m.chain_root(),
        tombstoned: m.is_tombstoned(),
        tombstoned_at_unix_nanos: m.tombstoned_at_unix_nanos,
        is_symmetric: m.is_symmetric(),
    }
}

/// A relation is read back from its row as it was, and the row has its ends.
pub proof fn lemma_relation_round_trip(r: RelationModel, scope: RowScope)
    ensures
        row_relation(r.id, relation_row(r, scope)) == r,
        ends(relation_row(r, scope)) == Some((r.from_entity, r.to_entity)),
        relation_row(r, scope).is_current != 0 <==> !r.tombstoned && r.superseded_by is None,
{
    assert(row_relation(r.id, relation_row(r, scope)).evidence =~= r.evidence);
}

/// The key of a relation under a memory that it rests on.
pub open spec fn relation_evidence_key(scope: RowScope, memory: [u8; 16], relation: RelationId) -> Seq<u8> {
    scope_key(scope) + memory@ + relation.0@
}

/// The key of a relation under a memory that it rests on.
pub fn make_relation_evidence_key(scope: &RowScope, memory: [u8; 16], relation: RelationId) -> (r: Vec<u8>)
    ensures
        r@ == relation_evidence_key(*scope, memory, relation),
{
    let mut k = put_scope(scope);
    put_bytes(&mut k, memory.as_slice());
    put_bytes(&mut k, relation.0.as_slice());
    k
}

/// The row of a relation leads from its source to its target, both entities, and says
/// what the relation says. It is current exactly if the relation is neither tombstoned
/// nor superseded.
pub proof fn lemma_relation_row(r: RelationModel, scope: RowScope)
    ensures
        ({
            let m = relation_row(r, scope);
            &&& m.namespace_id == scope.namespace_id && m.agent_id_bytes == scope.agent_id_bytes
            &&& m.from_tag == 1 && m.from_bytes == r.from_entity.0
            &&& m.to_tag == 1 && m.to_bytes == r.to_entity.0
            &&& m.relation_type_id == r.relation_type.0
            &&& m.chain_root_bytes == r.chain_root.0
            &&& m.properties_blob == r.properties_blob
            &&& m.version == r.version
            &&& m.confidence == r.confidence
            &&& m.extractor_id == r.extractor_id.0
            &&& m.extracted_at_unix_nanos == r.extracted_at_unix_nanos
            &&& m.valid_from_unix_nanos == r.valid_from_unix_nanos
            &&& m.valid_to_unix_nanos == r.valid_to_unix_nanos
            &&& m.superseded_by_bytes is None <==> r.superseded_by is None
            &&& r.superseded_by is Some ==> m.superseded_by_bytes == Some(r.superseded_by->Some_0.0)
            &&& m.supersedes_bytes is None <==> r.supersedes is None
            &&& r.supersedes is Some ==> m.supersedes_bytes == Some(r.supersedes->Some_0.0)
            &&& m.evidence_inline.len() == r.evidence.len()
            &&& forall|i: int| 0 <= i < r.evidence.len() ==> #[trigger] m.evidence_inline[i] == r.evidence[i].0
            &&& m.tombstoned == 1 <==> r.tombstoned
            &&& m.tombstoned <= 1
            &&& m.tombstoned_at_unix_nanos == r.tombstoned_at_unix_nanos
            &&& m.is_current == 1 <==> !r.tombstoned && r.superseded_by is None
            &&& m.is_current <= 1
            &&& m.is_symmetric == 1 <==> r.is_symmetric
            &&& m.is_symmetric <= 1
        }),
{
}

/// A node is a memory under the tag 0 and an entity under the tag 1, and there is no
/// other. The ends of a row are told exactly if both are entities.
pub proof fn lemma_ends(tag: u8, id: [u8; 16], m: RelationRowModel)
    ensures
        node_of(tag, id) == Ok::<_, NodeRefError>(NodeRef::Memory(MemoryId(id))) <==> tag == 0,
        node_of(tag, id) == Ok::<_, NodeRefError>(NodeRef::Entity(EntityId(id))) <==> tag == 1,
        node_of(tag, id) == Err::<NodeRef, _>(NodeRefError::UnknownTag(tag)) <==> tag >= 2,
        ends(m) == if m.from_tag == 1 && m.to_tag == 1 {
            Some((EntityId(m.from_bytes), EntityId(m.to_bytes)))
        } else {
            None
        },
{
}

} // verus!
