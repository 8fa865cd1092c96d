//! Entities, and the keys they are found by.

use vstd::prelude::*;
use vstd::utf8::encode_utf8;

use crate::bytes::{be, copy_bytes, put_be, put_bytes};
use crate::cells::{cell_fits, cell_models, Cell};
use crate::row::{
    array_at, blob_cell, bytes_at, copy_text, copy_texts, group_row_fields, int_at, int_cell,
    lemma_opt_blob_injective, lemma_rows_injective, opt_array_at, opt_blob, opt_blob_cell, row_models, rows, rows_at,
    rows_cell, text, text_at, text_cell, u32_at, u8_at, CellModel, Row,
};
use crate::tables::statement::put_scope;
use crate::types::{scope_key, AgentId, EntityId, EntityTypeId, F32, MemoryId, NamespaceId, RowScope};

pub mod flags;
pub mod mention_context;

verus! {

/// The bytes of an entity's vector: 384 numbers of 4 bytes.
pub const ENTITY_VECTOR_BYTES: usize = 1536;

/// Attributes, opaque here.
#[derive(Clone, Debug, PartialEq, Eq)]
pub struct EntityAttributes<B = Vec<u8>>(pub B);

/// An entity. The parameters are `String`s and vectors in one that is held and
/// sequences in one that is spoken of.
#[derive(Clone, Debug, PartialEq, Eq)]
pub struct Entity<T = String, A = Vec<String>, B = Vec<u8>> {
    pub id: EntityId,
    pub entity_type: EntityTypeId,
    pub canonical_name: T,
    pub normalized_name: T,
    pub aliases: A,
    pub attributes: EntityAttributes<B>,
    pub mention_count: u32,
    pub created_at_unix_nanos: u64,
    pub updated_at_unix_nanos: u64,
    pub merged_into: Option<EntityId>,
    pub embedding_version: u32,
    pub flags: u32,
}

/// An entity as it is spoken of.
pub type EntityModel = Entity<Seq<char>, Seq<Seq<char>>, Seq<u8>>;

impl Entity {
    pub open spec fn model(&self) -> EntityModel {
        Entity {
            id: self.id,
            entity_type: self.entity_type,
            canonical_name: self.canonical_name@,
            normalized_name: self.normalized_name@,
            aliases: row_models(self.aliases@),
            attributes: EntityAttributes(self.attributes.0@),
            mention_count: self.mention_count,
            created_at_unix_nanos: self.created_at_unix_nanos,
            updated_at_unix_nanos: self.updated_at_unix_nanos,
            merged_into: self.merged_into,
            embedding_version: self.embedding_version,
            flags: self.flags,
        }
    }

    /// An entity that was just seen for the first time.
    #[must_use]
    pub fn new_active(
        id: EntityId,
        entity_type: EntityTypeId,
        canonical_name: String,
        normalized_name: String,
        created_at_unix_nanos: u64,
    ) -> (r: Self)
        ensures
            r.model() == (EntityModel {
                id,
                entity_type,
                canonical_name: canonical_name@,
                normalized_name: normalized_name@,
                aliases: Seq::empty(),
                attributes: EntityAttributes(Seq::empty()),
                mention_count: 0,
                created_at_unix_nanos,
                updated_at_unix_nanos: created_at_unix_nanos,
                merged_into: None,
                embedding_version: 0,
                flags: 0,
            }),
    {
        let r = Entity {
            id,
            entity_type,
            canonical_name,
            normalized_name,
            aliases: Vec::new(),
            attributes: EntityAttributes(Vec::new()),
            mention_count: 0,
            created_at_unix_nanos,
            updated_at_unix_nanos: created_at_unix_nanos,
            merged_into: None,
            embedding_version: 0,
            flags: 0,
        };
        proof {
            assert(row_models(r.aliases@) =~= Seq::<Seq<char>>::empty());
            assert(r.attributes.0@ =~= Seq::<u8>::empty());
        }
        r
    }
}

/// A row of the `entities` table.
#[derive(Clone, Debug, PartialEq)]
pub struct EntityMetadata<T = String, B = Vec<u8>, A = Vec<String>> {
    pub entity_id_bytes: [u8; 16],
    pub namespace_id: u32,
    pub agent_id_bytes: [u8; 16],
    pub entity_type_id: u32,
    pub canonical_name: T,
    pub normalized_name: T,
    pub aliases: A,
    /// Opaque here.
    pub attributes_blob: B,
    pub mention_count: u32,
    pub created_at_unix_nanos: u64,
    pub updated_at_unix_nanos: u64,
    /// The entity that this one was merged into.
    pub merged_into_bytes: Option<[u8; 16]>,
    pub embedding_version: u32,
    /// See [`flags`].
    pub flags: u32,
}

impl Row for EntityMetadata {
    type M = EntityMetadata<Seq<char>, Seq<u8>, Seq<Seq<char>>>;

    open spec fn model(&self) -> EntityMetadata<Seq<char>, Seq<u8>, Seq<Seq<char>>> {
        EntityMetadata {
            entity_id_bytes: self.entity_id_bytes,
            namespace_id: self.namespace_id,
            agent_id_bytes: self.agent_id_bytes,
            entity_type_id: self.entity_type_id,
            canonical_name: self.canonical_name@,
            normalized_name: self.normalized_name@,
            aliases: row_models(self.aliases@),
            attributes_blob: self.attributes_blob@,
            mention_count: self.mention_count,
            created_at_unix_nanos: self.created_at_unix_nanos,
            updated_at_unix_nanos: self.updated_at_unix_nanos,
            merged_into_bytes: self.merged_into_bytes,
            embedding_version: self.embedding_version,
            flags: self.flags,
        }
    }

    open spec fn cells(m: EntityMetadata<Seq<char>, Seq<u8>, Seq<Seq<char>>>) -> Seq<CellModel> {
        seq![
            Cell::Blob(m.entity_id_bytes@),
            Cell::Int(m.namespace_id as u64),
            Cell::Blob(m.agent_id_bytes@),
            Cell::Int(m.entity_type_id as u64),
            text(m.canonical_name),
            text(m.normalized_name),
            rows::<String>(m.aliases),
            Cell::Blob(m.attributes_blob),
            Cell::Int(m.mention_count as u64),
            Cell::Int(m.created_at_unix_nanos),
            Cell::Int(m.updated_at_unix_nanos),
            opt_blob(m.merged_into_bytes),
            Cell::Int(m.embedding_version as u64),
            Cell::Int(m.flags as u64),
        ]
    }

    proof fn cells_injective(a: EntityMetadata<Seq<char>, Seq<u8>, Seq<Seq<char>>>, b: EntityMetadata<Seq<char>, Seq<u8>, Seq<Seq<char>>>) {
        broadcast use group_row_fields;

        let x = Self::cells(a);
        let y = Self::cells(b);
        assert(x[0] == y[0]
            && x[1] == y[1]
            && x[2] == y[2]
            && x[3] == y[3]
            && x[4] == y[4]
            && x[5] == y[5]
            && x[6] == y[6]
            && x[7] == y[7]
            && x[8] == y[8]
            && x[9] == y[9]
            && x[10] == y[10]
            && x[11] == y[11]
            && x[12] == y[12]
            && x[13] == y[13]);
        assert(a.entity_id_bytes@ == b.entity_id_bytes@);
        assert(a.agent_id_bytes@ == b.agent_id_bytes@);
        assert(cell_fits(x[6]));
        lemma_rows_injective::<String>(a.aliases, b.aliases);
        lemma_opt_blob_injective(a.merged_into_bytes, b.merged_into_bytes);
    }

    fn to_cells(&self) -> (r: Vec<Cell<Vec<u8>>>) {
        let cells: Vec<Cell<Vec<u8>>> = vec![
            blob_cell(self.entity_id_bytes.as_slice()),
            int_cell(self.namespace_id as u64),
            blob_cell(self.agent_id_bytes.as_slice()),
            int_cell(self.entity_type_id as u64),
            text_cell(&self.canonical_name),
            text_cell(&self.normalized_name),
            rows_cell(&self.aliases),
            blob_cell(self.attributes_blob.as_slice()),
            int_cell(self.mention_count as u64),
            int_cell(self.created_at_unix_nanos),
            int_cell(self.updated_at_unix_nanos),
            opt_blob_cell(&self.merged_into_bytes),
            int_cell(self.embedding_version as u64),
            int_cell(self.flags as u64),
        ];
        proof {
            assert(cell_models(cells@) =~= Self::cells(self.model()));
        }
        cells
    }

    fn from_cells(cells: &Vec<Cell<Vec<u8>>>) -> (r: Option<Self>) {
        if cells.len() != 14 {
            proof {
                assert forall|m: EntityMetadata<Seq<char>, Seq<u8>, Seq<Seq<char>>>| #[trigger] Self::cells(m) != cell_models(cells@) by {
                    assert(Self::cells(m).len() == 14);
                }
            }
            return None;
        }
        let entity_id_bytes = match array_at::<16>(cells, 0) {
            Some(x) => x,
            None => return None,
        };
        let namespace_id = match u32_at(cells, 1) {
            Some(x) => x,
            None => return None,
        };
        let agent_id_bytes = match array_at::<16>(cells, 2) {
            Some(x) => x,
            None => return None,
        };
        let entity_type_id = match u32_at(cells, 3) {
            Some(x) => x,
            None => return None,
        };
        let canonical_name = match text_at(cells, 4) {
            Some(x) => x,
            None => return None,
        };
        let normalized_name = match text_at(cells, 5) {
            Some(x) => x,
            None => return None,
        };
        let aliases = match rows_at::<String>(cells, 6) {
            Some(x) => x,
            None => return None,
        };
        let attributes_blob = match bytes_at(cells, 7) {
            Some(x) => x,
            None => return None,
        };
        let mention_count = match u32_at(cells, 8) {
            Some(x) => x,
            None => return None,
        };
        let created_at_unix_nanos = match int_at(cells, 9) {
            Some(x) => x,
            None => return None,
        };
        let updated_at_unix_nanos = match int_at(cells, 10) {
            Some(x) => x,
            None => return None,
        };
        let merged_into_bytes = match opt_array_at::<16>(cells, 11) {
            Some(x) => x,
            None => return None,
        };
        let embedding_version = match u32_at(cells, 12) {
            Some(x) => x,
            None => return None,
        };
        let flags = match u32_at(cells, 13) {
            Some(x) => x,
            None => return None,
        };
        let row = EntityMetadata {
            entity_id_bytes,
            namespace_id,
            agent_id_bytes,
            entity_type_id,
            canonical_name,
            normalized_name,
            aliases,
            attributes_blob,
            mention_count,
            created_at_unix_nanos,
            updated_at_unix_nanos,
            merged_into_bytes,
            embedding_version,
            flags,
        };
        proof {
            assert(Self::cells(row.model()) =~= cell_models(cells@));
        }
        Some(row)
    }
}

/// A row as it is spoken of.
pub type EntityRowModel = EntityMetadata<Seq<char>, Seq<u8>, Seq<Seq<char>>>;

/// The row of an entity.
pub open spec fn entity_row(e: EntityModel, scope: RowScope) -> EntityRowModel {
    EntityMetadata {
        entity_id_bytes: e.id.0,
        namespace_id: scope.namespace_id,
        agent_id_bytes: scope.agent_id_bytes,
        entity_type_id: e.entity_type.0,
        canonical_name: e.canonical_name,
        normalized_name: e.normalized_name,
        aliases: e.aliases,
        attributes_blob: e.attributes.0,
        mention_count: e.mention_count,
        created_at_unix_nanos: e.created_at_unix_nanos,
        updated_at_unix_nanos: e.updated_at_unix_nanos,
        merged_into_bytes: match e.merged_into {
            Some(x) => Some(x.0),
            None => None,
        },
        embedding_version: e.embedding_version,
        flags: e.flags,
    }
}

/// The entity of a row.
pub open spec fn row_entity(m: EntityRowModel) -> EntityModel {
    Entity {
        id: EntityId(m.entity_id_bytes),
        entity_type: EntityTypeId(m.entity_type_id),
        canonical_name: m.canonical_name,
        normalized_name: m.normalized_name,
        aliases: m.aliases,
        attributes: EntityAttributes(m.attributes_blob),
        mention_count: m.mention_count,
        created_at_unix_nanos: m.created_at_unix_nanos,
        updated_at_unix_nanos: m.updated_at_unix_nanos,
        merged_into: match m.merged_into_bytes {
            Some(b) => Some(EntityId(b)),
            None => None,
        },
        embedding_version: m.embedding_version,
        flags: m.flags,
    }
}

/// An entity is read back from its row as it was.
pub proof fn lemma_entity_round_trip(e: EntityModel, scope: RowScope)
    ensures
        row_entity(entity_row(e, scope)) == e,
{
}

impl EntityMetadata {
    /// The row of an entity that was just seen for the first time.
    #[must_use]
    pub fn new_active(
        entity_id: EntityId,
        scope: RowScope,
        entity_type_id: EntityTypeId,
        canonical_name: String,
        normalized_name: String,
        created_at_unix_nanos: u64,
    ) -> (r: Self)
        ensures
            r.model() == (EntityRowModel {
                entity_id_bytes: entity_id.0,
                namespace_id: scope.namespace_id,
                agent_id_bytes: scope.agent_id_bytes,
                entity_type_id: entity_type_id.0,
                canonical_name: canonical_name@,
                normalized_name: normalized_name@,
                aliases: Seq::empty(),
                attributes_blob: Seq::empty(),
                mention_count: 0,
                created_at_unix_nanos,
                updated_at_unix_nanos: created_at_unix_nanos,
                merged_into_bytes: None,
                embedding_version: 0,
                flags: 0,
            }),
    {
        let r = EntityMetadata {
            entity_id_bytes: entity_id.0,
            namespace_id: scope.namespace_id,
            agent_id_bytes: scope.agent_id_bytes,
            entity_type_id: entity_type_id.0,
            canonical_name,
            normalized_name,
            aliases: Vec::new(),
            attributes_blob: Vec::new(),
            mention_count: 0,
            created_at_unix_nanos,
            updated_at_unix_nanos: created_at_unix_nanos,
            merged_into_bytes: None,
            embedding_version: 0,
            flags: 0,
        };
        proof {
            assert(row_models(r.aliases@) =~= Seq::<Seq<char>>::empty());
            assert(r.attributes_blob@ =~= Seq::<u8>::empty());
        }
        r
    }

    /// The row of an entity of an owner.
    #[must_use]
    pub fn from_entity(e: &Entity, scope: RowScope) -> (r: Self)
        ensures
            r.model() == entity_row(e.model(), scope),
    {
        EntityMetadata {
            entity_id_bytes: e.id.0,
            namespace_id: scope.namespace_id,
            agent_id_bytes: scope.agent_id_bytes,
            entity_type_id: e.entity_type.0,
            canonical_name: copy_text(&e.canonical_name),
            normalized_name: copy_text(&e.normalized_name),
            aliases: copy_texts(&e.aliases),
            attributes_blob: copy_bytes(&e.attributes.0),
            mention_count: e.mention_count,
            created_at_unix_nanos: e.created_at_unix_nanos,
            updated_at_unix_nanos: e.updated_at_unix_nanos,
            merged_into_bytes: match e.merged_into {
                Some(x) => Some(x.0),
                None => None,
            },
            embedding_version: e.embedding_version,
            flags: e.flags,
        }
    }

    /// The entity of the row, without its owner.
    #[must_use]
    pub fn to_entity(&self) -> (r: Entity)
        ensures
            r.model() == row_entity(self.model()),
    {
        Entity {
            id: self.entity_id(),
            entity_type: self.entity_type(),
            canonical_name: copy_text(&self.canonical_name),
            normalized_name: copy_text(&self.normalized_name),
            aliases: copy_texts(&self.aliases),
            attributes: EntityAttributes(copy_bytes(&self.attributes_blob)),
            mention_count: self.mention_count,
            created_at_unix_nanos: self.created_at_unix_nanos,
            updated_at_unix_nanos: self.updated_at_unix_nanos,
            merged_into: self.merged_into(),
            embedding_version: self.embedding_version,
            flags: self.flags,
        }
    }

    #[must_use]
    pub fn entity_id(&self) -> (r: EntityId)
        ensures
            r == EntityId(self.entity_id_bytes),
    {
        EntityId(self.entity_id_bytes)
    }

    #[must_use]
    pub fn namespace(&self) -> (r: NamespaceId)
        ensures
            r == NamespaceId(self.namespace_id),
    {
        NamespaceId(self.namespace_id)
    }

    #[must_use]
    pub fn agent_id(&self) -> (r: AgentId)
        ensures
            r == AgentId(self.agent_id_bytes),
    {
        AgentId(self.agent_id_bytes)
    }

    /// The owner of the entity.
    #[must_use]
    pub fn scope(&self) -> (r: RowScope)
        ensures
            r == (RowScope { namespace_id: self.namespace_id, agent_id_bytes: self.agent_id_bytes }),
    {
        RowScope::from_bytes(self.namespace_id, self.agent_id_bytes)
    }

    #[must_use]
    pub fn entity_type(&self) -> (r: EntityTypeId)
        ensures
            r == EntityTypeId(self.entity_type_id),
    {
        EntityTypeId(self.entity_type_id)
    }

    #[must_use]
    pub fn merged_into(&self) -> (r: Option<EntityId>)
        ensures
            r == match self.merged_into_bytes {
                Some(b) => Some(EntityId(b)),
                None => None,
            },
    {
        match self.merged_into_bytes {
            Some(b) => Some(EntityId(b)),
            None => None,
        }
    }

    /// Adds an alias, as it is and whether or not it is there already.
    pub fn add_alias(&mut self, alias: String)
        ensures
            final(self).model() == (EntityRowModel {
                aliases: old(self).model().aliases.push(alias@),
                ..old(self).model()
            }),
    {
        self.aliases.push(alias);
        proof {
            assert(row_models(self.aliases@) =~= row_models(old(self).aliases@).push(alias@));
        }
    }
}

/// A row of the `entity_mentions` table: how a memory mentions an entity.
#[derive(Clone, Copy, Debug, PartialEq)]
pub struct MentionMetadata {
    pub mentioned_at_unix_nanos: u64,
    /// See [`mention_context`].
    pub mention_context: u8,
    pub confidence: F32,
    /// Where the mention begins in the text; 0 if not known.
    pub text_offset: u32,
    /// How long the mention is; 0 if not known.
    pub text_length: u32,
}

impl Row for MentionMetadata {
    type M = MentionMetadata;

    open spec fn model(&self) -> MentionMetadata {
        *self
    }

    open spec fn cells(m: MentionMetadata) -> Seq<CellModel> {
        seq![
            Cell::Int(m.mentioned_at_unix_nanos),
            Cell::Int(m.mention_context as u64),
            Cell::Int(m.confidence.bits as u64),
            Cell::Int(m.text_offset as u64),
            Cell::Int(m.text_length as u64),
        ]
    }

    proof fn cells_injective(a: MentionMetadata, b: MentionMetadata) {
        broadcast use group_row_fields;

        let x = Self::cells(a);
        let y = Self::cells(b);
        assert(x[0] == y[0]
            && x[1] == y[1]
            && x[2] == y[2]
            && x[3] == y[3]
            && x[4] == y[4]);
    }

    fn to_cells(&self) -> (r: Vec<Cell<Vec<u8>>>) {
        let cells: Vec<Cell<Vec<u8>>> = vec![
            int_cell(self.mentioned_at_unix_nanos),
            int_cell(self.mention_context as u64),
            int_cell(self.confidence.bits as u64),
            int_cell(self.text_offset as u64),
            int_cell(self.text_length as u64),
        ];
        proof {
            assert(cell_models(cells@) =~= Self::cells(self.model()));
        }
        cells
    }

    fn from_cells(cells: &Vec<Cell<Vec<u8>>>) -> (r: Option<Self>) {
        if cells.len() != 5 {
            proof {
                assert forall|m: MentionMetadata| #[trigger] Self::cells(m) != cell_models(cells@) by {
                    assert(Self::cells(m).len() == 5);
                }
            }
            return None;
        }
        let mentioned_at_unix_nanos = match int_at(cells, 0) {
            Some(x) => x,
            None => return None,
        };
        let mention_context = match u8_at(cells, 1) {
            Some(x) => x,
            None => return None,
        };
        let confidence = match u32_at(cells, 2) {
            Some(x) => F32 { bits: x },
            None => return None,
        };
        let text_offset = match u32_at(cells, 3) {
            Some(x) => x,
            None => return None,
        };
        let text_length = match u32_at(cells, 4) {
            Some(x) => x,
            None => return None,
        };
        let row = MentionMetadata {
            mentioned_at_unix_nanos,
            mention_context,
            confidence,
            text_offset,
            text_length,
        };
        proof {
            assert(Self::cells(row.model()) =~= cell_models(cells@));
        }
        Some(row)
    }
}

impl MentionMetadata {
    /// A mention whose place in the text is not known.
    #[must_use]
    pub fn new(mentioned_at_unix_nanos: u64, context: u8, confidence: F32) -> (r: Self)
        ensures
            r == (MentionMetadata {
                mentioned_at_unix_nanos,
                mention_context: context,
                confidence,
                text_offset: 0,
                text_length: 0,
            }),
    {
        MentionMetadata {
            mentioned_at_unix_nanos,
            mention_context: context,
            confidence,
            text_offset: 0,
            text_length: 0,
        }
    }
}

// Keys of the indexes. Each begins with the owner, so that one owner's rows are
// never among another's.

/// The key of a name: owner, type, name.
pub open spec fn canonical_name_key(scope: RowScope, entity_type: u32, name: Seq<char>) -> Seq<u8> {
    scope_key(scope) + be(entity_type as nat, 4) + encode_utf8(name)
}

/// The key of an alias: owner, type, the alias with its length, entity.
pub open spec fn alias_key(scope: RowScope, entity_type: u32, alias: Seq<char>, entity: EntityId) -> Seq<u8> {
    scope_key(scope) + be(entity_type as nat, 4) + be(encode_utf8(alias).len(), 8) + encode_utf8(alias) + entity.0@
}

/// The key of a trigram: owner, type, trigram, entity.
pub open spec fn trigram_key(scope: RowScope, entity_type: u32, trigram: [u8; 3], entity: EntityId) -> Seq<u8> {
    scope_key(scope) + be(entity_type as nat, 4) + trigram@ + entity.0@
}

/// The key of a mention: owner, entity, memory.
pub open spec fn mention_key(scope: RowScope, entity: EntityId, memory: MemoryId) -> Seq<u8> {
    scope_key(scope) + entity.0@ + memory.0@
}

pub fn make_canonical_name_key(scope: &RowScope, entity_type: u32, name: &str) -> (r: Vec<u8>)
    ensures
        r@ == canonical_name_key(*scope, entity_type, name@),
{
    let mut k = put_scope(scope);
    put_be(&mut k, entity_type as u64, 4);
    put_bytes(&mut k, name.as_bytes());
    k
}

pub fn make_alias_key(scope: &RowScope, entity_type: u32, alias: &str, entity: EntityId) -> (r: Vec<u8>)
    ensures
        r@ == alias_key(*scope, entity_type, alias@, entity),
{
    let b = alias.as_bytes();
    let mut k = put_scope(scope);
    put_be(&mut k, entity_type as u64, 4);
    put_be(&mut k, b.len() as u64, 8);
    put_bytes(&mut k, b);
    put_bytes(&mut k, entity.0.as_slice());
    k
}

pub fn make_trigram_key(scope: &RowScope, entity_type: u32, trigram: [u8; 3], entity: EntityId) -> (r: Vec<u8>)
    ensures
        r@ == trigram_key(*scope, entity_type, trigram, entity),
{
    let mut k = put_scope(scope);
    put_be(&mut k, entity_type as u64, 4);
    put_bytes(&mut k, trigram.as_slice());
    put_bytes(&mut k, entity.0.as_slice());
    k
}

pub fn make_mention_key(scope: &RowScope, entity: EntityId, memory: MemoryId) -> (r: Vec<u8>)
    ensures
        r@ == mention_key(*scope, entity, memory),
{
    let mut k = put_scope(scope);
    put_bytes(&mut k, entity.0.as_slice());
    put_bytes(&mut k, memory.0.as_slice());
    k
}

/// The row of an entity says what the entity says, in its scope.
pub proof fn lemma_entity_row(e: EntityModel, scope: RowScope)
    ensures
        ({
            let m = entity_row(e, scope);
            &&& m.entity_id_bytes == e.id.0
            &&& m.namespace_id == scope.namespace_id && m.agent_id_bytes == scope.agent_id_bytes
            &&& m.entity_type_id == e.entity_type.0
            &&& m.canonical_name == e.canonical_name
            &&& m.normalized_name == e.normalized_name
            &&& m.aliases == e.aliases
            &&& m.attributes_blob == e.attributes.0
            &&& m.mention_count == e.mention_count
            &&& m.created_at_unix_nanos == e.created_at_unix_nanos
            &&& m.updated_at_unix_nanos == e.updated_at_unix_nanos
            &&& m.merged_into_bytes is None <==> e.merged_into is None
            &&& e.merged_into is Some ==> m.merged_into_bytes == Some(e.merged_into->Some_0.0)
            &&& m.embedding_version == e.embedding_version
            &&& m.flags == e.flags
        }),
{
}

} // verus!
