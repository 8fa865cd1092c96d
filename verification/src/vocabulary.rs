//! Entity types, predicates, relation types and extractors: how each is defined
//! and found.

use redb::{ReadTransaction, WriteTransaction};
use vstd::prelude::*;

use crate::bytes::bytes_eq;
use crate::catalog::Table;
use crate::definitions::{
    all_rows, find_named, find_next_number, intern, intern_scanned, interned, list_rows, list_rows_in,
    make_number_key, named, next_number, number_key, text_eq, Definition, DefinitionError, Refusal,
};
use crate::row::{image, row_models, save, Row};
use crate::store::{opened, rdb, scanned, tables_kept, wdb, Db};
use crate::tables::entity_type::{EntityTypeDefinition, EntityTypeModel};
use crate::tables::extractor::{make_qualified, qualified, ExtractorDefinition, ExtractorKind, ExtractorModel};
use crate::tables::predicate::{predicate_row, Predicate, PredicateDefinition, PredicateRowModel, SchemaOrigin};
use crate::tables::relation_type::{
    relation_type_row, Cardinality, RelationType, RelationTypeDefinition, RelationTypeModel, RelationTypeOrigin,
};
use crate::types::{EntityTypeId, ExtractorId, PredicateId, RelationTypeId, StatementKind};

pub mod laws;

verus! {

pub type EntityTypeOpError = DefinitionError;

pub type PredicateOpError = DefinitionError;

pub type RelationTypeOpError = DefinitionError;

pub type ExtractorOpError = DefinitionError;

// Entity types.

/// The first of the entity types with a name.
pub open spec fn type_named(all: Seq<EntityTypeModel>, name: Seq<char>) -> Option<EntityTypeModel>
    decreases all.len(),
{
    if all.len() == 0 {
        None
    } else {
        match type_named(all.drop_last(), name) {
            Some(m) => Some(m),
            None => if all.last().name == name {
                Some(all.last())
            } else {
                None
            },
        }
    }
}

/// The entity type with a name.
pub open spec fn entity_type_of(db: Db, name: Seq<char>) -> Result<Option<EntityTypeModel>, Refusal> {
    match all_rows::<EntityTypeDefinition>(db, Table::EntityTypes) {
        Err(e) => Err(e),
        Ok(all) => Ok(type_named(all, name)),
    }
}

proof fn lemma_type_named_first(all: Seq<EntityTypeModel>, name: Seq<char>, n: int)
    requires
        0 <= n <= all.len(),
        type_named(all.take(n), name) is Some,
    ensures
        type_named(all, name) == type_named(all.take(n), name),
    decreases all.len() - n,
{
    if n == all.len() {
        assert(all.take(n) =~= all);
    } else {
        assert(all.take(n + 1).drop_last() =~= all.take(n));
        lemma_type_named_first(all, name, n + 1);
    }
}

fn position_of_type(all: &Vec<EntityTypeDefinition>, name: &str) -> (r: Option<usize>)
    ensures
        match r {
            Some(i) => i < all@.len() && type_named(row_models(all@), name@) == Some(all@[i as int].model()),
            None => type_named(row_models(all@), name@) is None,
        },
{
    let ghost models = row_models(all@);
    let mut i: usize = 0;
    proof {
        assert(models.take(0) =~= Seq::<EntityTypeModel>::empty());
    }
    while i < all.len()
        invariant
            i <= all.len(),
            models == row_models(all@),
            type_named(models.take(i as int), name@) is None,
        decreases all.len() - i,
    {
        proof {
            assert(models.take(i + 1).drop_last() =~= models.take(i as int));
        }
        if text_eq(all[i].name.as_str(), name) {
            proof {
                lemma_type_named_first(models, name@, i + 1);
            }
            return Some(i);
        }
        i = i + 1;
    }
    proof {
        assert(models.take(i as int) =~= models);
    }
    None
}

/// Finds an entity type by its name.
pub fn entity_type_lookup_by_name(wtxn: &mut WriteTransaction, name: &str) -> (r: Result<
    Option<EntityTypeDefinition>,
    EntityTypeOpError,
>)
    ensures
        r is Ok ==> scanned(wdb(*old(wtxn)), Table::EntityTypes, Seq::empty()),
        tables_kept(*old(wtxn), *final(wtxn)),
        wdb(*final(wtxn)) == wdb(*old(wtxn)),
        match r {
            Ok(None) => entity_type_of(wdb(*old(wtxn)), name@) == Ok::<_, Refusal>(None::<EntityTypeModel>),
            Ok(Some(d)) => entity_type_of(wdb(*old(wtxn)), name@) == Ok::<_, Refusal>(Some(d.model())),
            Err(e) => e is Storage || (entity_type_of(wdb(*old(wtxn)), name@) matches Err(f) && e.says(f)),
        },
{
    let mut all: Vec<EntityTypeDefinition> = list_rows_in(wtxn, Table::EntityTypes)?;
    match position_of_type(&all, name) {
        None => Ok(None),
        Some(i) => Ok(Some(all.swap_remove(i))),
    }
}

/// The entity type that was not there yet.
pub open spec fn new_entity_type(id: u32, name: Seq<char>, blob: Seq<u8>, now: u64) -> EntityTypeModel {
    EntityTypeDefinition { entity_type_id: id, name, schema_blob: blob, created_at_unix_nanos: now }
}

/// What defining an entity type comes to.
pub open spec fn entity_type_interned(db: Db, name: Seq<char>, blob: Seq<u8>, now: u64) -> Result<(Db, u32), Refusal> {
    match entity_type_of(db, name) {
        Err(e) => Err(e),
        Ok(Some(m)) => if m.schema_blob == blob {
            Ok((db, m.entity_type_id))
        } else {
            Err(Refusal::AlreadyExists { qname: name, existing: m.entity_type_id })
        },
        Ok(None) => match next_number(db, Table::EntityTypes) {
            Err(e) => Err(e),
            Ok(id) => Ok(
                (
                    db.insert(
                        (Table::EntityTypes, number_key(id)),
                        image::<EntityTypeDefinition>(new_entity_type(id, name, blob, now)),
                    ),
                    id,
                ),
            ),
        },
    }
}

/// What defining an entity type comes to is a matter of the rows alone.
pub proof fn lemma_entity_type_by_rows(a: Db, b: Db, name: Seq<char>, blob: Seq<u8>, now: u64)
    requires
        a.rows == b.rows,
    ensures
        entity_type_of(a, name) == entity_type_of(b, name),
        match (entity_type_interned(a, name, blob, now), entity_type_interned(b, name, blob, now)) {
            (Ok(x), Ok(y)) => x.0.rows == y.0.rows && x.1 == y.1,
            (Err(e), Err(f)) => e == f,
            _ => false,
        },
{
}

/// Defines an entity type, and gives its number. One that is there already
/// stays.
pub fn entity_type_intern(wtxn: &mut WriteTransaction, name: &str, schema_blob: Vec<u8>, now_unix_nanos: u64) -> (r:
    Result<EntityTypeId, EntityTypeOpError>)
    ensures
        r is Ok ==> scanned(wdb(*old(wtxn)), Table::EntityTypes, Seq::empty()),
        tables_kept(*old(wtxn), *final(wtxn)),
        match r {
            Ok(id) => entity_type_interned(wdb(*old(wtxn)), name@, schema_blob@, now_unix_nanos) == Ok::<_, Refusal>(
                (wdb(*final(wtxn)), id.0),
            ),
            Err(e) => e is Storage || (entity_type_interned(
                wdb(*old(wtxn)),
                name@,
                schema_blob@,
                now_unix_nanos,
            ) matches Err(f) && e.says(f)),
        },
{
    match entity_type_lookup_by_name(wtxn, name)? {
        Some(d) => {
            if bytes_eq(d.schema_blob.as_slice(), schema_blob.as_slice()) {
                Ok(EntityTypeId(d.entity_type_id))
            } else {
                Err(DefinitionError::AlreadyExists { qname: name.to_owned(), existing: d.entity_type_id })
            }
        },
        None => {
            let id: u32 = find_next_number(wtxn, Table::EntityTypes)?;
            let d = EntityTypeDefinition::new(EntityTypeId(id), name.to_owned(), schema_blob, now_unix_nanos);
            let key = make_number_key(id);
            match save(wtxn, Table::EntityTypes, key.as_slice(), &d) {
                Ok(()) => Ok(EntityTypeId(id)),
                Err(e) => Err(DefinitionError::Storage(e)),
            }
        },
    }
}

/// The entity types, by number.
pub fn entity_type_list(rtxn: &ReadTransaction) -> (r: Result<Vec<EntityTypeDefinition>, EntityTypeOpError>)
    ensures
        r is Ok ==> opened(*rtxn, Table::EntityTypes),
        r is Ok ==> scanned(rdb(*rtxn), Table::EntityTypes, Seq::empty()),
        match r {
            Ok(v) => all_rows::<EntityTypeDefinition>(rdb(*rtxn), Table::EntityTypes) == Ok::<_, Refusal>(
                row_models(v@),
            ),
            Err(e) => e is Storage || (all_rows::<EntityTypeDefinition>(rdb(*rtxn), Table::EntityTypes) matches Err(f)
                && e.says(f)),
        },
{
    list_rows(rtxn, Table::EntityTypes)
}

// Predicates.

impl Definition for PredicateDefinition {
    open spec fn primary() -> Table {
        Table::Predicates
    }

    open spec fn index() -> Table {
        Table::PredicatesByQname
    }

    open spec fn full_name(m: PredicateRowModel) -> Seq<char> {
        qualified(m.namespace, m.name)
    }

    open spec fn version(m: PredicateRowModel) -> u32 {
        m.schema_version
    }

    open spec fn agree(a: PredicateRowModel, b: PredicateRowModel) -> bool {
        a.kind_constraint == b.kind_constraint && a.object_type_constraint_byte == b.object_type_constraint_byte
            && a.description == b.description && a.is_stateful == b.is_stateful
    }

    open spec fn numbered(m: PredicateRowModel, id: u32) -> PredicateRowModel {
        PredicateDefinition { predicate_id: id, ..m }
    }

    proof fn definition_facts(m: PredicateRowModel, id: u32) {
    }

    fn primary_table() -> (r: Table) {
        Table::Predicates
    }

    fn index_table() -> (r: Table) {
        Table::PredicatesByQname
    }

    fn make_full_name(&self) -> (r: String) {
        make_qualified(&self.namespace, &self.name)
    }

    fn schema_version_of(&self) -> (r: u32) {
        self.schema_version
    }

    fn agrees_with(&self, other: &Self) -> (r: bool) {
        self.kind_constraint == other.kind_constraint && self.object_type_constraint_byte
            == other.object_type_constraint_byte && text_eq(self.description.as_str(), other.description.as_str())
            && self.is_stateful == other.is_stateful
    }

    fn with_number(self, id: u32) -> (r: Self) {
        let mut d = self;
        d.predicate_id = id;
        d
    }
}

/// The row of a predicate that a schema declares, but for its number.
pub open spec fn declared_predicate(
    namespace: Seq<char>,
    name: Seq<char>,
    kind: Option<StatementKind>,
    object_byte: u8,
    version: u32,
    description: Seq<char>,
    is_stateful: bool,
    now: u64,
) -> PredicateRowModel {
    predicate_row(
        Predicate {
            id: PredicateId(0),
            namespace,
            name,
            kind_constraint: kind,
            object_type_constraint_byte: object_byte,
            schema_version: version,
            description,
            is_stateful,
        },
        now,
        SchemaOrigin::SchemaDeclared { version },
    )
}

/// Defines a predicate, and gives its number. Of a stateful one a subject has one
/// value at a time.
pub fn predicate_intern(
    wtxn: &mut WriteTransaction,
    namespace: &str,
    name: &str,
    kind_constraint: Option<StatementKind>,
    object_type_constraint_byte: u8,
    schema_version: u32,
    description: &str,
    is_stateful: bool,
    now_unix_nanos: u64,
) -> (r: Result<PredicateId, PredicateOpError>)
    ensures
        r is Ok ==> intern_scanned::<PredicateDefinition>(wdb(*old(wtxn)), qualified(namespace@, name@)),
        tables_kept(*old(wtxn), *final(wtxn)),
        ({
            let m = declared_predicate(
                namespace@,
                name@,
                kind_constraint,
                object_type_constraint_byte,
                schema_version,
                description@,
                is_stateful,
                now_unix_nanos,
            );
            match r {
                Ok(id) => interned::<PredicateDefinition>(wdb(*old(wtxn)), m) == Ok::<_, Refusal>(
                    (wdb(*final(wtxn)), id.0),
                ),
                Err(e) => e is Storage || (interned::<PredicateDefinition>(wdb(*old(wtxn)), m) matches Err(f)
                    && e.says(f)),
            }
        }),
{
    let p = Predicate {
        id: PredicateId(0),
        namespace: namespace.to_owned(),
        name: name.to_owned(),
        kind_constraint,
        object_type_constraint_byte,
        schema_version,
        description: description.to_owned(),
        is_stateful,
    };
    let d = PredicateDefinition::from_predicate(&p, now_unix_nanos);
    let id: u32 = intern(wtxn, d)?;
    Ok(PredicateId(id))
}

/// Finds a predicate by its namespace and name.
pub fn predicate_lookup_by_qname(rtxn: &ReadTransaction, namespace: &str, name: &str) -> (r: Result<
    Option<PredicateDefinition>,
    PredicateOpError,
>)
    ensures
        r is Ok ==> opened(*rtxn, Table::PredicatesByQname),
        match r {
            Ok(None) => named::<PredicateDefinition>(rdb(*rtxn), qualified(namespace@, name@)) == Ok::<_, Refusal>(
                None::<PredicateRowModel>,
            ),
            Ok(Some(d)) => named::<PredicateDefinition>(rdb(*rtxn), qualified(namespace@, name@)) == Ok::<_, Refusal>(
                Some(d.model()),
            ),
            Err(e) => e is Storage || (named::<PredicateDefinition>(
                rdb(*rtxn),
                qualified(namespace@, name@),
            ) matches Err(f) && e.says(f)),
        },
{
    let qname = make_qualified(&namespace.to_owned(), &name.to_owned());
    find_named(rtxn, qname.as_str())
}

// Relation types.

impl Definition for RelationTypeDefinition {
    open spec fn primary() -> Table {
        Table::RelationTypes
    }

    open spec fn index() -> Table {
        Table::RelationTypesByQname
    }

    open spec fn full_name(m: RelationTypeModel) -> Seq<char> {
        qualified(m.namespace, m.name)
    }

    open spec fn version(m: RelationTypeModel) -> u32 {
        m.schema_version
    }

    open spec fn agree(a: RelationTypeModel, b: RelationTypeModel) -> bool {
        a.cardinality == b.cardinality && a.is_symmetric == b.is_symmetric && a.from_entity_type_id
            == b.from_entity_type_id && a.to_entity_type_id == b.to_entity_type_id && a.description == b.description
    }

    open spec fn numbered(m: RelationTypeModel, id: u32) -> RelationTypeModel {
        RelationTypeDefinition { relation_type_id: id, ..m }
    }

    proof fn definition_facts(m: RelationTypeModel, id: u32) {
    }

    fn primary_table() -> (r: Table) {
        Table::RelationTypes
    }

    fn index_table() -> (r: Table) {
        Table::RelationTypesByQname
    }

    fn make_full_name(&self) -> (r: String) {
        make_qualified(&self.namespace, &self.name)
    }

    fn schema_version_of(&self) -> (r: u32) {
        self.schema_version
    }

    fn agrees_with(&self, other: &Self) -> (r: bool) {
        self.cardinality == other.cardinality && self.is_symmetric == other.is_symmetric && self.from_entity_type_id
            == other.from_entity_type_id && self.to_entity_type_id == other.to_entity_type_id && text_eq(
            self.description.as_str(),
            other.description.as_str(),
        )
    }

    fn with_number(self, id: u32) -> (r: Self) {
        let mut d = self;
        d.relation_type_id = id;
        d
    }
}

/// The row of a relation type that a schema declares, but for its number.
pub open spec fn declared_relation_type(
    namespace: Seq<char>,
    name: Seq<char>,
    from_type: Option<EntityTypeId>,
    to_type: Option<EntityTypeId>,
    cardinality: Cardinality,
    is_symmetric: bool,
    version: u32,
    description: Seq<char>,
    now: u64,
) -> RelationTypeModel {
    relation_type_row(
        RelationType {
            id: RelationTypeId(0),
            namespace,
            name,
            cardinality,
            is_symmetric,
            from_type,
            to_type,
            schema_version: version,
            description,
        },
        now,
        RelationTypeOrigin::SchemaDeclared { version },
    )
}

/// Defines a relation type, and gives its number.
pub fn relation_type_intern(
    wtxn: &mut WriteTransaction,
    namespace: &str,
    name: &str,
    from_type: Option<EntityTypeId>,
    to_type: Option<EntityTypeId>,
    cardinality: Cardinality,
    is_symmetric: bool,
    schema_version: u32,
    description: &str,
    now_unix_nanos: u64,
) -> (r: Result<RelationTypeId, RelationTypeOpError>)
    ensures
        r is Ok ==> intern_scanned::<RelationTypeDefinition>(wdb(*old(wtxn)), qualified(namespace@, name@)),
        tables_kept(*old(wtxn), *final(wtxn)),
        ({
            let m = declared_relation_type(
                namespace@,
                name@,
                from_type,
                to_type,
                cardinality,
                is_symmetric,
                schema_version,
                description@,
                now_unix_nanos,
            );
            match r {
                Ok(id) => interned::<RelationTypeDefinition>(wdb(*old(wtxn)), m) == Ok::<_, Refusal>(
                    (wdb(*final(wtxn)), id.0),
                ),
                Err(e) => e is Storage || (interned::<RelationTypeDefinition>(wdb(*old(wtxn)), m) matches Err(f)
                    && e.says(f)),
            }
        }),
{
    let t = RelationType {
        id: RelationTypeId(0),
        namespace: namespace.to_owned(),
        name: name.to_owned(),
        cardinality,
        is_symmetric,
        from_type,
        to_type,
        schema_version,
        description: description.to_owned(),
    };
    let d = RelationTypeDefinition::from_relation_type(&t, now_unix_nanos);
    let id: u32 = intern(wtxn, d)?;
    Ok(RelationTypeId(id))
}

// Extractors.

impl Definition for ExtractorDefinition {
    open spec fn primary() -> Table {
        Table::Extractors
    }

    open spec fn index() -> Table {
        Table::ExtractorsByQname
    }

    open spec fn full_name(m: ExtractorModel) -> Seq<char> {
        qualified(m.namespace, m.name)
    }

    open spec fn version(m: ExtractorModel) -> u32 {
        m.schema_version
    }

    open spec fn agree(a: ExtractorModel, b: ExtractorModel) -> bool {
        a.kind == b.kind && a.enabled == b.enabled && a.definition_blob == b.definition_blob
    }

    open spec fn numbered(m: ExtractorModel, id: u32) -> ExtractorModel {
        ExtractorDefinition { extractor_id: id, ..m }
    }

    proof fn definition_facts(m: ExtractorModel, id: u32) {
    }

    fn primary_table() -> (r: Table) {
        Table::Extractors
    }

    fn index_table() -> (r: Table) {
        Table::ExtractorsByQname
    }

    fn make_full_name(&self) -> (r: String) {
        self.qname()
    }

    fn schema_version_of(&self) -> (r: u32) {
        self.schema_version
    }

    fn agrees_with(&self, other: &Self) -> (r: bool) {
        self.kind == other.kind && self.enabled == other.enabled && bytes_eq(
            self.definition_blob.as_slice(),
            other.definition_blob.as_slice(),
        )
    }

    fn with_number(self, id: u32) -> (r: Self) {
        let mut d = self;
        d.extractor_id = id;
        d
    }
}

/// The row of an extractor that a schema declares, but for its number.
pub open spec fn declared_extractor(
    namespace: Seq<char>,
    name: Seq<char>,
    kind: ExtractorKind,
    enabled: bool,
    version: u32,
    definition: Seq<u8>,
    now: u64,
) -> ExtractorModel {
    ExtractorDefinition {
        extractor_id: 0,
        namespace,
        name,
        kind: kind.byte(),
        enabled: if enabled {
            1
        } else {
            0
        },
        schema_version: version,
        definition_blob: definition,
        created_at_unix_nanos: now,
    }
}

/// Defines an extractor, and gives its number.
pub fn extractor_intern(
    wtxn: &mut WriteTransaction,
    namespace: &str,
    name: &str,
    kind: ExtractorKind,
    enabled: bool,
    schema_version: u32,
    definition_blob: Vec<u8>,
    now_unix_nanos: u64,
) -> (r: Result<ExtractorId, ExtractorOpError>)
    ensures
        r is Ok ==> intern_scanned::<ExtractorDefinition>(wdb(*old(wtxn)), qualified(namespace@, name@)),
        tables_kept(*old(wtxn), *final(wtxn)),
        ({
            let m = declared_extractor(
                namespace@,
                name@,
                kind,
                enabled,
                schema_version,
                definition_blob@,
                now_unix_nanos,
            );
            match r {
                Ok(id) => interned::<ExtractorDefinition>(wdb(*old(wtxn)), m) == Ok::<_, Refusal>(
                    (wdb(*final(wtxn)), id.0),
                ),
                Err(e) => e is Storage || (interned::<ExtractorDefinition>(wdb(*old(wtxn)), m) matches Err(f)
                    && e.says(f)),
            }
        }),
{
    let d = ExtractorDefinition::new(
        ExtractorId(0),
        namespace.to_owned(),
        name.to_owned(),
        kind,
        enabled,
        schema_version,
        definition_blob,
        now_unix_nanos,
    );
    let id: u32 = intern(wtxn, d)?;
    Ok(ExtractorId(id))
}

/// Finds an extractor by its namespace and name.
pub fn extractor_lookup_by_qname(rtxn: &ReadTransaction, namespace: &str, name: &str) -> (r: Result<
    Option<ExtractorDefinition>,
    ExtractorOpError,
>)
    ensures
        r is Ok ==> opened(*rtxn, Table::ExtractorsByQname),
        match r {
            Ok(None) => named::<ExtractorDefinition>(rdb(*rtxn), qualified(namespace@, name@)) == Ok::<_, Refusal>(
                None::<ExtractorModel>,
            ),
            Ok(Some(d)) => named::<ExtractorDefinition>(rdb(*rtxn), qualified(namespace@, name@)) == Ok::<_, Refusal>(
                Some(d.model()),
            ),
            Err(e) => e is Storage || (named::<ExtractorDefinition>(
                rdb(*rtxn),
                qualified(namespace@, name@),
            ) matches Err(f) && e.says(f)),
        },
{
    let qname = make_qualified(&namespace.to_owned(), &name.to_owned());
    find_named(rtxn, qname.as_str())
}

/// The extractors, by number.
pub fn extractor_list(rtxn: &ReadTransaction) -> (r: Result<Vec<ExtractorDefinition>, ExtractorOpError>)
    ensures
        r is Ok ==> opened(*rtxn, Table::Extractors),
        r is Ok ==> scanned(rdb(*rtxn), Table::Extractors, Seq::empty()),
        match r {
            Ok(v) => all_rows::<ExtractorDefinition>(rdb(*rtxn), Table::Extractors) == Ok::<_, Refusal>(row_models(v@)),
            Err(e) => e is Storage || (all_rows::<ExtractorDefinition>(rdb(*rtxn), Table::Extractors) matches Err(f)
                && e.says(f)),
        },
{
    list_rows(rtxn, Table::Extractors)
}

} // verus!
