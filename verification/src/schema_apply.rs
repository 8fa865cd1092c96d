//! Spreading the definitions of a schema over the vocabulary tables.

use redb::WriteTransaction;
use vstd::prelude::*;

use crate::bytes::copy_bytes;
use crate::catalog::Table;
use crate::definitions::{intern_scanned, interned, lemma_interned_by_rows, text_eq, Refusal};
use crate::store::{lookup, scanned, tables_kept, wdb, Db};
use crate::tables::extractor::{qualified, ExtractorDefinition, ExtractorKind};
use crate::tables::predicate::PredicateDefinition;
use crate::tables::relation_type::{Cardinality, RelationTypeDefinition};
use crate::types::{EntityTypeId, StatementKind};
use crate::vocabulary::{
    declared_extractor, declared_predicate, declared_relation_type, entity_type_intern, entity_type_interned,
    entity_type_lookup_by_name, entity_type_of, extractor_intern, lemma_entity_type_by_rows, predicate_intern,
    relation_type_intern, EntityTypeOpError, ExtractorOpError, PredicateOpError, RelationTypeOpError,
};

pub mod laws;

verus! {

/// What statements a predicate allows.
#[derive(Clone, Copy, Debug, PartialEq, Eq, Structural)]
pub enum StatementKindAst {
    Fact,
    Preference,
    Event,
    Any,
}

/// What a predicate can say.
#[derive(Clone, Copy, Debug, PartialEq, Eq, Structural)]
pub enum ObjectTypeDecl {
    Any,
    Entity,
    Value,
    Memory,
    Statement,
}

/// How many relations of a type an entity can have.
#[derive(Clone, Copy, Debug, PartialEq, Eq, Structural)]
pub enum CardinalityAst {
    OneToOne,
    OneToMany,
    ManyToOne,
    ManyToMany,
}

/// A declared entity type.
#[derive(Clone, Debug)]
pub struct EntityTypeDef {
    pub name: String,
}

/// A declared predicate.
#[derive(Clone, Debug)]
pub struct PredicateDef {
    pub name: String,
    pub kind: StatementKindAst,
    pub object: ObjectTypeDecl,
    pub description: Option<String>,
}

/// A declared relation type.
#[derive(Clone, Debug)]
pub struct RelationTypeDef {
    pub name: String,
    pub from_type: String,
    pub to_type: String,
    pub cardinality: CardinalityAst,
    pub symmetric: bool,
    pub description: Option<String>,
}

/// A declared extractor.
#[derive(Clone, Debug)]
pub struct ExtractorDef {
    pub name: String,
    pub kind: ExtractorKind,
    pub enabled: bool,
    /// The definition, serialised.
    pub definition: Vec<u8>,
}

/// An item of a schema.
#[derive(Clone, Debug)]
pub enum SchemaItem {
    EntityType(EntityTypeDef),
    Predicate(PredicateDef),
    RelationType(RelationTypeDef),
    Extractor(ExtractorDef),
}

/// A schema.
#[derive(Clone, Debug)]
pub struct Schema {
    pub namespace: String,
    pub items: Vec<SchemaItem>,
    /// The schema as it was written, if it came as text.
    pub source: Option<String>,
}

/// A schema that was found valid.
#[derive(Clone, Debug)]
pub struct ValidatedSchema(pub Schema);

impl ValidatedSchema {
    pub fn as_schema(&self) -> (r: &Schema)
        ensures
            *r == self.0,
    {
        &self.0
    }
}

/// Why a schema was not applied.
#[derive(Debug)]
pub enum SchemaApplyError {
    EntityType(EntityTypeOpError),
    Predicate(PredicateOpError),
    RelationType(RelationTypeOpError),
    Extractor(ExtractorOpError),
}

/// Why a schema is not applied, as it is spoken of.
pub enum ApplyRefusal {
    EntityType(Refusal),
    Predicate(Refusal),
    RelationType(Refusal),
    Extractor(Refusal),
}

impl SchemaApplyError {
    /// Whether it was the storage that failed.
    pub open spec fn is_storage(&self) -> bool {
        match *self {
            SchemaApplyError::EntityType(e) => e is Storage,
            SchemaApplyError::Predicate(e) => e is Storage,
            SchemaApplyError::RelationType(e) => e is Storage,
            SchemaApplyError::Extractor(e) => e is Storage,
        }
    }

    /// Whether the error says what `f` says.
    pub open spec fn says(&self, f: ApplyRefusal) -> bool {
        match (*self, f) {
            (SchemaApplyError::EntityType(e), ApplyRefusal::EntityType(g)) => e.says(g),
            (SchemaApplyError::Predicate(e), ApplyRefusal::Predicate(g)) => e.says(g),
            (SchemaApplyError::RelationType(e), ApplyRefusal::RelationType(g)) => e.says(g),
            (SchemaApplyError::Extractor(e), ApplyRefusal::Extractor(g)) => e.says(g),
            _ => false,
        }
    }
}

/// The statements that a predicate allows; `None` for any.
pub open spec fn statement_kind_of(k: StatementKindAst) -> Option<StatementKind> {
    match k {
        StatementKindAst::Fact => Some(StatementKind::Fact),
        StatementKindAst::Preference => Some(StatementKind::Preference),
        StatementKindAst::Event => Some(StatementKind::Event),
        StatementKindAst::Any => None,
    }
}

fn map_statement_kind(k: StatementKindAst) -> (r: Option<StatementKind>)
    ensures
        r == statement_kind_of(k),
{
    match k {
        StatementKindAst::Fact => Some(StatementKind::Fact),
        StatementKindAst::Preference => Some(StatementKind::Preference),
        StatementKindAst::Event => Some(StatementKind::Event),
        StatementKindAst::Any => None,
    }
}

/// The byte of what a predicate can say.
pub open spec fn object_byte_of(o: ObjectTypeDecl) -> u8 {
    match o {
        ObjectTypeDecl::Any => 0,
        ObjectTypeDecl::Entity => 1,
        ObjectTypeDecl::Value => 2,
        ObjectTypeDecl::Memory => 3,
        ObjectTypeDecl::Statement => 4,
    }
}

fn object_type_constraint_byte(o: &ObjectTypeDecl) -> (r: u8)
    ensures
        r == object_byte_of(*o),
{
    match o {
        ObjectTypeDecl::Any => 0,
        ObjectTypeDecl::Entity => 1,
        ObjectTypeDecl::Value => 2,
        ObjectTypeDecl::Memory => 3,
        ObjectTypeDecl::Statement => 4,
    }
}

/// The cardinality that is declared.
pub open spec fn cardinality_of(c: CardinalityAst) -> Cardinality {
    match c {
        CardinalityAst::OneToOne => Cardinality::OneToOne,
        CardinalityAst::OneToMany => Cardinality::OneToMany,
        CardinalityAst::ManyToOne => Cardinality::ManyToOne,
        CardinalityAst::ManyToMany => Cardinality::ManyToMany,
    }
}

fn map_cardinality(c: CardinalityAst) -> (r: Cardinality)
    ensures
        r == cardinality_of(c),
{
    match c {
        CardinalityAst::OneToOne => Cardinality::OneToOne,
        CardinalityAst::OneToMany => Cardinality::OneToMany,
        CardinalityAst::ManyToOne => Cardinality::ManyToOne,
        CardinalityAst::ManyToMany => Cardinality::ManyToMany,
    }
}

/// The entity type that a declaration names: none for `Any`, and none if there
/// is no such type.
pub open spec fn resolved_type(db: Db, name: Seq<char>) -> Result<Option<EntityTypeId>, Refusal> {
    if name == "Any"@ {
        Ok(None)
    } else {
        match entity_type_of(db, name) {
            Err(e) => Err(e),
            Ok(None) => Ok(None),
            Ok(Some(m)) => Ok(Some(EntityTypeId(m.entity_type_id))),
        }
    }
}

/// Whether the entity types can be listed where a declaration names one.
pub open spec fn type_scanned(db: Db, name: Seq<char>) -> bool {
    name == "Any"@ || scanned(db, Table::EntityTypes, Seq::empty())
}

fn resolve_entity_type(wtxn: &mut WriteTransaction, name: &str) -> (r: Result<Option<EntityTypeId>, EntityTypeOpError>)
    ensures
        r is Ok ==> type_scanned(wdb(*old(wtxn)), name@),
        tables_kept(*old(wtxn), *final(wtxn)),
        wdb(*final(wtxn)) == wdb(*old(wtxn)),
        match r {
            Ok(t) => resolved_type(wdb(*old(wtxn)), name@) == Ok::<_, Refusal>(t),
            Err(e) => e is Storage || (resolved_type(wdb(*old(wtxn)), name@) matches Err(f) && e.says(f)),
        },
{
    if text_eq(name, "Any") {
        return Ok(None);
    }
    match entity_type_lookup_by_name(wtxn, name)? {
        None => Ok(None),
        Some(d) => Ok(Some(d.id())),
    }
}

/// A description, empty if there is none.
pub open spec fn description_of(d: Option<String>) -> Seq<char> {
    match d {
        Some(s) => s@,
        None => ""@,
    }
}

fn describe(d: &Option<String>) -> (r: &str)
    ensures
        r@ == description_of(*d),
{
    match d {
        Some(s) => s.as_str(),
        None => "",
    }
}

/// What an item of a schema leaves.
pub open spec fn item_applied(db: Db, namespace: Seq<char>, item: SchemaItem, version: u32, now: u64) -> Result<
    Db,
    ApplyRefusal,
> {
    match item {
        SchemaItem::EntityType(e) => match entity_type_interned(db, e.name@, Seq::empty(), now) {
            Ok(done) => Ok(done.0),
            Err(f) => Err(ApplyRefusal::EntityType(f)),
        },
        SchemaItem::Predicate(p) => match interned::<PredicateDefinition>(
            db,
            declared_predicate(
                namespace,
                p.name@,
                statement_kind_of(p.kind),
                object_byte_of(p.object),
                version,
                description_of(p.description),
                false,
                now,
            ),
        ) {
            Ok(done) => Ok(done.0),
            Err(f) => Err(ApplyRefusal::Predicate(f)),
        },
        SchemaItem::RelationType(t) => match resolved_type(db, t.from_type@) {
            Err(f) => Err(ApplyRefusal::EntityType(f)),
            Ok(from) => match resolved_type(db, t.to_type@) {
                Err(f) => Err(ApplyRefusal::EntityType(f)),
                Ok(to) => match interned::<RelationTypeDefinition>(
                    db,
                    declared_relation_type(
                        namespace,
                        t.name@,
                        from,
                        to,
                        cardinality_of(t.cardinality),
                        t.symmetric,
                        version,
                        description_of(t.description),
                        now,
                    ),
                ) {
                    Ok(done) => Ok(done.0),
                    Err(f) => Err(ApplyRefusal::RelationType(f)),
                },
            },
        },
        SchemaItem::Extractor(x) => match interned::<ExtractorDefinition>(
            db,
            declared_extractor(namespace, x.name@, x.kind, x.enabled, version, x.definition@, now),
        ) {
            Ok(done) => Ok(done.0),
            Err(f) => Err(ApplyRefusal::Extractor(f)),
        },
    }
}

/// What the items of a schema leave, one after the other.
pub open spec fn items_applied(db: Db, namespace: Seq<char>, items: Seq<SchemaItem>, version: u32, now: u64) -> Result<
    Db,
    ApplyRefusal,
>
    decreases items.len(),
{
    if items.len() == 0 {
        Ok(db)
    } else {
        match items_applied(db, namespace, items.drop_last(), version, now) {
            Err(e) => Err(e),
            Ok(d) => item_applied(d, namespace, items.last(), version, now),
        }
    }
}

/// Whether what an item of a schema is held against can be listed.
pub open spec fn item_scanned(db: Db, namespace: Seq<char>, item: SchemaItem) -> bool {
    match item {
        SchemaItem::EntityType(_) => scanned(db, Table::EntityTypes, Seq::empty()),
        SchemaItem::Predicate(p) => intern_scanned::<PredicateDefinition>(db, qualified(namespace, p.name@)),
        SchemaItem::RelationType(t) => {
            &&& type_scanned(db, t.from_type@)
            &&& type_scanned(db, t.to_type@)
            &&& intern_scanned::<RelationTypeDefinition>(db, qualified(namespace, t.name@))
        },
        SchemaItem::Extractor(x) => intern_scanned::<ExtractorDefinition>(db, qualified(namespace, x.name@)),
    }
}

/// Whether what each item of a schema is held against can be listed.
pub open spec fn items_scanned(db: Db, namespace: Seq<char>, items: Seq<SchemaItem>, version: u32, now: u64) -> bool
    decreases items.len(),
{
    items.len() == 0 || {
        &&& items_scanned(db, namespace, items.drop_last(), version, now)
        &&& items_applied(db, namespace, items.drop_last(), version, now) matches Ok(d) && item_scanned(
            d,
            namespace,
            items.last(),
        )
    }
}

proof fn lemma_items_fail(db: Db, namespace: Seq<char>, items: Seq<SchemaItem>, version: u32, now: u64, n: int)
    requires
        0 <= n <= items.len(),
        items_applied(db, namespace, items.take(n), version, now) is Err,
    ensures
        items_applied(db, namespace, items, version, now) == items_applied(
            db,
            namespace,
            items.take(n),
            version,
            now,
        ),
    decreases items.len() - n,
{
    if n == items.len() {
        assert(items.take(n) =~= items);
    } else {
        assert(items.take(n + 1).drop_last() =~= items.take(n));
        lemma_items_fail(db, namespace, items, version, now, n + 1);
    }
}

fn apply_item(
    wtxn: &mut WriteTransaction,
    namespace: &str,
    item: &SchemaItem,
    schema_version: u32,
    now_unix_nanos: u64,
) -> (r: Result<(), SchemaApplyError>)
    ensures
        tables_kept(*old(wtxn), *final(wtxn)),
        r is Ok ==> item_scanned(wdb(*old(wtxn)), namespace@, *item),
        ({
            let want = item_applied(wdb(*old(wtxn)), namespace@, *item, schema_version, now_unix_nanos);
            match r {
                Ok(()) => want == Ok::<_, ApplyRefusal>(wdb(*final(wtxn))),
                Err(e) => e.is_storage() || (want matches Err(f) && e.says(f)),
            }
        }),
{
    match item {
        SchemaItem::EntityType(e) => {
            let blob: Vec<u8> = Vec::new();
            proof {
                assert(blob@ =~= Seq::<u8>::empty());
            }
            match entity_type_intern(wtxn, e.name.as_str(), blob, now_unix_nanos) {
                Ok(_) => Ok(()),
                Err(e) => Err(SchemaApplyError::EntityType(e)),
            }
        },
        SchemaItem::Predicate(p) => match predicate_intern(
            wtxn,
            namespace,
            p.name.as_str(),
            map_statement_kind(p.kind),
            object_type_constraint_byte(&p.object),
            schema_version,
            describe(&p.description),
            false,
            now_unix_nanos,
        ) {
            Ok(_) => Ok(()),
            Err(e) => Err(SchemaApplyError::Predicate(e)),
        },
        SchemaItem::RelationType(t) => {
            let from = match resolve_entity_type(wtxn, t.from_type.as_str()) {
                Ok(x) => x,
                Err(e) => return Err(SchemaApplyError::EntityType(e)),
            };
            let to = match resolve_entity_type(wtxn, t.to_type.as_str()) {
                Ok(x) => x,
                Err(e) => return Err(SchemaApplyError::EntityType(e)),
            };
            match relation_type_intern(
                wtxn,
                namespace,
                t.name.as_str(),
                from,
                to,
                map_cardinality(t.cardinality),
                t.symmetric,
                schema_version,
                describe(&t.description),
                now_unix_nanos,
            ) {
                Ok(_) => Ok(()),
                Err(e) => Err(SchemaApplyError::RelationType(e)),
            }
        },
        SchemaItem::Extractor(x) => match extractor_intern(
            wtxn,
            namespace,
            x.name.as_str(),
            x.kind,
            x.enabled,
            schema_version,
            copy_bytes(&x.definition),
            now_unix_nanos,
        ) {
            Ok(_) => Ok(()),
            Err(e) => Err(SchemaApplyError::Extractor(e)),
        },
    }
}

/// Defines every item of a schema, in the order in which they stand.
pub fn apply_schema_definitions(
    wtxn: &mut WriteTransaction,
    validated: &ValidatedSchema,
    schema_version: u32,
    now_unix_nanos: u64,
) -> (r: Result<(), SchemaApplyError>)
    ensures
        tables_kept(*old(wtxn), *final(wtxn)),
        validated.0.items@.len() == 0 ==> r is Ok,
        r is Ok ==> items_scanned(
            wdb(*old(wtxn)),
            validated.0.namespace@,
            validated.0.items@,
            schema_version,
            now_unix_nanos,
        ),
        ({
            let s = validated.0;
            let want = items_applied(wdb(*old(wtxn)), s.namespace@, s.items@, schema_version, now_unix_nanos);
            match r {
                Ok(()) => want == Ok::<_, ApplyRefusal>(wdb(*final(wtxn))),
                Err(e) => e.is_storage() || (want matches Err(f) && e.says(f)),
            }
        }),
{
    let schema = validated.as_schema();
    let ghost db = wdb(*wtxn);
    let ghost items = schema.items@;
    let mut i: usize = 0;
    proof {
        assert(items.take(0) =~= Seq::<SchemaItem>::empty());
    }
    while i < schema.items.len()
        invariant
            i <= schema.items.len(),
            *schema == validated.0,
            tables_kept(*old(wtxn), *wtxn),
            items == schema.items@,
            db == wdb(*old(wtxn)),
            items_scanned(db, schema.namespace@, items.take(i as int), schema_version, now_unix_nanos),
            items_applied(db, schema.namespace@, items.take(i as int), schema_version, now_unix_nanos) == Ok::<
                _,
                ApplyRefusal,
            >(wdb(*wtxn)),
        decreases schema.items.len() - i,
    {
        proof {
            assert(items.take(i + 1).drop_last() =~= items.take(i as int));
            if items_applied(db, schema.namespace@, items.take(i + 1), schema_version, now_unix_nanos) is Err {
                lemma_items_fail(db, schema.namespace@, items, schema_version, now_unix_nanos, i + 1);
            }
        }
        apply_item(wtxn, schema.namespace.as_str(), &schema.items[i], schema_version, now_unix_nanos)?;
        i = i + 1;
    }
    proof {
        assert(items.take(i as int) =~= items);
    }
    Ok(())
}

/// A schema each of whose items changes nothing changes nothing.
pub proof fn lemma_settled_schema_is_kept(db: Db, namespace: Seq<char>, items: Seq<SchemaItem>, version: u32, now: u64)
    requires
        forall|i: int|
            0 <= i < items.len() ==> item_applied(db, namespace, #[trigger] items[i], version, now) == Ok::<
                _,
                ApplyRefusal,
            >(db),
    ensures
        items_applied(db, namespace, items, version, now) == Ok::<_, ApplyRefusal>(db),
    decreases items.len(),
{
    if items.len() > 0 {
        assert forall|i: int| 0 <= i < items.drop_last().len() implies item_applied(
            db,
            namespace,
            #[trigger] items.drop_last()[i],
            version,
            now,
        ) == Ok::<_, ApplyRefusal>(db) by {
            assert(items.drop_last()[i] == items[i]);
        }
        lemma_settled_schema_is_kept(db, namespace, items.drop_last(), version, now);
        assert(items.last() == items[items.len() - 1]);
    }
}

proof fn lemma_item_by_rows(a: Db, b: Db, namespace: Seq<char>, item: SchemaItem, version: u32, now: u64)
    requires
        a.rows == b.rows,
    ensures
        match (item_applied(a, namespace, item, version, now), item_applied(b, namespace, item, version, now)) {
            (Ok(x), Ok(y)) => x.rows == y.rows,
            (Err(e), Err(f)) => e == f,
            _ => false,
        },
{
    match item {
        SchemaItem::EntityType(e) => {
            lemma_entity_type_by_rows(a, b, e.name@, Seq::empty(), now);
        },
        SchemaItem::Predicate(p) => {
            lemma_interned_by_rows::<PredicateDefinition>(
                a,
                b,
                declared_predicate(
                    namespace,
                    p.name@,
                    statement_kind_of(p.kind),
                    object_byte_of(p.object),
                    version,
                    description_of(p.description),
                    false,
                    now,
                ),
            );
        },
        SchemaItem::RelationType(t) => {
            lemma_entity_type_by_rows(a, b, t.from_type@, Seq::empty(), now);
            lemma_entity_type_by_rows(a, b, t.to_type@, Seq::empty(), now);
            if let (Ok(from), Ok(to)) = (resolved_type(a, t.from_type@), resolved_type(a, t.to_type@)) {
                lemma_interned_by_rows::<RelationTypeDefinition>(
                    a,
                    b,
                    declared_relation_type(
                        namespace,
                        t.name@,
                        from,
                        to,
                        cardinality_of(t.cardinality),
                        t.symmetric,
                        version,
                        description_of(t.description),
                        now,
                    ),
                );
            }
        },
        SchemaItem::Extractor(x) => {
            lemma_interned_by_rows::<ExtractorDefinition>(
                a,
                b,
                declared_extractor(namespace, x.name@, x.kind, x.enabled, version, x.definition@, now),
            );
        },
    }
}

/// What the items of a schema leave is a matter of the rows alone.
pub proof fn lemma_items_by_rows(a: Db, b: Db, namespace: Seq<char>, items: Seq<SchemaItem>, version: u32, now: u64)
    requires
        a.rows == b.rows,
    ensures
        match (items_applied(a, namespace, items, version, now), items_applied(b, namespace, items, version, now)) {
            (Ok(x), Ok(y)) => x.rows == y.rows,
            (Err(e), Err(f)) => e == f,
            _ => false,
        },
    decreases items.len(),
{
    if items.len() > 0 {
        lemma_items_by_rows(a, b, namespace, items.drop_last(), version, now);
        if let (Ok(x), Ok(y)) = (
            items_applied(a, namespace, items.drop_last(), version, now),
            items_applied(b, namespace, items.drop_last(), version, now),
        ) {
            lemma_item_by_rows(x, y, namespace, items.last(), version, now);
        }
    }
}

/// The tables that definitions stand in.
pub open spec fn is_vocabulary(t: Table) -> bool {
    t is EntityTypes || t is Predicates || t is PredicatesByQname || t is RelationTypes || t is RelationTypesByQname
        || t is Extractors || t is ExtractorsByQname
}

proof fn lemma_item_frame(db: Db, namespace: Seq<char>, item: SchemaItem, version: u32, now: u64, t: Table, key: Seq<u8>)
    requires
        !is_vocabulary(t),
    ensures
        item_applied(db, namespace, item, version, now) matches Ok(d) ==> lookup(d, t, key) == lookup(db, t, key)
            && d.home == db.home,
{
}

/// A schema changes nothing but the vocabulary tables.
pub proof fn lemma_items_frame(
    db: Db,
    namespace: Seq<char>,
    items: Seq<SchemaItem>,
    version: u32,
    now: u64,
    t: Table,
    key: Seq<u8>,
)
    requires
        !is_vocabulary(t),
    ensures
        items_applied(db, namespace, items, version, now) matches Ok(d) ==> lookup(d, t, key) == lookup(db, t, key)
            && d.home == db.home,
    decreases items.len(),
{
    if items.len() > 0 {
        lemma_items_frame(db, namespace, items.drop_last(), version, now, t, key);
        if let Ok(d) = items_applied(db, namespace, items.drop_last(), version, now) {
            lemma_item_frame(d, namespace, items.last(), version, now, t, key);
        }
    }
}

} // verus!
