//! What becomes of a definition whose name is there already, and of entity types.

use vstd::prelude::*;
use vstd::utf8::encode_utf8;

use crate::bytes::be;
use crate::catalog::Table;
use crate::definitions::{all_rows, interned, lemma_all_rows, lemma_interned_over, named, next_number, Refusal};
use crate::row::{fits, image, slot, Slot};
use crate::schema_apply::laws::lemma_type_named;
use crate::store::{lookup, Db};
use crate::tables::entity_type::{EntityTypeDefinition, EntityTypeModel};
use crate::tables::extractor::{ExtractorDefinition, ExtractorModel};
use crate::tables::predicate::{PredicateDefinition, PredicateRowModel};
use crate::tables::relation_type::{RelationTypeDefinition, RelationTypeModel};
use crate::vocabulary::entity_type_interned;

verus! {

/// A predicate whose name is there: one with the same constraints, description and
/// number of values changes nothing; any other takes the place of the stored one, under
/// its number, if its schema is later, and is refused if it is not.
pub proof fn lemma_predicate_redefined(db: Db, m: PredicateRowModel, id: u32, t: Table, k: Seq<u8>)
    requires
        fits::<PredicateDefinition>(PredicateDefinition { predicate_id: id, ..m }),
        lookup(db, Table::PredicatesByQname, encode_utf8(m.namespace + seq![':'] + m.name)) == Some(be(id as nat, 4)),
        slot::<PredicateDefinition>(db, Table::Predicates, be(id as nat, 4)) is Row,
    ensures
        ({
            let there = slot::<PredicateDefinition>(db, Table::Predicates, be(id as nat, 4))->Row_0;
            let same = {
                &&& there.kind_constraint == m.kind_constraint
                &&& there.object_type_constraint_byte == m.object_type_constraint_byte
                &&& there.description == m.description
                &&& there.is_stateful == m.is_stateful
            };
            if same {
                interned::<PredicateDefinition>(db, m) == Ok::<_, Refusal>((db, id))
            } else if m.schema_version > there.schema_version {
                &&& interned::<PredicateDefinition>(db, m) matches Ok(x)
                &&& x.1 == id
                &&& slot::<PredicateDefinition>(x.0, Table::Predicates, be(id as nat, 4)) == Slot::Row(
                    PredicateDefinition { predicate_id: id, ..m },
                )
                &&& !(t is Predicates && k == be(id as nat, 4)) ==> lookup(x.0, t, k) == lookup(db, t, k)
            } else {
                interned::<PredicateDefinition>(db, m) == Err::<(Db, u32), _>(
                    Refusal::AlreadyExists { qname: m.namespace + seq![':'] + m.name, existing: id },
                )
            }
        }),
{
    lemma_interned_over::<PredicateDefinition>(db, m, id, t, k);
}

/// A relation type whose name is there: one with the same cardinality, symmetry, ends
/// and description changes nothing; any other takes the place of the stored one, under
/// its number, if its schema is later, and is refused if it is not.
pub proof fn lemma_relation_type_redefined(db: Db, m: RelationTypeModel, id: u32, t: Table, k: Seq<u8>)
    requires
        fits::<RelationTypeDefinition>(RelationTypeDefinition { relation_type_id: id, ..m }),
        lookup(db, Table::RelationTypesByQname, encode_utf8(m.namespace + seq![':'] + m.name)) == Some(be(id as nat, 4)),
        slot::<RelationTypeDefinition>(db, Table::RelationTypes, be(id as nat, 4)) is Row,
    ensures
        ({
            let there = slot::<RelationTypeDefinition>(db, Table::RelationTypes, be(id as nat, 4))->Row_0;
            let same = {
                &&& there.cardinality == m.cardinality
                &&& there.is_symmetric == m.is_symmetric
                &&& there.from_entity_type_id == m.from_entity_type_id
                &&& there.to_entity_type_id == m.to_entity_type_id
                &&& there.description == m.description
            };
            if same {
                interned::<RelationTypeDefinition>(db, m) == Ok::<_, Refusal>((db, id))
            } else if m.schema_version > there.schema_version {
                &&& interned::<RelationTypeDefinition>(db, m) matches Ok(x)
                &&& x.1 == id
                &&& slot::<RelationTypeDefinition>(x.0, Table::RelationTypes, be(id as nat, 4)) == Slot::Row(
                    RelationTypeDefinition { relation_type_id: id, ..m },
                )
                &&& !(t is RelationTypes && k == be(id as nat, 4)) ==> lookup(x.0, t, k) == lookup(db, t, k)
            } else {
                interned::<RelationTypeDefinition>(db, m) == Err::<(Db, u32), _>(
                    Refusal::AlreadyExists { qname: m.namespace + seq![':'] + m.name, existing: id },
                )
            }
        }),
{
    lemma_interned_over::<RelationTypeDefinition>(db, m, id, t, k);
}

/// An extractor whose name is there: one of the same kind and definition, enabled or not
/// alike, changes nothing; any other takes the place of the stored one, under its number,
/// if its schema is later, and is refused if it is not.
pub proof fn lemma_extractor_redefined(db: Db, m: ExtractorModel, id: u32, t: Table, k: Seq<u8>)
    requires
        fits::<ExtractorDefinition>(ExtractorDefinition { extractor_id: id, ..m }),
        lookup(db, Table::ExtractorsByQname, encode_utf8(m.namespace + seq![':'] + m.name)) == Some(be(id as nat, 4)),
        slot::<ExtractorDefinition>(db, Table::Extractors, be(id as nat, 4)) is Row,
    ensures
        ({
            let there = slot::<ExtractorDefinition>(db, Table::Extractors, be(id as nat, 4))->Row_0;
            let same = there.kind == m.kind && there.enabled == m.enabled && there.definition_blob == m.definition_blob;
            if same {
                interned::<ExtractorDefinition>(db, m) == Ok::<_, Refusal>((db, id))
            } else if m.schema_version > there.schema_version {
                &&& interned::<ExtractorDefinition>(db, m) matches Ok(x)
                &&& x.1 == id
                &&& slot::<ExtractorDefinition>(x.0, Table::Extractors, be(id as nat, 4)) == Slot::Row(
                    ExtractorDefinition { extractor_id: id, ..m },
                )
                &&& !(t is Extractors && k == be(id as nat, 4)) ==> lookup(x.0, t, k) == lookup(db, t, k)
            } else {
                interned::<ExtractorDefinition>(db, m) == Err::<(Db, u32), _>(
                    Refusal::AlreadyExists { qname: m.namespace + seq![':'] + m.name, existing: id },
                )
            }
        }),
{
    lemma_interned_over::<ExtractorDefinition>(db, m, id, t, k);
}

/// A definition is found by its qualified name exactly if the name leads to a number and
/// the number to the definition.
pub proof fn lemma_found_by_name(db: Db, namespace: Seq<char>, name: Seq<char>, id: u32)
    requires
        lookup(db, Table::PredicatesByQname, encode_utf8(namespace + seq![':'] + name)) == Some(be(id as nat, 4)),
    ensures
        named::<PredicateDefinition>(db, namespace + seq![':'] + name) == match slot::<PredicateDefinition>(
            db,
            Table::Predicates,
            be(id as nat, 4),
        ) {
            Slot::Row(m) => Ok::<_, Refusal>(Some(m)),
            Slot::Absent => Ok(None),
            Slot::Corrupt => Err(Refusal::Corrupt),
        },
{
    crate::definitions::lemma_number_of_key(id);
}

/// An entity type of a stored name is the stored one, unless its attributes are others,
/// which is refused. One of a new name is stored under the next number, with what it came
/// with. Nothing else changes.
pub proof fn lemma_entity_type_interned(db: Db, name: Seq<char>, blob: Seq<u8>, now: u64, t: Table, k: Seq<u8>)
    requires
        db.rows.dom().finite(),
        all_rows::<EntityTypeDefinition>(db, Table::EntityTypes) is Ok,
    ensures
        ({
            let there = exists|x: Seq<u8>|
                (#[trigger] slot::<EntityTypeDefinition>(db, Table::EntityTypes, x)) matches Slot::Row(m) && m.name
                    == name;
            match entity_type_interned(db, name, blob, now) {
                Ok((after, id)) => if there {
                    &&& after == db
                    &&& exists|x: Seq<u8>|
                        (#[trigger] slot::<EntityTypeDefinition>(db, Table::EntityTypes, x)) matches Slot::Row(m)
                            && m.name == name && m.schema_blob == blob && m.entity_type_id == id
                } else {
                    &&& next_number(db, Table::EntityTypes) == Ok::<_, Refusal>(id)
                    &&& lookup(after, Table::EntityTypes, be(id as nat, 4)) == Some(
                        image::<EntityTypeDefinition>(
                            EntityTypeDefinition {
                                entity_type_id: id,
                                name,
                                schema_blob: blob,
                                created_at_unix_nanos: now,
                            },
                        ),
                    )
                    &&& !(t is EntityTypes && k == be(id as nat, 4)) ==> lookup(after, t, k) == lookup(db, t, k)
                },
                Err(Refusal::AlreadyExists { qname, existing }) => {
                    &&& qname == name
                    &&& exists|x: Seq<u8>|
                        (#[trigger] slot::<EntityTypeDefinition>(db, Table::EntityTypes, x)) matches Slot::Row(m)
                            && m.name == name && m.schema_blob != blob && m.entity_type_id == existing
                },
                Err(_) => !there && next_number(db, Table::EntityTypes) is Err,
            }
        }),
{
    let all = all_rows::<EntityTypeDefinition>(db, Table::EntityTypes)->Ok_0;
    lemma_type_named(all, name);
    match crate::vocabulary::type_named(all, name) {
        Some(m) => {
            lemma_all_rows::<EntityTypeDefinition>(db, Table::EntityTypes, m);
            let x = choose|x: Seq<u8>| #[trigger]
                slot::<EntityTypeDefinition>(db, Table::EntityTypes, x) == Slot::Row(m);
            assert(slot::<EntityTypeDefinition>(db, Table::EntityTypes, x) == Slot::Row(m));
        },
        None => {
            assert forall|x: Seq<u8>|
                (#[trigger] slot::<EntityTypeDefinition>(db, Table::EntityTypes, x)) is Row implies slot::<
                EntityTypeDefinition,
            >(db, Table::EntityTypes, x)->Row_0.name != name by {
                let m: EntityTypeModel = slot::<EntityTypeDefinition>(db, Table::EntityTypes, x)->Row_0;
                lemma_all_rows::<EntityTypeDefinition>(db, Table::EntityTypes, m);
                assert(all.contains(m));
            }
        },
    }
}

} // verus!
