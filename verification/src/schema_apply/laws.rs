//! What a schema leaves in the vocabulary tables, item by item.

use vstd::prelude::*;
use vstd::utf8::encode_utf8;

use crate::bytes::{be, lemma_be_injective, lemma_be_of_be_value, lemma_be_order, lemma_pow256_values};
use crate::catalog::Table;
use crate::cells::cell_fits;
use crate::collect::lemma_collect_members;
use crate::definitions::{
    all_rows, indexed, interned, lemma_number_of_key, next_number, number_of, row_in, Definition, Refusal,
};
use crate::order::{lemma_lex_irreflexive, lex_lt};
use crate::row::{fits, lemma_parsed, lemma_text_injective, slot, Row, Slot};
use crate::schema_apply::{
    item_applied, items_applied, resolved_type, CardinalityAst, EntityTypeDef, ExtractorDef, ObjectTypeDecl, PredicateDef,
    RelationTypeDef, Schema, SchemaItem, StatementKindAst,
};
use crate::schema_store::{uploaded, version_stored};
use crate::store::{lemma_scan_exists, lookup, scan, Db};
use crate::tables::entity_type::{EntityTypeDefinition, EntityTypeModel};
use crate::tables::extractor::{ExtractorDefinition, ExtractorKind, ExtractorModel};
use crate::tables::predicate::{PredicateDefinition, PredicateRowModel};
use crate::tables::relation_type::{RelationTypeDefinition, RelationTypeModel};
use crate::vocabulary::{declared_extractor, declared_predicate, declared_relation_type, type_named};

verus! {

/// A definition is registered: its name leads to its number, and its number to it.
pub open spec fn registered<D: Definition>(db: Db, qname: Seq<char>, id: u32, m: D::M) -> bool {
    &&& lookup(db, D::index(), encode_utf8(qname)) == Some(be(id as nat, 4))
    &&& slot::<D>(db, D::primary(), be(id as nat, 4)) == Slot::Row(m)
}

/// The next number of a table is not taken.
proof fn lemma_next_number_is_free(db: Db, t: Table)
    requires
        db.rows.dom().finite(),
        next_number(db, t) is Ok,
    ensures
        !db.dom().contains((t, be(next_number(db, t)->Ok_0 as nat, 4))),
{
    let all = scan(db, t, Seq::empty());
    lemma_scan_exists(db, t, Seq::empty());
    let id = next_number(db, t)->Ok_0;
    let key = be(id as nat, 4);
    if db.dom().contains((t, key)) {
        assert(key.take(0) =~= Seq::<u8>::empty());
        let i = choose|i: int| 0 <= i < all.len() && (#[trigger] all[i]).0 == key;
        let end = all.len() - 1;
        let last = all[end].0;
        lemma_pow256_values();
        lemma_be_of_be_value(last);
        let n = number_of(last)->Some_0;
        assert(last == be(n as nat, 4));
        lemma_be_order(n as nat, id as nat, 4);
        if i < end {
            assert(lex_lt(all[i].0, all[end].0));
            crate::order::lemma_lex_transitive(last, key, last);
        }
        lemma_lex_irreflexive(last);
    }
}

/// A name that was free is registered under a number that was free.
proof fn lemma_registers<D: Definition>(db: Db, m: D::M)
    requires
        db.rows.dom().finite(),
        D::primary() != D::index(),
        lookup(db, D::index(), encode_utf8(D::full_name(m))) is None,
        interned::<D>(db, m) is Ok,
        forall|id: u32| fits::<D>(#[trigger] D::numbered(m, id)),
    ensures
        ({
            let (d, id) = interned::<D>(db, m)->Ok_0;
            &&& registered::<D>(d, D::full_name(m), id, D::numbered(m, id))
            &&& lookup(db, D::primary(), be(id as nat, 4)) is None
        }),
{
    let (d, id) = interned::<D>(db, m)->Ok_0;
    lemma_next_number_is_free(db, D::primary());
    lemma_parsed::<D>(D::numbered(m, id));
}

/// What is registered stays, whatever is defined beside it in no later version.
proof fn lemma_stays_registered<D: Definition>(db: Db, qname: Seq<char>, id: u32, m: D::M, other: D::M)
    requires
        db.rows.dom().finite(),
        D::primary() != D::index(),
        registered::<D>(db, qname, id, m),
        interned::<D>(db, other) is Ok,
        D::version(other) <= D::version(m),
    ensures
        registered::<D>(interned::<D>(db, other)->Ok_0.0, qname, id, m),
{
    let (d, n) = interned::<D>(db, other)->Ok_0;
    lemma_number_of_key(id);
    if encode_utf8(D::full_name(other)) == encode_utf8(qname) {
        lemma_text_injective(D::full_name(other), qname);
    }
    if indexed(db, D::index(), D::full_name(other)) == Ok::<_, Refusal>(None::<u32>) {
        lemma_next_number_is_free(db, D::primary());
    }
    lemma_pow256_values();
    if be(n as nat, 4) == be(id as nat, 4) {
        lemma_be_injective(n as nat, id as nat, 4);
    }
}

/// A name that is free stays so, whatever is defined under other names.
proof fn lemma_stays_free<D: Definition>(db: Db, qname: Seq<char>, other: D::M)
    requires
        D::primary() != D::index(),
        lookup(db, D::index(), encode_utf8(qname)) is None,
        D::full_name(other) != qname,
        interned::<D>(db, other) is Ok,
    ensures
        lookup(interned::<D>(db, other)->Ok_0.0, D::index(), encode_utf8(qname)) is None,
{
    if encode_utf8(D::full_name(other)) == encode_utf8(qname) {
        lemma_text_injective(D::full_name(other), qname);
    }
}

// Items one after the other.

proof fn lemma_items_join(db: Db, namespace: Seq<char>, a: Seq<SchemaItem>, b: Seq<SchemaItem>, version: u32, now: u64)
    ensures
        items_applied(db, namespace, a + b, version, now) == match items_applied(db, namespace, a, version, now) {
            Err(e) => Err(e),
            Ok(d) => items_applied(d, namespace, b, version, now),
        },
    decreases b.len(),
{
    if b.len() == 0 {
        assert(a + b =~= a);
    } else {
        assert((a + b).drop_last() =~= a + b.drop_last());
        lemma_items_join(db, namespace, a, b.drop_last(), version, now);
    }
}

/// One more item.
proof fn lemma_items_step(db: Db, namespace: Seq<char>, items: Seq<SchemaItem>, version: u32, now: u64, i: int)
    requires
        0 <= i < items.len(),
    ensures
        items_applied(db, namespace, items.take(i + 1), version, now) == match items_applied(
            db,
            namespace,
            items.take(i),
            version,
            now,
        ) {
            Err(e) => Err(e),
            Ok(d) => item_applied(d, namespace, items[i], version, now),
        },
{
    let one = items.take(i + 1);
    let head = items.take(i);
    assert(one.drop_last() =~= head);
    assert(one.last() == items[i]);
    assert(one.len() > 0);
}

/// What the items up to one leave, and what the others make of it.
proof fn lemma_items_split(db: Db, namespace: Seq<char>, items: Seq<SchemaItem>, version: u32, now: u64, n: int)
    requires
        0 <= n <= items.len(),
    ensures
        items_applied(db, namespace, items, version, now) == match items_applied(
            db,
            namespace,
            items.take(n),
            version,
            now,
        ) {
            Err(e) => Err(e),
            Ok(d) => items_applied(d, namespace, items.skip(n), version, now),
        },
{
    assert(items.take(n) + items.skip(n) =~= items);
    lemma_items_join(db, namespace, items.take(n), items.skip(n), version, now);
}

proof fn lemma_item_keeps_finite(db: Db, namespace: Seq<char>, item: SchemaItem, version: u32, now: u64)
    requires
        db.rows.dom().finite(),
    ensures
        item_applied(db, namespace, item, version, now) matches Ok(d) ==> d.rows.dom().finite(),
{
}

proof fn lemma_items_keep_finite(db: Db, namespace: Seq<char>, items: Seq<SchemaItem>, version: u32, now: u64)
    requires
        db.rows.dom().finite(),
    ensures
        items_applied(db, namespace, items, version, now) matches Ok(d) ==> d.rows.dom().finite(),
    decreases items.len(),
{
    if items.len() > 0 {
        lemma_items_keep_finite(db, namespace, items.drop_last(), version, now);
        if let Ok(d) = items_applied(db, namespace, items.drop_last(), version, now) {
            lemma_item_keeps_finite(d, namespace, items.last(), version, now);
        }
    }
}

// Predicates.

proof fn lemma_predicate_stays(
    db: Db,
    namespace: Seq<char>,
    items: Seq<SchemaItem>,
    version: u32,
    now: u64,
    qname: Seq<char>,
    id: u32,
    m: PredicateRowModel,
)
    requires
        db.rows.dom().finite(),
        registered::<PredicateDefinition>(db, qname, id, m),
        m.schema_version == version,
    ensures
        items_applied(db, namespace, items, version, now) matches Ok(d) ==> registered::<PredicateDefinition>(
            d,
            qname,
            id,
            m,
        ),
    decreases items.len(),
{
    if items.len() > 0 {
        lemma_predicate_stays(db, namespace, items.drop_last(), version, now, qname, id, m);
        lemma_items_keep_finite(db, namespace, items.drop_last(), version, now);
        if let Ok(d) = items_applied(db, namespace, items.drop_last(), version, now) {
            if let SchemaItem::Predicate(p) = items.last() {
                let other = declared_predicate(
                    namespace,
                    p.name@,
                    crate::schema_apply::statement_kind_of(p.kind),
                    crate::schema_apply::object_byte_of(p.object),
                    version,
                    crate::schema_apply::description_of(p.description),
                    false,
                    now,
                );
                if interned::<PredicateDefinition>(d, other) is Ok {
                    lemma_stays_registered::<PredicateDefinition>(d, qname, id, m, other);
                }
            }
        }
    }
}

proof fn lemma_predicate_stays_free(
    db: Db,
    namespace: Seq<char>,
    items: Seq<SchemaItem>,
    version: u32,
    now: u64,
    name: Seq<char>,
)
    requires
        lookup(db, Table::PredicatesByQname, encode_utf8(namespace + seq![':'] + name)) is None,
        forall|j: int| 0 <= j < items.len() ==> ((#[trigger] items[j]) matches SchemaItem::Predicate(o) ==> o.name@ != name),
    ensures
        items_applied(db, namespace, items, version, now) matches Ok(d) ==> lookup(
            d,
            Table::PredicatesByQname,
            encode_utf8(namespace + seq![':'] + name),
        ) is None,
    decreases items.len(),
{
    let qname = namespace + seq![':'] + name;
    if items.len() > 0 {
        let head = items.drop_last();
        assert forall|j: int| 0 <= j < head.len() implies ((#[trigger] head[j]) matches SchemaItem::Predicate(o)
            ==> o.name@ != name) by {
            assert(head[j] == items[j]);
        }
        lemma_predicate_stays_free(db, namespace, head, version, now, name);
        if let Ok(d) = items_applied(db, namespace, head, version, now) {
            if let SchemaItem::Predicate(p) = items.last() {
                let other = declared_predicate(
                    namespace,
                    p.name@,
                    crate::schema_apply::statement_kind_of(p.kind),
                    crate::schema_apply::object_byte_of(p.object),
                    version,
                    crate::schema_apply::description_of(p.description),
                    false,
                    now,
                );
                assert(items[items.len() - 1] == items.last());
                lemma_names_differ(namespace, p.name@, name);
                if interned::<PredicateDefinition>(d, other) is Ok {
                    lemma_stays_free::<PredicateDefinition>(d, qname, other);
                }
            }
        }
    }
}

proof fn lemma_names_differ(namespace: Seq<char>, a: Seq<char>, b: Seq<char>)
    requires
        a != b,
    ensures
        namespace + seq![':'] + a != namespace + seq![':'] + b,
{
    let x = namespace + seq![':'] + a;
    let y = namespace + seq![':'] + b;
    let n = namespace.len() as int + 1;
    if x == y {
        assert(x.skip(n) =~= a);
        assert(y.skip(n) =~= b);
    }
}

/// Every text of an item can be held.
pub open spec fn texts_fit(namespace: Seq<char>, name: Seq<char>, description: Seq<char>) -> bool {
    &&& encode_utf8(namespace).len() < 0x1_0000_0000_0000_0000
    &&& encode_utf8(name).len() < 0x1_0000_0000_0000_0000
    &&& encode_utf8(description).len() < 0x1_0000_0000_0000_0000
}

/// The row of a declared predicate under a number.
pub open spec fn predicate_declared(
    namespace: Seq<char>,
    p: PredicateDef,
    description: Seq<char>,
    version: u32,
    now: u64,
    id: u32,
) -> PredicateRowModel {
    PredicateDefinition {
        predicate_id: id,
        namespace,
        name: p.name@,
        kind_constraint: match p.kind {
            StatementKindAst::Any => 0u8,
            StatementKindAst::Fact => 1u8,
            StatementKindAst::Preference => 2u8,
            StatementKindAst::Event => 3u8,
        },
        object_type_constraint_byte: match p.object {
            ObjectTypeDecl::Any => 0u8,
            ObjectTypeDecl::Entity => 1u8,
            ObjectTypeDecl::Value => 2u8,
            ObjectTypeDecl::Memory => 3u8,
            ObjectTypeDecl::Statement => 4u8,
        },
        schema_version: version,
        description,
        created_at_unix_nanos: now,
        origin_tag: 0,
        origin_payload: version as u64,
        is_stateful: false,
    }
}

proof fn lemma_predicate_item(
    db: Db,
    namespace: Seq<char>,
    p: PredicateDef,
    version: u32,
    now: u64,
    description: Seq<char>,
) -> (id: u32)
    requires
        db.rows.dom().finite(),
        item_applied(db, namespace, SchemaItem::Predicate(p), version, now) is Ok,
        p.description is Some ==> description == p.description->Some_0@,
        p.description is None ==> description.len() == 0,
        texts_fit(namespace, p.name@, description),
        lookup(db, Table::PredicatesByQname, encode_utf8(namespace + seq![':'] + p.name@)) is None,
    ensures
        registered::<PredicateDefinition>(
            item_applied(db, namespace, SchemaItem::Predicate(p), version, now)->Ok_0,
            namespace + seq![':'] + p.name@,
            id,
            predicate_declared(namespace, p, description, version, now, id),
        ),
{
    let before = db;
    reveal_strlit("");
    assert(crate::schema_apply::description_of(p.description) =~= description);
    let m = declared_predicate(
        namespace,
        p.name@,
        crate::schema_apply::statement_kind_of(p.kind),
        crate::schema_apply::object_byte_of(p.object),
        version,
        description,
        false,
        now,
    );
    assert forall|id: u32| fits::<PredicateDefinition>(#[trigger] <PredicateDefinition as Definition>::numbered(m, id)) by {
        lemma_pow256_values();
        let cells = PredicateDefinition::<String>::cells(<PredicateDefinition as Definition>::numbered(m, id));
        assert forall|c: int| 0 <= c < cells.len() implies cell_fits(#[trigger] cells[c]) by {}
    }
    lemma_registers::<PredicateDefinition>(before, m);
    let (_, id) = interned::<PredicateDefinition>(before, m)->Ok_0;
    let row = <PredicateDefinition as Definition>::numbered(m, id);
    assert(row == predicate_declared(namespace, p, description, version, now, id));
    id
}

/// After a schema was stored, a predicate that it declares under a new name is
/// registered under that name, in the namespace of the schema, with its description
/// and version. Its row allows statements of exactly the kind that was declared (1
/// for facts, 2 for preferences, 3 for events, 0 for all) and the objects that were (1
/// for entities, 2 for values, 3 for memories, 4 for statements, 0 for all), and it
/// holds many values at a time.
pub proof fn lemma_declared_predicate_is_registered(
    db: Db,
    s: Schema,
    source: Seq<u8>,
    now: u64,
    i: int,
    p: PredicateDef,
    description: Seq<char>,
)
    requires
        db.rows.dom().finite(),
        uploaded(db, s, source, now) is Ok,
        0 <= i < s.items@.len(),
        s.items@[i] == SchemaItem::Predicate(p),
        p.description is Some ==> description == p.description->Some_0@,
        p.description is None ==> description.len() == 0,
        texts_fit(s.namespace@, p.name@, description),
        lookup(db, Table::PredicatesByQname, encode_utf8(s.namespace@ + seq![':'] + p.name@)) is None,
        forall|j: int|
            0 <= j < i ==> ((#[trigger] s.items@[j]) matches SchemaItem::Predicate(o) ==> o.name@ != p.name@),
    ensures
        ({
            let (d, version) = uploaded(db, s, source, now)->Ok_0;
            exists|id: u32|
                {
                    &&& lookup(d, Table::PredicatesByQname, encode_utf8(s.namespace@ + seq![':'] + p.name@)) == Some(
                        #[trigger] be(id as nat, 4),
                    )
                    &&& slot::<PredicateDefinition>(d, Table::Predicates, be(id as nat, 4)) matches Slot::Row(m) && {
                        &&& m.predicate_id == id
                        &&& m.namespace == s.namespace@
                        &&& m.name == p.name@
                        &&& m.kind_constraint == match p.kind {
                            StatementKindAst::Any => 0u8,
                            StatementKindAst::Fact => 1u8,
                            StatementKindAst::Preference => 2u8,
                            StatementKindAst::Event => 3u8,
                        }
                        &&& m.object_type_constraint_byte == match p.object {
                            ObjectTypeDecl::Any => 0u8,
                            ObjectTypeDecl::Entity => 1u8,
                            ObjectTypeDecl::Value => 2u8,
                            ObjectTypeDecl::Memory => 3u8,
                            ObjectTypeDecl::Statement => 4u8,
                        }
                        &&& m.schema_version == version
                        &&& m.description == description
                        &&& m.created_at_unix_nanos == now
                        &&& m.origin_tag == 0 && m.origin_payload == version
                        &&& !m.is_stateful
                    }
                }
        }),
{
    let (d, version) = uploaded(db, s, source, now)->Ok_0;
    let start = version_stored(db, s, version, source, now);
    let namespace = s.namespace@;
    let items = s.items@;
    lemma_items_split(start, namespace, items, version, now, i + 1);
    lemma_items_step(start, namespace, items, version, now, i);
    let before = items_applied(start, namespace, items.take(i), version, now)->Ok_0;
    let after = items_applied(start, namespace, items.take(i + 1), version, now)->Ok_0;
    let head = items.take(i);
    assert forall|j: int| 0 <= j < head.len() implies ((#[trigger] head[j]) matches SchemaItem::Predicate(o) ==> o.name@
        != p.name@) by {
        assert(head[j] == items[j]);
    }
    lemma_predicate_stays_free(start, namespace, head, version, now, p.name@);
    lemma_items_keep_finite(start, namespace, head, version, now);
    lemma_item_keeps_finite(before, namespace, items[i], version, now);
    let id = lemma_predicate_item(before, namespace, p, version, now, description);
    let row = predicate_declared(namespace, p, description, version, now, id);
    lemma_predicate_stays(
        after,
        namespace,
        items.skip(i + 1),
        version,
        now,
        namespace + seq![':'] + p.name@,
        id,
        row,
    );
    assert(lookup(d, Table::PredicatesByQname, encode_utf8(namespace + seq![':'] + p.name@)) == Some(be(id as nat, 4)));
}

// Extractors.

proof fn lemma_extractor_stays(
    db: Db,
    namespace: Seq<char>,
    items: Seq<SchemaItem>,
    version: u32,
    now: u64,
    qname: Seq<char>,
    id: u32,
    m: ExtractorModel,
)
    requires
        db.rows.dom().finite(),
        registered::<ExtractorDefinition>(db, qname, id, m),
        m.schema_version == version,
    ensures
        items_applied(db, namespace, items, version, now) matches Ok(d) ==> registered::<ExtractorDefinition>(
            d,
            qname,
            id,
            m,
        ),
    decreases items.len(),
{
    if items.len() > 0 {
        lemma_extractor_stays(db, namespace, items.drop_last(), version, now, qname, id, m);
        lemma_items_keep_finite(db, namespace, items.drop_last(), version, now);
        if let Ok(d) = items_applied(db, namespace, items.drop_last(), version, now) {
            if let SchemaItem::Extractor(p) = items.last() {
                let other = declared_extractor(
                    namespace,
                    p.name@,
                    p.kind,
                    p.enabled,
                    version,
                    p.definition@,
                    now,
                );
                if interned::<ExtractorDefinition>(d, other) is Ok {
                    lemma_stays_registered::<ExtractorDefinition>(d, qname, id, m, other);
                }
            }
        }
    }
}

proof fn lemma_extractor_stays_free(
    db: Db,
    namespace: Seq<char>,
    items: Seq<SchemaItem>,
    version: u32,
    now: u64,
    name: Seq<char>,
)
    requires
        lookup(db, Table::ExtractorsByQname, encode_utf8(namespace + seq![':'] + name)) is None,
        forall|j: int| 0 <= j < items.len() ==> ((#[trigger] items[j]) matches SchemaItem::Extractor(o) ==> o.name@ != name),
    ensures
        items_applied(db, namespace, items, version, now) matches Ok(d) ==> lookup(
            d,
            Table::ExtractorsByQname,
            encode_utf8(namespace + seq![':'] + name),
        ) is None,
    decreases items.len(),
{
    let qname = namespace + seq![':'] + name;
    if items.len() > 0 {
        let head = items.drop_last();
        assert forall|j: int| 0 <= j < head.len() implies ((#[trigger] head[j]) matches SchemaItem::Extractor(o)
            ==> o.name@ != name) by {
            assert(head[j] == items[j]);
        }
        lemma_extractor_stays_free(db, namespace, head, version, now, name);
        if let Ok(d) = items_applied(db, namespace, head, version, now) {
            if let SchemaItem::Extractor(p) = items.last() {
                let other = declared_extractor(
                    namespace,
                    p.name@,
                    p.kind,
                    p.enabled,
                    version,
                    p.definition@,
                    now,
                );
                assert(items[items.len() - 1] == items.last());
                lemma_names_differ(namespace, p.name@, name);
                if interned::<ExtractorDefinition>(d, other) is Ok {
                    lemma_stays_free::<ExtractorDefinition>(d, qname, other);
                }
            }
        }
    }
}

/// The row of a declared extractor under a number.
pub open spec fn extractor_declared(
    namespace: Seq<char>,
    x: ExtractorDef,
    version: u32,
    now: u64,
    id: u32,
) -> ExtractorModel {
    ExtractorDefinition {
        extractor_id: id,
        namespace,
        name: x.name@,
        kind: match x.kind {
            ExtractorKind::Pattern => 0u8,
            ExtractorKind::Classifier => 1u8,
            ExtractorKind::Llm => 2u8,
        },
        enabled: if x.enabled {
            1
        } else {
            0
        },
        schema_version: version,
        definition_blob: x.definition@,
        created_at_unix_nanos: now,
    }
}

proof fn lemma_extractor_item(db: Db, namespace: Seq<char>, x: ExtractorDef, version: u32, now: u64) -> (id: u32)
    requires
        db.rows.dom().finite(),
        item_applied(db, namespace, SchemaItem::Extractor(x), version, now) is Ok,
        texts_fit(namespace, x.name@, Seq::empty()),
        x.definition@.len() < 0x1_0000_0000_0000_0000,
        lookup(db, Table::ExtractorsByQname, encode_utf8(namespace + seq![':'] + x.name@)) is None,
    ensures
        registered::<ExtractorDefinition>(
            item_applied(db, namespace, SchemaItem::Extractor(x), version, now)->Ok_0,
            namespace + seq![':'] + x.name@,
            id,
            extractor_declared(namespace, x, version, now, id),
        ),
{
    let m = declared_extractor(namespace, x.name@, x.kind, x.enabled, version, x.definition@, now);
    assert forall|id: u32| fits::<ExtractorDefinition>(#[trigger] <ExtractorDefinition as Definition>::numbered(m, id)) by {
        lemma_pow256_values();
        let cells = ExtractorDefinition::<String, Vec<u8>>::cells(
            <ExtractorDefinition as Definition>::numbered(m, id),
        );
        assert forall|c: int| 0 <= c < cells.len() implies cell_fits(#[trigger] cells[c]) by {}
    }
    lemma_registers::<ExtractorDefinition>(db, m);
    let (_, id) = interned::<ExtractorDefinition>(db, m)->Ok_0;
    assert(<ExtractorDefinition as Definition>::numbered(m, id) == extractor_declared(namespace, x, version, now, id));
    id
}

/// After a schema was stored, an extractor that it declares under a new name is
/// registered under that name, with the kind (0 by pattern, 1 by classifier, 2 by
/// LLM), the definition and the switch that were declared.
pub proof fn lemma_declared_extractor_is_registered(db: Db, s: Schema, source: Seq<u8>, now: u64, i: int, x: ExtractorDef)
    requires
        db.rows.dom().finite(),
        uploaded(db, s, source, now) is Ok,
        0 <= i < s.items@.len(),
        s.items@[i] == SchemaItem::Extractor(x),
        texts_fit(s.namespace@, x.name@, Seq::empty()),
        x.definition@.len() < 0x1_0000_0000_0000_0000,
        lookup(db, Table::ExtractorsByQname, encode_utf8(s.namespace@ + seq![':'] + x.name@)) is None,
        forall|j: int|
            0 <= j < i ==> ((#[trigger] s.items@[j]) matches SchemaItem::Extractor(o) ==> o.name@ != x.name@),
    ensures
        ({
            let (d, version) = uploaded(db, s, source, now)->Ok_0;
            exists|id: u32|
                {
                    &&& lookup(d, Table::ExtractorsByQname, encode_utf8(s.namespace@ + seq![':'] + x.name@)) == Some(
                        #[trigger] be(id as nat, 4),
                    )
                    &&& slot::<ExtractorDefinition>(d, Table::Extractors, be(id as nat, 4)) == Slot::Row(
                        extractor_declared(s.namespace@, x, version, now, id),
                    )
                }
        }),
{
    let (d, version) = uploaded(db, s, source, now)->Ok_0;
    let start = version_stored(db, s, version, source, now);
    let namespace = s.namespace@;
    let items = s.items@;
    lemma_items_split(start, namespace, items, version, now, i + 1);
    lemma_items_step(start, namespace, items, version, now, i);
    let before = items_applied(start, namespace, items.take(i), version, now)->Ok_0;
    let after = items_applied(start, namespace, items.take(i + 1), version, now)->Ok_0;
    let head = items.take(i);
    assert forall|j: int| 0 <= j < head.len() implies ((#[trigger] head[j]) matches SchemaItem::Extractor(o) ==> o.name@
        != x.name@) by {
        assert(head[j] == items[j]);
    }
    lemma_extractor_stays_free(start, namespace, head, version, now, x.name@);
    lemma_items_keep_finite(start, namespace, head, version, now);
    lemma_item_keeps_finite(before, namespace, items[i], version, now);
    let id = lemma_extractor_item(before, namespace, x, version, now);
    lemma_extractor_stays(
        after,
        namespace,
        items.skip(i + 1),
        version,
        now,
        namespace + seq![':'] + x.name@,
        id,
        extractor_declared(namespace, x, version, now, id),
    );
    assert(lookup(d, Table::ExtractorsByQname, encode_utf8(namespace + seq![':'] + x.name@)) == Some(be(id as nat, 4)));
}

// Relation types.

proof fn lemma_relation_type_stays(
    db: Db,
    namespace: Seq<char>,
    items: Seq<SchemaItem>,
    version: u32,
    now: u64,
    qname: Seq<char>,
    id: u32,
    m: RelationTypeModel,
)
    requires
        db.rows.dom().finite(),
        registered::<RelationTypeDefinition>(db, qname, id, m),
        m.schema_version == version,
    ensures
        items_applied(db, namespace, items, version, now) matches Ok(d) ==> registered::<RelationTypeDefinition>(
            d,
            qname,
            id,
            m,
        ),
    decreases items.len(),
{
    if items.len() > 0 {
        lemma_relation_type_stays(db, namespace, items.drop_last(), version, now, qname, id, m);
        lemma_items_keep_finite(db, namespace, items.drop_last(), version, now);
        if let Ok(d) = items_applied(db, namespace, items.drop_last(), version, now) {
            if let SchemaItem::RelationType(p) = items.last() {
                let other = declared_relation_type(
                    namespace,
                    p.name@,
                    resolved_type(d, p.from_type@)->Ok_0,
                    resolved_type(d, p.to_type@)->Ok_0,
                    crate::schema_apply::cardinality_of(p.cardinality),
                    p.symmetric,
                    version,
                    crate::schema_apply::description_of(p.description),
                    now,
                );
                if interned::<RelationTypeDefinition>(d, other) is Ok {
                    lemma_stays_registered::<RelationTypeDefinition>(d, qname, id, m, other);
                }
            }
        }
    }
}

proof fn lemma_relation_type_stays_free(
    db: Db,
    namespace: Seq<char>,
    items: Seq<SchemaItem>,
    version: u32,
    now: u64,
    name: Seq<char>,
)
    requires
        lookup(db, Table::RelationTypesByQname, encode_utf8(namespace + seq![':'] + name)) is None,
        forall|j: int| 0 <= j < items.len() ==> ((#[trigger] items[j]) matches SchemaItem::RelationType(o) ==> o.name@ != name),
    ensures
        items_applied(db, namespace, items, version, now) matches Ok(d) ==> lookup(
            d,
            Table::RelationTypesByQname,
            encode_utf8(namespace + seq![':'] + name),
        ) is None,
    decreases items.len(),
{
    let qname = namespace + seq![':'] + name;
    if items.len() > 0 {
        let head = items.drop_last();
        assert forall|j: int| 0 <= j < head.len() implies ((#[trigger] head[j]) matches SchemaItem::RelationType(o)
            ==> o.name@ != name) by {
            assert(head[j] == items[j]);
        }
        lemma_relation_type_stays_free(db, namespace, head, version, now, name);
        if let Ok(d) = items_applied(db, namespace, head, version, now) {
            if let SchemaItem::RelationType(p) = items.last() {
                let other = declared_relation_type(
                    namespace,
                    p.name@,
                    resolved_type(d, p.from_type@)->Ok_0,
                    resolved_type(d, p.to_type@)->Ok_0,
                    crate::schema_apply::cardinality_of(p.cardinality),
                    p.symmetric,
                    version,
                    crate::schema_apply::description_of(p.description),
                    now,
                );
                assert(items[items.len() - 1] == items.last());
                lemma_names_differ(namespace, p.name@, name);
                if interned::<RelationTypeDefinition>(d, other) is Ok {
                    lemma_stays_free::<RelationTypeDefinition>(d, qname, other);
                }
            }
        }
    }
}

/// The row of a declared relation type under a number, between entity types that are
/// named by number, 0 for any.
pub open spec fn relation_type_declared(
    namespace: Seq<char>,
    t: RelationTypeDef,
    from: u32,
    to: u32,
    description: Seq<char>,
    version: u32,
    now: u64,
    id: u32,
) -> RelationTypeModel {
    RelationTypeDefinition {
        relation_type_id: id,
        namespace,
        name: t.name@,
        cardinality: match t.cardinality {
            CardinalityAst::OneToOne => 0u8,
            CardinalityAst::OneToMany => 1u8,
            CardinalityAst::ManyToOne => 2u8,
            CardinalityAst::ManyToMany => 3u8,
        },
        is_symmetric: if t.symmetric {
            1
        } else {
            0
        },
        from_entity_type_id: from,
        to_entity_type_id: to,
        schema_version: version,
        description,
        created_at_unix_nanos: now,
        origin_tag: 0,
        origin_payload: version as u64,
    }
}

/// A number stands for the entity type with a name: 0 if the name is `Any` or if
/// there is no such type, else the number of one that has the name.
pub open spec fn stands_for_type(db: Db, name: Seq<char>, number: u32) -> bool {
    if name == "Any"@ {
        number == 0
    } else {
        ||| number == 0 && forall|k: Seq<u8>|
            (#[trigger] slot::<EntityTypeDefinition>(db, Table::EntityTypes, k)) matches Slot::Row(e) ==> e.name != name
        ||| exists|k: Seq<u8>|
            (#[trigger] slot::<EntityTypeDefinition>(db, Table::EntityTypes, k)) matches Slot::Row(e) && e.name == name
                && e.entity_type_id == number
    }
}

/// The first entity type with a name is one of that name; where there is none, no entity
/// type has it.
pub proof fn lemma_type_named(all: Seq<EntityTypeModel>, name: Seq<char>)
    ensures
        match type_named(all, name) {
            Some(m) => all.contains(m) && m.name == name,
            None => forall|m: EntityTypeModel| #[trigger] all.contains(m) ==> m.name != name,
        },
    decreases all.len(),
{
    if all.len() > 0 {
        let head = all.drop_last();
        lemma_type_named(head, name);
        assert(all =~= head.push(all.last()));
        assert forall|m: EntityTypeModel| head.contains(m) implies #[trigger] all.contains(m) by {
            let i = head.index_of(m);
            assert(all[i] == m);
        }
        assert(all[all.len() - 1] == all.last());
        assert(all.contains(all.last()));
        assert forall|m: EntityTypeModel| #[trigger] all.contains(m) && m != all.last() implies head.contains(m) by {
            let i = all.index_of(m);
            assert(head[i] == m);
        }
    }
}

/// The entity type that a declaration names is one of that name.
pub proof fn lemma_resolved_type(db: Db, name: Seq<char>)
    requires
        db.rows.dom().finite(),
        resolved_type(db, name) is Ok,
    ensures
        stands_for_type(
            db,
            name,
            match resolved_type(db, name)->Ok_0 {
                Some(x) => x.0,
                None => 0,
            },
        ),
{
    if name != "Any"@ {
        let entries = scan(db, Table::EntityTypes, Seq::empty());
        lemma_scan_exists(db, Table::EntityTypes, Seq::empty());
        let f = |kv: (Seq<u8>, Seq<u8>)| row_in::<EntityTypeDefinition>(kv);
        let all = all_rows::<EntityTypeDefinition>(db, Table::EntityTypes)->Ok_0;
        lemma_type_named(all, name);
        if let Some(m) = type_named(all, name) {
            lemma_collect_members(entries, f, m);
            let i = choose|i: int| 0 <= i < entries.len() && f(#[trigger] entries[i]) == Ok::<_, Refusal>(Some(m));
            assert(lookup(db, Table::EntityTypes, entries[i].0) == Some(entries[i].1));
            assert(slot::<EntityTypeDefinition>(db, Table::EntityTypes, entries[i].0) == Slot::Row(m));
        } else {
            assert forall|k: Seq<u8>|
                (#[trigger] slot::<EntityTypeDefinition>(db, Table::EntityTypes, k)) matches Slot::Row(e) implies slot::<
                EntityTypeDefinition,
            >(db, Table::EntityTypes, k)->Row_0.name != name by {
                let e = slot::<EntityTypeDefinition>(db, Table::EntityTypes, k)->Row_0;
                assert(k.take(0) =~= Seq::<u8>::empty());
                assert(db.dom().contains((Table::EntityTypes, k)));
                let i = choose|i: int| 0 <= i < entries.len() && (#[trigger] entries[i]).0 == k;
                lemma_collect_members(entries, f, e);
                assert(f(entries[i]) == Ok::<_, Refusal>(Some(e)));
                assert(all.contains(e));
            }
        }
    }
}

proof fn lemma_relation_type_item(
    db: Db,
    namespace: Seq<char>,
    t: RelationTypeDef,
    version: u32,
    now: u64,
    description: Seq<char>,
) -> (r: (u32, u32, u32))
    requires
        db.rows.dom().finite(),
        item_applied(db, namespace, SchemaItem::RelationType(t), version, now) is Ok,
        t.description is Some ==> description == t.description->Some_0@,
        t.description is None ==> description.len() == 0,
        texts_fit(namespace, t.name@, description),
        lookup(db, Table::RelationTypesByQname, encode_utf8(namespace + seq![':'] + t.name@)) is None,
    ensures
        registered::<RelationTypeDefinition>(
            item_applied(db, namespace, SchemaItem::RelationType(t), version, now)->Ok_0,
            namespace + seq![':'] + t.name@,
            r.0,
            relation_type_declared(namespace, t, r.1, r.2, description, version, now, r.0),
        ),
        stands_for_type(db, t.from_type@, r.1),
        stands_for_type(db, t.to_type@, r.2),
{
    reveal_strlit("");
    assert(crate::schema_apply::description_of(t.description) =~= description);
    let from = resolved_type(db, t.from_type@)->Ok_0;
    let to = resolved_type(db, t.to_type@)->Ok_0;
    lemma_resolved_type(db, t.from_type@);
    lemma_resolved_type(db, t.to_type@);
    let m = declared_relation_type(
        namespace,
        t.name@,
        from,
        to,
        crate::schema_apply::cardinality_of(t.cardinality),
        t.symmetric,
        version,
        description,
        now,
    );
    assert forall|id: u32|
        fits::<RelationTypeDefinition>(#[trigger] <RelationTypeDefinition as Definition>::numbered(m, id)) by {
        lemma_pow256_values();
        let cells = RelationTypeDefinition::<String>::cells(<RelationTypeDefinition as Definition>::numbered(m, id));
        assert forall|c: int| 0 <= c < cells.len() implies cell_fits(#[trigger] cells[c]) by {}
    }
    lemma_registers::<RelationTypeDefinition>(db, m);
    let (_, id) = interned::<RelationTypeDefinition>(db, m)->Ok_0;
    let a = match from {
        Some(x) => x.0,
        None => 0u32,
    };
    let b = match to {
        Some(x) => x.0,
        None => 0u32,
    };
    assert(<RelationTypeDefinition as Definition>::numbered(m, id) == relation_type_declared(
        namespace,
        t,
        a,
        b,
        description,
        version,
        now,
        id,
    ));
    (id, a, b)
}

/// After a schema was stored, a relation type that it declares under a new name is
/// registered under that name, with the cardinality (0 one to one, 1 one to many, 2
/// many to one, 3 many to many), the symmetry and the description that were declared,
/// between the entity types that were named, as far as the items before it define
/// them.
pub proof fn lemma_declared_relation_type_is_registered(
    db: Db,
    s: Schema,
    source: Seq<u8>,
    now: u64,
    i: int,
    t: RelationTypeDef,
    description: Seq<char>,
)
    requires
        db.rows.dom().finite(),
        uploaded(db, s, source, now) is Ok,
        0 <= i < s.items@.len(),
        s.items@[i] == SchemaItem::RelationType(t),
        t.description is Some ==> description == t.description->Some_0@,
        t.description is None ==> description.len() == 0,
        texts_fit(s.namespace@, t.name@, description),
        lookup(db, Table::RelationTypesByQname, encode_utf8(s.namespace@ + seq![':'] + t.name@)) is None,
        forall|j: int|
            0 <= j < i ==> ((#[trigger] s.items@[j]) matches SchemaItem::RelationType(o) ==> o.name@ != t.name@),
    ensures
        ({
            let (d, version) = uploaded(db, s, source, now)->Ok_0;
            let before = items_applied(
                version_stored(db, s, version, source, now),
                s.namespace@,
                s.items@.take(i),
                version,
                now,
            )->Ok_0;
            exists|id: u32, from: u32, to: u32|
                {
                    &&& lookup(d, Table::RelationTypesByQname, encode_utf8(s.namespace@ + seq![':'] + t.name@)) == Some(
                        be(id as nat, 4),
                    )
                    &&& slot::<RelationTypeDefinition>(d, Table::RelationTypes, be(id as nat, 4)) == Slot::Row(
                        #[trigger] relation_type_declared(s.namespace@, t, from, to, description, version, now, id),
                    )
                    &&& stands_for_type(before, t.from_type@, from)
                    &&& stands_for_type(before, t.to_type@, to)
                }
        }),
{
    let (d, version) = uploaded(db, s, source, now)->Ok_0;
    let start = version_stored(db, s, version, source, now);
    let namespace = s.namespace@;
    let items = s.items@;
    lemma_items_split(start, namespace, items, version, now, i + 1);
    lemma_items_step(start, namespace, items, version, now, i);
    let before = items_applied(start, namespace, items.take(i), version, now)->Ok_0;
    let after = items_applied(start, namespace, items.take(i + 1), version, now)->Ok_0;
    let head = items.take(i);
    assert forall|j: int| 0 <= j < head.len() implies ((#[trigger] head[j]) matches SchemaItem::RelationType(o)
        ==> o.name@ != t.name@) by {
        assert(head[j] == items[j]);
    }
    lemma_relation_type_stays_free(start, namespace, head, version, now, t.name@);
    lemma_items_keep_finite(start, namespace, head, version, now);
    lemma_item_keeps_finite(before, namespace, items[i], version, now);
    let (id, from, to) = lemma_relation_type_item(before, namespace, t, version, now, description);
    let row = relation_type_declared(namespace, t, from, to, description, version, now, id);
    lemma_relation_type_stays(
        after,
        namespace,
        items.skip(i + 1),
        version,
        now,
        namespace + seq![':'] + t.name@,
        id,
        row,
    );
    assert(slot::<RelationTypeDefinition>(d, Table::RelationTypes, be(id as nat, 4)) == Slot::Row(row));
}

// Entity types.

proof fn lemma_entity_type_stays(
    db: Db,
    namespace: Seq<char>,
    items: Seq<SchemaItem>,
    version: u32,
    now: u64,
    k: Seq<u8>,
)
    requires
        db.rows.dom().finite(),
        lookup(db, Table::EntityTypes, k) is Some,
    ensures
        items_applied(db, namespace, items, version, now) matches Ok(d) ==> lookup(d, Table::EntityTypes, k) == lookup(
            db,
            Table::EntityTypes,
            k,
        ),
    decreases items.len(),
{
    if items.len() > 0 {
        lemma_entity_type_stays(db, namespace, items.drop_last(), version, now, k);
        lemma_items_keep_finite(db, namespace, items.drop_last(), version, now);
        if let Ok(d) = items_applied(db, namespace, items.drop_last(), version, now) {
            if let SchemaItem::EntityType(_) = items.last() {
                if next_number(d, Table::EntityTypes) is Ok {
                    lemma_next_number_is_free(d, Table::EntityTypes);
                }
            }
        }
    }
}

/// After a schema was stored, every entity type that it declares is there by its
/// name, with nothing but its name to it, and no entity type that was there before
/// has changed.
pub proof fn lemma_declared_entity_type_is_registered(
    db: Db,
    s: Schema,
    source: Seq<u8>,
    now: u64,
    i: int,
    e: EntityTypeDef,
    k: Seq<u8>,
)
    requires
        db.rows.dom().finite(),
        uploaded(db, s, source, now) is Ok,
        0 <= i < s.items@.len(),
        s.items@[i] == SchemaItem::EntityType(e),
        encode_utf8(e.name@).len() < 0x1_0000_0000_0000_0000,
    ensures
        ({
            let d = uploaded(db, s, source, now)->Ok_0.0;
            &&& exists|key: Seq<u8>|
                (#[trigger] slot::<EntityTypeDefinition>(d, Table::EntityTypes, key)) matches Slot::Row(m) && m.name
                    == e.name@ && m.schema_blob.len() == 0
            &&& lookup(db, Table::EntityTypes, k) is Some ==> lookup(d, Table::EntityTypes, k) == lookup(
                db,
                Table::EntityTypes,
                k,
            )
        }),
{
    let (d, version) = uploaded(db, s, source, now)->Ok_0;
    let start = version_stored(db, s, version, source, now);
    let namespace = s.namespace@;
    let items = s.items@;
    lemma_items_split(start, namespace, items, version, now, i + 1);
    lemma_items_step(start, namespace, items, version, now, i);
    let before = items_applied(start, namespace, items.take(i), version, now)->Ok_0;
    let after = items_applied(start, namespace, items.take(i + 1), version, now)->Ok_0;
    lemma_items_keep_finite(start, namespace, items.take(i), version, now);
    lemma_item_keeps_finite(before, namespace, items[i], version, now);
    let key = lemma_entity_type_item(before, namespace, e, version, now);
    lemma_entity_type_stays(after, namespace, items.skip(i + 1), version, now, key);
    assert(slot::<EntityTypeDefinition>(d, Table::EntityTypes, key) == slot::<EntityTypeDefinition>(
        after,
        Table::EntityTypes,
        key,
    ));
    if lookup(db, Table::EntityTypes, k) is Some {
        lemma_entity_type_stays(start, namespace, items, version, now, k);
    }
}

proof fn lemma_entity_type_item(db: Db, namespace: Seq<char>, e: EntityTypeDef, version: u32, now: u64) -> (key: Seq<u8>)
    requires
        db.rows.dom().finite(),
        item_applied(db, namespace, SchemaItem::EntityType(e), version, now) is Ok,
        encode_utf8(e.name@).len() < 0x1_0000_0000_0000_0000,
    ensures
        slot::<EntityTypeDefinition>(
            item_applied(db, namespace, SchemaItem::EntityType(e), version, now)->Ok_0,
            Table::EntityTypes,
            key,
        ) matches Slot::Row(m) && m.name == e.name@ && m.schema_blob.len() == 0,
{
    let entries = scan(db, Table::EntityTypes, Seq::empty());
    lemma_scan_exists(db, Table::EntityTypes, Seq::empty());
    let f = |kv: (Seq<u8>, Seq<u8>)| row_in::<EntityTypeDefinition>(kv);
    let all = all_rows::<EntityTypeDefinition>(db, Table::EntityTypes)->Ok_0;
    lemma_type_named(all, e.name@);
    if let Some(m) = type_named(all, e.name@) {
        lemma_collect_members(entries, f, m);
        let i = choose|i: int| 0 <= i < entries.len() && f(#[trigger] entries[i]) == Ok::<_, Refusal>(Some(m));
        assert(lookup(db, Table::EntityTypes, entries[i].0) == Some(entries[i].1));
        entries[i].0
    } else {
        let id = next_number(db, Table::EntityTypes)->Ok_0;
        let m = EntityTypeDefinition {
            entity_type_id: id,
            name: e.name@,
            schema_blob: Seq::<u8>::empty(),
            created_at_unix_nanos: now,
        };
        lemma_pow256_values();
        let cells = EntityTypeDefinition::<String, Vec<u8>>::cells(m);
        assert forall|c: int| 0 <= c < cells.len() implies cell_fits(#[trigger] cells[c]) by {}
        lemma_parsed::<EntityTypeDefinition>(m);
        be(id as nat, 4)
    }
}

} // verus!
