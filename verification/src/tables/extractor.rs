//! Extractors.

use vstd::prelude::*;

use crate::cells::{cell_models, Cell};
use crate::row::{
    blob_cell, bytes_at, copy_text, group_row_fields, int_at, int_cell, text, text_at, text_cell, u32_at, u8_at,
    CellModel, Row,
};
use crate::types::ExtractorId;
use vstd::string::StringExecFns;

verus! {

/// How an extractor works.
#[derive(Clone, Copy, Debug, PartialEq, Eq, Structural)]
pub enum ExtractorKind {
    Pattern,
    Classifier,
    Llm,
}

impl ExtractorKind {
    pub open spec fn byte(self) -> u8 {
        match self {
            ExtractorKind::Pattern => 0,
            ExtractorKind::Classifier => 1,
            ExtractorKind::Llm => 2,
        }
    }

    pub open spec fn of_byte(b: u8) -> Option<ExtractorKind> {
        if b == 0 {
            Some(ExtractorKind::Pattern)
        } else if b == 1 {
            Some(ExtractorKind::Classifier)
        } else if b == 2 {
            Some(ExtractorKind::Llm)
        } else {
            None
        }
    }

    pub fn as_u8(self) -> (r: u8)
        ensures
            r == self.byte(),
    {
        match self {
            ExtractorKind::Pattern => 0,
            ExtractorKind::Classifier => 1,
            ExtractorKind::Llm => 2,
        }
    }

    pub fn from_u8(b: u8) -> (r: Option<ExtractorKind>)
        ensures
            r == ExtractorKind::of_byte(b),
    {
        match b {
            0 => Some(ExtractorKind::Pattern),
            1 => Some(ExtractorKind::Classifier),
            2 => Some(ExtractorKind::Llm),
            _ => None,
        }
    }
}

/// A row of the `extractors` table. Namespace and name together are unique.
#[derive(Clone, Debug, PartialEq)]
pub struct ExtractorDefinition<T = String, B = Vec<u8>> {
    pub extractor_id: u32,
    pub namespace: T,
    pub name: T,
    /// The byte of the [`ExtractorKind`].
    pub kind: u8,
    pub enabled: u8,
    pub schema_version: u32,
    /// The definition, opaque here.
    pub definition_blob: B,
    pub created_at_unix_nanos: u64,
}

impl Row for ExtractorDefinition {
    type M = ExtractorDefinition<Seq<char>, Seq<u8>>;

    open spec fn model(&self) -> ExtractorDefinition<Seq<char>, Seq<u8>> {
        ExtractorDefinition {
            extractor_id: self.extractor_id,
            namespace: self.namespace@,
            name: self.name@,
            kind: self.kind,
            enabled: self.enabled,
            schema_version: self.schema_version,
            definition_blob: self.definition_blob@,
            created_at_unix_nanos: self.created_at_unix_nanos,
        }
    }

    open spec fn cells(m: ExtractorDefinition<Seq<char>, Seq<u8>>) -> Seq<CellModel> {
        seq![
            Cell::Int(m.extractor_id as u64),
            text(m.namespace),
            text(m.name),
            Cell::Int(m.kind as u64),
            Cell::Int(m.enabled as u64),
            Cell::Int(m.schema_version as u64),
            Cell::Blob(m.definition_blob),
            Cell::Int(m.created_at_unix_nanos),
        ]
    }

    proof fn cells_injective(a: ExtractorDefinition<Seq<char>, Seq<u8>>, b: ExtractorDefinition<Seq<char>, Seq<u8>>) {
        broadcast use group_row_fields;

        let x = Self::cells(a);
        let y = Self::cells(b);
        assert(x[0] == y[0]
            && x[1] == y[1]
            && x[2] == y[2]
            && x[3] == y[3]
            && x[4] == y[4]
            && x[5] == y[5]
            && x[6] == y[6]
            && x[7] == y[7]);
    }

    fn to_cells(&self) -> (r: Vec<Cell<Vec<u8>>>) {
        let cells: Vec<Cell<Vec<u8>>> = vec![
            int_cell(self.extractor_id as u64),
            text_cell(&self.namespace),
            text_cell(&self.name),
            int_cell(self.kind as u64),
            int_cell(self.enabled as u64),
            int_cell(self.schema_version as u64),
            blob_cell(self.definition_blob.as_slice()),
            int_cell(self.created_at_unix_nanos),
        ];
        proof {
            assert(cell_models(cells@) =~= Self::cells(self.model()));
        }
        cells
    }

    fn from_cells(cells: &Vec<Cell<Vec<u8>>>) -> (r: Option<Self>) {
        if cells.len() != 8 {
            proof {
                assert forall|m: ExtractorDefinition<Seq<char>, Seq<u8>>| #[trigger] Self::cells(m) != cell_models(cells@) by {
                    assert(Self::cells(m).len() == 8);
                }
            }
            return None;
        }
        let extractor_id = match u32_at(cells, 0) {
            Some(x) => x,
            None => return None,
        };
        let namespace = match text_at(cells, 1) {
            Some(x) => x,
            None => return None,
        };
        let name = match text_at(cells, 2) {
            Some(x) => x,
            None => return None,
        };
        let kind = match u8_at(cells, 3) {
            Some(x) => x,
            None => return None,
        };
        let enabled = match u8_at(cells, 4) {
            Some(x) => x,
            None => return None,
        };
        let schema_version = match u32_at(cells, 5) {
            Some(x) => x,
            None => return None,
        };
        let definition_blob = match bytes_at(cells, 6) {
            Some(x) => x,
            None => return None,
        };
        let created_at_unix_nanos = match int_at(cells, 7) {
            Some(x) => x,
            None => return None,
        };
        let row = ExtractorDefinition {
            extractor_id,
            namespace,
            name,
            kind,
            enabled,
            schema_version,
            definition_blob,
            created_at_unix_nanos,
        };
        proof {
            assert(Self::cells(row.model()) =~= cell_models(cells@));
        }
        Some(row)
    }
}

/// A definition as it is spoken of.
pub type ExtractorModel = ExtractorDefinition<Seq<char>, Seq<u8>>;

/// A qualified name.
pub open spec fn qualified(namespace: Seq<char>, name: Seq<char>) -> Seq<char> {
    namespace + seq![':'] + name
}

/// A qualified name.
pub fn make_qualified(namespace: &String, name: &String) -> (r: String)
    ensures
        r@ == qualified(namespace@, name@),
{
    proof {
        reveal_strlit(":");
        assert(":"@ =~= seq![':']);
    }
    let mut s = copy_text(namespace);
    s.append(":");
    s.append(name.as_str());
    s
}

impl ExtractorDefinition {
    #[must_use]
    pub fn new(
        id: ExtractorId,
        namespace: String,
        name: String,
        kind: ExtractorKind,
        enabled: bool,
        schema_version: u32,
        definition_blob: Vec<u8>,
        created_at_unix_nanos: u64,
    ) -> (r: Self)
        ensures
            r.model() == (ExtractorModel {
                extractor_id: id.0,
                namespace: namespace@,
                name: name@,
                kind: kind.byte(),
                enabled: if enabled {
                    1u8
                } else {
                    0u8
                },
                schema_version,
                definition_blob: definition_blob@,
                created_at_unix_nanos,
            }),
    {
        let enabled_byte: u8 = if enabled {
            1
        } else {
            0
        };
        ExtractorDefinition {
            extractor_id: id.0,
            namespace,
            name,
            kind: kind.as_u8(),
            enabled: enabled_byte,
            schema_version,
            definition_blob,
            created_at_unix_nanos,
        }
    }

    #[must_use]
    pub fn id(&self) -> (r: ExtractorId)
        ensures
            r == ExtractorId(self.extractor_id),
    {
        ExtractorId(self.extractor_id)
    }

    #[must_use]
    pub fn kind(&self) -> (r: Option<ExtractorKind>)
        ensures
            r == ExtractorKind::of_byte(self.kind),
    {
        ExtractorKind::from_u8(self.kind)
    }

    #[must_use]
    pub fn is_enabled(&self) -> (r: bool)
        ensures
            r == (self.enabled != 0),
    {
        self.enabled != 0
    }

    /// The namespace and the name, with a colon between.
    #[must_use]
    pub fn qname(&self) -> (r: String)
        ensures
            r@ == qualified(self.namespace@, self.name@),
    {
        make_qualified(&self.namespace, &self.name)
    }
}

} // verus!
