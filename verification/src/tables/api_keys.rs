//! Credentials.

use vstd::prelude::*;

use crate::cells::{cell_models, Cell};
use crate::row::{
    array_at, blob_cell, flag, flag_at, flag_cell, group_row_fields, int_at, int_cell, text, text_at, text_cell,
    u32_at, CellModel, Row,
};

pub mod permissions;

verus! {

/// A row of the `api_keys` table.
/// The secret itself is nowhere; a client presents it and its hash is looked up.
#[derive(Clone, Debug, PartialEq)]
pub struct ApiKeyRow<T = String> {
    /// The hash of the secret, which is also the key of the row.
    pub key_hash: [u8; 32],
    pub org_id: [u8; 16],
    /// Zero if the key belongs to no user.
    pub user_id: [u8; 16],
    /// The namespace that the key may address; empty for any.
    pub namespace: T,
    /// The agent that the key acts as.
    pub agent_id: [u8; 16],
    /// See [`permissions`].
    pub permissions: u32,
    pub created_at_unix_nanos: u64,
    /// Zero if the key was never used.
    pub last_used_at_unix_nanos: u64,
    /// A revoked key stays for the record and is refused.
    pub revoked: bool,
}

impl Row for ApiKeyRow {
    type M = ApiKeyRow<Seq<char>>;

    open spec fn model(&self) -> ApiKeyRow<Seq<char>> {
        ApiKeyRow {
            key_hash: self.key_hash,
            org_id: self.org_id,
            user_id: self.user_id,
            namespace: self.namespace@,
            agent_id: self.agent_id,
            permissions: self.permissions,
            created_at_unix_nanos: self.created_at_unix_nanos,
            last_used_at_unix_nanos: self.last_used_at_unix_nanos,
            revoked: self.revoked,
        }
    }

    open spec fn cells(m: ApiKeyRow<Seq<char>>) -> Seq<CellModel> {
        seq![
            Cell::Blob(m.key_hash@),
            Cell::Blob(m.org_id@),
            Cell::Blob(m.user_id@),
            text(m.namespace),
            Cell::Blob(m.agent_id@),
            Cell::Int(m.permissions as u64),
            Cell::Int(m.created_at_unix_nanos),
            Cell::Int(m.last_used_at_unix_nanos),
            flag(m.revoked),
        ]
    }

    proof fn cells_injective(a: ApiKeyRow<Seq<char>>, b: ApiKeyRow<Seq<char>>) {
        broadcast use group_row_fields;

        let x = Self::cells(a);
        let y = Self::cells(b);
        assert(x[0] == y[0]
            && x[1] == y[1]
            && x[2] == y[2]
            && x[3] == y[3]
            && x[4] == y[4]
            && x[5] == y[5]
            && x[6] == y[6]
            && x[7] == y[7]
            && x[8] == y[8]);
        assert(a.key_hash@ == b.key_hash@);
        assert(a.org_id@ == b.org_id@);
        assert(a.user_id@ == b.user_id@);
        assert(a.agent_id@ == b.agent_id@);
    }

    fn to_cells(&self) -> (r: Vec<Cell<Vec<u8>>>) {
        let cells: Vec<Cell<Vec<u8>>> = vec![
            blob_cell(self.key_hash.as_slice()),
            blob_cell(self.org_id.as_slice()),
            blob_cell(self.user_id.as_slice()),
            text_cell(&self.namespace),
            blob_cell(self.agent_id.as_slice()),
            int_cell(self.permissions as u64),
            int_cell(self.created_at_unix_nanos),
            int_cell(self.last_used_at_unix_nanos),
            flag_cell(self.revoked),
        ];
        proof {
            assert(cell_models(cells@) =~= Self::cells(self.model()));
        }
        cells
    }

    fn from_cells(cells: &Vec<Cell<Vec<u8>>>) -> (r: Option<Self>) {
        if cells.len() != 9 {
            proof {
                assert forall|m: ApiKeyRow<Seq<char>>| #[trigger] Self::cells(m) != cell_models(cells@) by {
                    assert(Self::cells(m).len() == 9);
                }
            }
            return None;
        }
        let key_hash = match array_at::<32>(cells, 0) {
            Some(x) => x,
            None => return None,
        };
        let org_id = match array_at::<16>(cells, 1) {
            Some(x) => x,
            None => return None,
        };
        let user_id = match array_at::<16>(cells, 2) {
            Some(x) => x,
            None => return None,
        };
        let namespace = match text_at(cells, 3) {
            Some(x) => x,
            None => return None,
        };
        let agent_id = match array_at::<16>(cells, 4) {
            Some(x) => x,
            None => return None,
        };
        let permissions = match u32_at(cells, 5) {
            Some(x) => x,
            None => return None,
        };
        let created_at_unix_nanos = match int_at(cells, 6) {
            Some(x) => x,
            None => return None,
        };
        let last_used_at_unix_nanos = match int_at(cells, 7) {
            Some(x) => x,
            None => return None,
        };
        let revoked = match flag_at(cells, 8) {
            Some(x) => x,
            None => return None,
        };
        let row = ApiKeyRow {
            key_hash,
            org_id,
            user_id,
            namespace,
            agent_id,
            permissions,
            created_at_unix_nanos,
            last_used_at_unix_nanos,
            revoked,
        };
        proof {
            assert(Self::cells(row.model()) =~= cell_models(cells@));
        }
        Some(row)
    }
}

impl ApiKeyRow {
    /// A key that was never used and is not revoked.
    #[must_use]
    pub fn new(
        key_hash: [u8; 32],
        org_id: [u8; 16],
        user_id: [u8; 16],
        namespace: String,
        agent_id: [u8; 16],
        permissions: u32,
        created_at_unix_nanos: u64,
    ) -> (r: Self)
        ensures
            r.model() == (ApiKeyRow::<Seq<char>> {
                key_hash,
                org_id,
                user_id,
                namespace: namespace@,
                agent_id,
                permissions,
                created_at_unix_nanos,
                last_used_at_unix_nanos: 0,
                revoked: false,
            }),
    {
        ApiKeyRow {
            key_hash,
            org_id,
            user_id,
            namespace,
            agent_id,
            permissions,
            created_at_unix_nanos,
            last_used_at_unix_nanos: 0,
            revoked: false,
        }
    }

    /// Whether the key has every permission in `op`.
    #[must_use]
    pub fn allows(&self, op: u32) -> (r: bool)
        ensures
            r == permitted(self.permissions, op),
    {
        self.permissions & op == op
    }
}

/// Whether every bit of `op` is granted.
pub open spec fn permitted(permissions: u32, op: u32) -> bool {
    permissions & op == op
}

/// A request is permitted exactly if each part of it is.
pub proof fn lemma_permitted_parts(permissions: u32, a: u32, b: u32)
    ensures
        permitted(permissions, a | b) <==> permitted(permissions, a) && permitted(permissions, b),
{
    assert((permissions & (a | b) == a | b) <==> (permissions & a == a && permissions & b == b)) by (bit_vector);
}

/// More permissions permit no less.
pub proof fn lemma_permitted_grows(permissions: u32, more: u32, op: u32)
    requires
        permitted(permissions, op),
    ensures
        permitted(permissions | more, op),
{
    assert(permissions & op == op ==> (permissions | more) & op == op) by (bit_vector);
}

} // verus!
