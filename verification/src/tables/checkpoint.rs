//! Checkpoints.

use redb::ReadTransaction;
use vstd::prelude::*;

use crate::bytes::{be, lemma_be_injective, lemma_be_order, lemma_pow256_values, put_be};
use crate::catalog::Table;
use crate::cells::{cell_models, Cell};
use crate::order::lex_lt;
use crate::row::{from_bytes, group_row_fields, int_at, int_cell, parsed, slot, CellModel, LoadError, Row, Slot};
use crate::store::{lemma_scan_exists, lookup, opened, rdb, read_prefix, scan, scanned, Db};

verus! {

/// A row of the `checkpoints` table.
#[derive(Clone, Copy, Debug, PartialEq, Eq, Structural)]
pub struct CheckpointMeta {
    pub checkpoint_id: u64,
    /// Every record up to this log position is in the store.
    pub durable_lsn: u64,
    pub arena_capacity_at_checkpoint: u64,
    pub metadata_version_at_checkpoint: u64,
    pub started_at_unix_nanos: u64,
    pub completed_at_unix_nanos: u64,
}

impl Row for CheckpointMeta {
    type M = CheckpointMeta;

    open spec fn model(&self) -> CheckpointMeta {
        *self
    }

    open spec fn cells(m: CheckpointMeta) -> Seq<CellModel> {
        seq![
            Cell::Int(m.checkpoint_id),
            Cell::Int(m.durable_lsn),
            Cell::Int(m.arena_capacity_at_checkpoint),
            Cell::Int(m.metadata_version_at_checkpoint),
            Cell::Int(m.started_at_unix_nanos),
            Cell::Int(m.completed_at_unix_nanos),
        ]
    }

    proof fn cells_injective(a: CheckpointMeta, b: CheckpointMeta) {
        broadcast use group_row_fields;

        let x = Self::cells(a);
        let y = Self::cells(b);
        assert(x[0] == y[0]
            && x[1] == y[1]
            && x[2] == y[2]
            && x[3] == y[3]
            && x[4] == y[4]
            && x[5] == y[5]);
    }

    fn to_cells(&self) -> (r: Vec<Cell<Vec<u8>>>) {
        let cells: Vec<Cell<Vec<u8>>> = vec![
            int_cell(self.checkpoint_id),
            int_cell(self.durable_lsn),
            int_cell(self.arena_capacity_at_checkpoint),
            int_cell(self.metadata_version_at_checkpoint),
            int_cell(self.started_at_unix_nanos),
            int_cell(self.completed_at_unix_nanos),
        ];
        proof {
            assert(cell_models(cells@) =~= Self::cells(self.model()));
        }
        cells
    }

    fn from_cells(cells: &Vec<Cell<Vec<u8>>>) -> (r: Option<Self>) {
        if cells.len() != 6 {
            proof {
                assert forall|m: CheckpointMeta| #[trigger] Self::cells(m) != cell_models(cells@) by {
                    assert(Self::cells(m).len() == 6);
                }
            }
            return None;
        }
        let checkpoint_id = match int_at(cells, 0) {
            Some(x) => x,
            None => return None,
        };
        let durable_lsn = match int_at(cells, 1) {
            Some(x) => x,
            None => return None,
        };
        let arena_capacity_at_checkpoint = match int_at(cells, 2) {
            Some(x) => x,
            None => return None,
        };
        let metadata_version_at_checkpoint = match int_at(cells, 3) {
            Some(x) => x,
            None => return None,
        };
        let started_at_unix_nanos = match int_at(cells, 4) {
            Some(x) => x,
            None => return None,
        };
        let completed_at_unix_nanos = match int_at(cells, 5) {
            Some(x) => x,
            None => return None,
        };
        let row = CheckpointMeta {
            checkpoint_id,
            durable_lsn,
            arena_capacity_at_checkpoint,
            metadata_version_at_checkpoint,
            started_at_unix_nanos,
            completed_at_unix_nanos,
        };
        proof {
            assert(Self::cells(row.model()) =~= cell_models(cells@));
        }
        Some(row)
    }
}

impl CheckpointMeta {
    #[must_use]
    pub fn new(
        checkpoint_id: u64,
        durable_lsn: u64,
        arena_capacity_at_checkpoint: u64,
        metadata_version_at_checkpoint: u64,
        started_at_unix_nanos: u64,
        completed_at_unix_nanos: u64,
    ) -> (r: Self)
        ensures
            r == (CheckpointMeta {
                checkpoint_id,
                durable_lsn,
                arena_capacity_at_checkpoint,
                metadata_version_at_checkpoint,
                started_at_unix_nanos,
                completed_at_unix_nanos,
            }),
    {
        CheckpointMeta {
            checkpoint_id,
            durable_lsn,
            arena_capacity_at_checkpoint,
            metadata_version_at_checkpoint,
            started_at_unix_nanos,
            completed_at_unix_nanos,
        }
    }
}

/// The key of a checkpoint.
pub open spec fn checkpoint_key(id: u64) -> Seq<u8> {
    be(id as nat, 8)
}

pub fn make_checkpoint_key(id: u64) -> (r: Vec<u8>)
    ensures
        r@ == checkpoint_key(id),
{
    let mut k: Vec<u8> = Vec::new();
    put_be(&mut k, id, 8);
    proof {
        assert(k@ =~= checkpoint_key(id));
    }
    k
}

/// What is stored under the last key.
pub open spec fn latest_slot(db: Db) -> Slot<CheckpointMeta> {
    let all = scan(db, Table::Checkpoints, Seq::empty());
    if all.len() == 0 {
        Slot::Absent
    } else {
        parsed::<CheckpointMeta>(all.last().1)
    }
}

/// The checkpoint with the greatest identifier.
pub fn latest(rtxn: &ReadTransaction) -> (r: Result<Option<CheckpointMeta>, LoadError>)
    ensures
        r is Ok ==> opened(*rtxn, Table::Checkpoints),
        r is Ok ==> scanned(rdb(*rtxn), Table::Checkpoints, Seq::empty()),
        r matches Ok(None) ==> latest_slot(rdb(*rtxn)) is Absent,
        r matches Ok(Some(m)) ==> latest_slot(rdb(*rtxn)) == Slot::Row(m),
        r matches Err(LoadError::Corrupt) ==> latest_slot(rdb(*rtxn)) is Corrupt,
{
    let prefix: Vec<u8> = Vec::new();
    let found = match read_prefix(rtxn, Table::Checkpoints, prefix.as_slice()) {
        Ok(v) => v,
        Err(e) => return Err(LoadError::Storage(e)),
    };
    proof {
        assert(prefix@ =~= Seq::<u8>::empty());
    }
    if found.len() == 0 {
        return Ok(None);
    }
    let last: usize = found.len() - 1;
    match from_bytes::<CheckpointMeta>(found[last].1.as_slice()) {
        Some(m) => Ok(Some(m)),
        None => Err(LoadError::Corrupt),
    }
}

/// The latest checkpoint is the one with the greatest identifier, where every
/// key is that of a checkpoint.
pub proof fn lemma_latest_is_greatest(db: Db, id: u64)
    requires
        db.rows.dom().finite(),
        lookup(db, Table::Checkpoints, checkpoint_key(id)) is Some,
        forall|k: Seq<u8>| #[trigger]
            db.dom().contains((Table::Checkpoints, k)) ==> exists|n: u64| #[trigger] checkpoint_key(n) == k,
    ensures
        exists|last: u64|
            id <= last && latest_slot(db) == slot::<CheckpointMeta>(
                db,
                Table::Checkpoints,
                #[trigger] checkpoint_key(last),
            ),
{
    let all = scan(db, Table::Checkpoints, Seq::empty());
    lemma_scan_exists(db, Table::Checkpoints, Seq::empty());
    let k = checkpoint_key(id);
    assert(k.take(0) =~= Seq::<u8>::empty());
    assert(db.dom().contains((Table::Checkpoints, k)));
    let i = choose|i: int| 0 <= i < all.len() && (#[trigger] all[i]).0 == k;
    let end = all.len() - 1;
    assert(lookup(db, Table::Checkpoints, all[end].0) == Some(all[end].1));
    assert(db.dom().contains((Table::Checkpoints, all[end].0)));
    let last = choose|n: u64| #[trigger] checkpoint_key(n) == all[end].0;
    lemma_pow256_values();
    lemma_be_order(last as nat, id as nat, 8);
    lemma_be_order(id as nat, last as nat, 8);
    if i < end {
        assert(lex_lt(all[i].0, all[end].0));
    } else {
        lemma_be_injective(id as nat, last as nat, 8);
    }
    assert(latest_slot(db) == slot::<CheckpointMeta>(db, Table::Checkpoints, checkpoint_key(last)));
}

} // verus!
