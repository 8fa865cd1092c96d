//! Soft deletion.

use redb::WriteTransaction;
use vstd::prelude::*;

use crate::catalog::Table;
use crate::row::{image, slot, Row, Slot};
use crate::statement::crud::{load_statement, remove_key, save_statement};
use crate::statement::supersede::{deactivate, deactivated};
use crate::statement::StatementOpError;
use crate::store::{wdb, Db};
use crate::tables::statement::{StatementMetadata, StatementRowModel, TombstoneReason};
use crate::types::StatementId;

verus! {

/// A row that is tombstoned: no longer current, and no longer believed from now
/// on.
pub open spec fn buried(m: StatementRowModel, reason: TombstoneReason, now_unix_nanos: u64) -> StatementRowModel {
    StatementMetadata {
        tombstoned: 1,
        tombstoned_at_unix_nanos: Some(now_unix_nanos),
        tombstone_reason: reason.byte(),
        record_invalidated_at_unix_nanos: Some(now_unix_nanos),
        is_current: 0,
        ..m
    }
}

/// What tombstoning a statement does. A statement that is tombstoned already is
/// left as it is.
pub open spec fn tombstoned(db: Db, id: StatementId, reason: TombstoneReason, now_unix_nanos: u64) -> Result<
    Db,
    StatementOpError,
> {
    match slot::<StatementMetadata>(db, Table::Statements, id.0@) {
        Slot::Absent => Err(StatementOpError::NotFound(id)),
        Slot::Corrupt => Err(StatementOpError::DecodeFailed),
        Slot::Row(m) => if m.tombstoned != 0 {
            Ok(db)
        } else {
            let d1 = db.insert(
                (Table::Statements, m.statement_id_bytes@),
                image::<StatementMetadata>(buried(m, reason, now_unix_nanos)),
            );
            Ok(deactivated(d1, m).remove((Table::StatementEmbedQueue, m.statement_id_bytes@)))
        },
    }
}

/// Tombstones a statement, and takes it out of the indexes of live rows and of
/// the embed queue. Its evidence and its place in the chain stay.
pub fn statement_tombstone(wtxn: &mut WriteTransaction, id: StatementId, reason: TombstoneReason, now_unix_nanos: u64) -> (r:
    Result<(), StatementOpError>)
    ensures
        r is Ok ==> tombstoned(wdb(*old(wtxn)), id, reason, now_unix_nanos) == Ok::<_, StatementOpError>(
            wdb(*final(wtxn)),
        ),
        r matches Err(e) ==> e is Storage || (tombstoned(wdb(*old(wtxn)), id, reason, now_unix_nanos) == Err::<Db, _>(
            e,
        ) && wdb(*final(wtxn)) == wdb(*old(wtxn))),
{
    let mut row = match load_statement(wtxn, &id.0)? {
        Some(m) => m,
        None => return Err(StatementOpError::NotFound(id)),
    };
    if row.is_tombstoned() {
        return Ok(());
    }
    let was_current: bool = row.is_current != 0;
    row.tombstoned = 1;
    row.tombstoned_at_unix_nanos = Some(now_unix_nanos);
    row.tombstone_reason = reason.as_u8();
    row.record_invalidated_at_unix_nanos = Some(now_unix_nanos);
    row.is_current = 0;
    save_statement(wtxn, &row)?;
    deactivate(wtxn, &row, was_current)?;
    remove_key(wtxn, Table::StatementEmbedQueue, row.statement_id_bytes.as_slice())?;
    Ok(())
}

/// Tombstones a statement for physical removal. Whatever reason the caller has,
/// the stored one is [`TombstoneReason::Retract`].
pub fn statement_retract(wtxn: &mut WriteTransaction, id: StatementId, _reason: TombstoneReason, now_unix_nanos: u64) -> (r:
    Result<(), StatementOpError>)
    ensures
        r is Ok ==> tombstoned(wdb(*old(wtxn)), id, TombstoneReason::Retract, now_unix_nanos) == Ok::<
            _,
            StatementOpError,
        >(wdb(*final(wtxn))),
        r matches Err(e) ==> e is Storage || (tombstoned(
            wdb(*old(wtxn)),
            id,
            TombstoneReason::Retract,
            now_unix_nanos,
        ) == Err::<Db, _>(e) && wdb(*final(wtxn)) == wdb(*old(wtxn))),
{
    statement_tombstone(wtxn, id, TombstoneReason::Retract, now_unix_nanos)
}

} // verus!
