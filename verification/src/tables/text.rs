//! The texts of memories.

use redb::{ReadTransaction, WriteTransaction};
use vstd::prelude::*;
use vstd::utf8::encode_utf8;

use crate::catalog::Table;
use crate::store::{lookup, opened, put, rdb, read, tables_kept, wdb, Db};
use crate::types::MemoryId;

verus! {

/// The state with a memory's text.
pub open spec fn with_text(db: Db, id: MemoryId, text: Seq<char>) -> Db {
    db.insert((Table::Texts, id.0@), encode_utf8(text))
}

/// Stores a memory's text.
pub fn put_text(wtxn: &mut WriteTransaction, id: MemoryId, text: &String) -> (r: Result<(), redb::Error>)
    ensures
        tables_kept(*old(wtxn), *final(wtxn)),
        wdb(*final(wtxn)).home == wdb(*old(wtxn)).home,
        r is Ok ==> wdb(*final(wtxn)) == with_text(wdb(*old(wtxn)), id, text@),
{
    put(wtxn, Table::Texts, id.0.as_slice(), text.as_str().as_bytes())
}

/// The bytes of a memory's text, if it has one.
pub fn text_bytes(rtxn: &ReadTransaction, id: MemoryId) -> (r: Result<Option<Vec<u8>>, redb::Error>)
    ensures
        r is Ok ==> opened(*rtxn, Table::Texts),
        r matches Ok(None) ==> lookup(rdb(*rtxn), Table::Texts, id.0@) is None,
        r matches Ok(Some(b)) ==> lookup(rdb(*rtxn), Table::Texts, id.0@) == Some(b@),
{
    read(rtxn, Table::Texts, id.0.as_slice())
}

} // verus!
