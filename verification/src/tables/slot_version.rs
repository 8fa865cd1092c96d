//! The current version of each slot.

use redb::{ReadTransaction, WriteTransaction};
use vstd::prelude::*;

use crate::bytes::{
    be, be_value, get_be, lemma_be_injective, lemma_be_len, lemma_be_value_of_be, lemma_pow256_values, put_be,
};
use crate::catalog::Table;
use crate::row::LoadError;
use crate::store::{lookup, opened, put, rdb, read, tables_kept, wdb, Db};

verus! {

/// The key of a slot.
pub open spec fn slot_key(slot_id: u64) -> Seq<u8> {
    be(slot_id as nat, 8)
}

/// The stored version of a slot, if there is one.
pub open spec fn stored_slot_version(db: Db, slot_id: u64) -> Result<Option<u32>, ()> {
    match lookup(db, Table::SlotVersions, slot_key(slot_id)) {
        None => Ok(None),
        Some(b) => if b.len() == 4 {
            Ok(Some(be_value(b) as u32))
        } else {
            Err(())
        },
    }
}

/// The state with a version of a slot.
pub open spec fn versioned(db: Db, slot_id: u64, version: u32) -> Db {
    db.insert((Table::SlotVersions, slot_key(slot_id)), be(version as nat, 4))
}

fn make_slot_key(slot_id: u64) -> (r: Vec<u8>)
    ensures
        r@ == slot_key(slot_id),
{
    let mut k: Vec<u8> = Vec::new();
    put_be(&mut k, slot_id, 8);
    proof {
        assert(k@ =~= slot_key(slot_id));
    }
    k
}

/// The version of a slot, if it has one.
pub fn slot_version(rtxn: &ReadTransaction, slot_id: u64) -> (r: Result<Option<u32>, LoadError>)
    ensures
        r is Ok ==> opened(*rtxn, Table::SlotVersions),
        r matches Ok(v) ==> stored_slot_version(rdb(*rtxn), slot_id) == Ok::<_, ()>(v),
        r matches Err(LoadError::Corrupt) ==> stored_slot_version(rdb(*rtxn), slot_id) is Err,
{
    let key = make_slot_key(slot_id);
    match read(rtxn, Table::SlotVersions, key.as_slice()) {
        Err(e) => Err(LoadError::Storage(e)),
        Ok(None) => Ok(None),
        Ok(Some(b)) => {
            if b.len() != 4 {
                return Err(LoadError::Corrupt);
            }
            proof {
                lemma_pow256_values();
                assert(b@.subrange(0, 4) =~= b@);
            }
            Ok(Some(get_be(b.as_slice(), 0, 4) as u32))
        },
    }
}

/// Sets the version of a slot.
pub fn set_slot_version(wtxn: &mut WriteTransaction, slot_id: u64, version: u32) -> (r: Result<(), redb::Error>)
    ensures
        tables_kept(*old(wtxn), *final(wtxn)),
        wdb(*final(wtxn)).home == wdb(*old(wtxn)).home,
        r is Ok ==> wdb(*final(wtxn)) == versioned(wdb(*old(wtxn)), slot_id, version),
{
    let key = make_slot_key(slot_id);
    let mut v: Vec<u8> = Vec::new();
    put_be(&mut v, version as u64, 4);
    proof {
        assert(v@ =~= be(version as nat, 4));
    }
    put(wtxn, Table::SlotVersions, key.as_slice(), v.as_slice())
}

/// A version that was set is the version of that slot, and every other slot and table
/// is as before.
pub proof fn lemma_slot_version_is_read_back(db: Db, slot_id: u64, version: u32, other: u64, t: Table, k: Seq<u8>)
    ensures
        ({
            let after = versioned(db, slot_id, version);
            &&& stored_slot_version(after, slot_id) == Ok::<_, ()>(Some(version))
            &&& other != slot_id ==> stored_slot_version(after, other) == stored_slot_version(db, other)
            &&& !(t is SlotVersions) ==> lookup(after, t, k) == lookup(db, t, k)
        }),
{
    lemma_pow256_values();
    lemma_be_len(version as nat, 4);
    lemma_be_value_of_be(version as nat, 4);
    if slot_key(other) == slot_key(slot_id) {
        lemma_be_injective(other as nat, slot_id as nat, 8);
    }
}

} // verus!
