//! The next position of the log to hand out.

use redb::{ReadTransaction, WriteTransaction};
use vstd::prelude::*;

use crate::bytes::{be, be_value, get_be, lemma_be_len, lemma_be_value_of_be, lemma_pow256_values, put_be};
use crate::catalog::Table;
use crate::row::LoadError;
use crate::store::{get, lookup, opened, put, rdb, read, tables_kept, wdb, Db};

verus! {

/// The stored position; 0 if none was stored yet.
pub open spec fn stored_next_lsn(db: Db) -> Result<u64, ()> {
    match lookup(db, Table::NextLsn, Seq::empty()) {
        None => Ok(0),
        Some(b) => if b.len() == 8 {
            Ok(be_value(b) as u64)
        } else {
            Err(())
        },
    }
}

/// The position behind a record, or the last one.
pub open spec fn lsn_after(lsn: u64) -> u64 {
    if lsn == u64::MAX {
        u64::MAX
    } else {
        (lsn + 1) as u64
    }
}

/// The state once a record was seen: the stored position is behind it.
pub open spec fn bumped(db: Db, lsn: u64) -> Result<Db, ()> {
    match stored_next_lsn(db) {
        Err(e) => Err(e),
        Ok(current) => {
            let next = if lsn_after(lsn) >= current {
                lsn_after(lsn)
            } else {
                current
            };
            Ok(db.insert((Table::NextLsn, Seq::empty()), be(next as nat, 8)))
        },
    }
}

fn position(b: &Option<Vec<u8>>) -> (r: Option<u64>)
    ensures
        match *b {
            None => r == Some(0u64),
            Some(v) => if v@.len() == 8 {
                r == Some(be_value(v@) as u64)
            } else {
                r is None
            },
        },
{
    match b {
        None => Some(0),
        Some(v) => {
            if v.len() != 8 {
                return None;
            }
            proof {
                assert(v@.subrange(0, 8) =~= v@);
            }
            Some(get_be(v.as_slice(), 0, 8))
        },
    }
}

/// The stored position; 0 if none was stored yet.
pub fn next_lsn(rtxn: &ReadTransaction) -> (r: Result<u64, LoadError>)
    ensures
        r is Ok ==> opened(*rtxn, Table::NextLsn),
        r matches Ok(n) ==> stored_next_lsn(rdb(*rtxn)) == Ok::<_, ()>(n),
        r matches Err(LoadError::Corrupt) ==> stored_next_lsn(rdb(*rtxn)) is Err,
{
    let key: Vec<u8> = Vec::new();
    proof {
        assert(key@ =~= Seq::<u8>::empty());
    }
    match read(rtxn, Table::NextLsn, key.as_slice()) {
        Err(e) => Err(LoadError::Storage(e)),
        Ok(b) => match position(&b) {
            Some(n) => Ok(n),
            None => Err(LoadError::Corrupt),
        },
    }
}

/// Moves the stored position behind `lsn`, if it is not there yet.
pub fn bump_next_lsn_in_txn(wtxn: &mut WriteTransaction, lsn: u64) -> (r: Result<(), LoadError>)
    ensures
        tables_kept(*old(wtxn), *final(wtxn)),
        match r {
            Ok(()) => bumped(wdb(*old(wtxn)), lsn) == Ok::<_, ()>(wdb(*final(wtxn))),
            Err(LoadError::Corrupt) => bumped(wdb(*old(wtxn)), lsn) is Err,
            Err(LoadError::Storage(_)) => true,
        },
{
    let key: Vec<u8> = Vec::new();
    proof {
        assert(key@ =~= Seq::<u8>::empty());
    }
    let current: u64 = match get(wtxn, Table::NextLsn, key.as_slice()) {
        Err(e) => return Err(LoadError::Storage(e)),
        Ok(b) => match position(&b) {
            Some(n) => n,
            None => return Err(LoadError::Corrupt),
        },
    };
    let after: u64 = lsn.saturating_add(1);
    let next: u64 = if after >= current {
        after
    } else {
        current
    };
    let mut v: Vec<u8> = Vec::new();
    put_be(&mut v, next, 8);
    proof {
        assert(v@ =~= be(next as nat, 8));
    }
    match put(wtxn, Table::NextLsn, key.as_slice(), v.as_slice()) {
        Ok(()) => Ok(()),
        Err(e) => Err(LoadError::Storage(e)),
    }
}

/// The stored position never goes back, and it is behind every record that was
/// seen.
pub proof fn lemma_next_lsn_grows(db: Db, lsn: u64)
    requires
        bumped(db, lsn) is Ok,
    ensures
        ({
            let after = stored_next_lsn(bumped(db, lsn)->Ok_0);
            &&& after is Ok
            &&& after->Ok_0 >= stored_next_lsn(db)->Ok_0
            &&& after->Ok_0 >= lsn_after(lsn)
            &&& after->Ok_0 == stored_next_lsn(db)->Ok_0 || after->Ok_0 == lsn_after(lsn)
        }),
{
    let current = stored_next_lsn(db)->Ok_0;
    let next = if lsn_after(lsn) >= current {
        lsn_after(lsn)
    } else {
        current
    };
    lemma_pow256_values();
    lemma_be_len(next as nat, 8);
    lemma_be_value_of_be(next as nat, 8);
}

/// The order in which records are seen does not matter to the stored position.
pub proof fn lemma_next_lsn_commutes(db: Db, a: u64, b: u64)
    requires
        stored_next_lsn(db) is Ok,
    ensures
        bumped(bumped(db, a)->Ok_0, b) == bumped(bumped(db, b)->Ok_0, a),
{
    lemma_next_lsn_grows(db, a);
    lemma_next_lsn_grows(db, b);
    let ab = bumped(bumped(db, a)->Ok_0, b)->Ok_0;
    let ba = bumped(bumped(db, b)->Ok_0, a)->Ok_0;
    assert(ab =~= ba);
}

/// Once a record was seen, the stored position is the one behind it or the one that was
/// stored, whichever is later; nothing else changes.
pub proof fn lemma_bumped(db: Db, lsn: u64, before: u64, t: Table, k: Seq<u8>)
    requires
        lookup(db, Table::NextLsn, Seq::empty()) == Some(be(before as nat, 8)) || before == 0 && lookup(
            db,
            Table::NextLsn,
            Seq::empty(),
        ) is None,
    ensures
        bumped(db, lsn) matches Ok(after) && {
            &&& lookup(after, Table::NextLsn, Seq::empty()) == Some(
                be(
                    if lsn < before {
                        before as nat
                    } else if lsn == 0xffff_ffff_ffff_ffff {
                        lsn as nat
                    } else {
                        (lsn + 1) as nat
                    },
                    8,
                ),
            )
            &&& t != Table::NextLsn || k.len() > 0 ==> lookup(after, t, k) == lookup(db, t, k)
        },
{
    lemma_pow256_values();
    lemma_be_len(before as nat, 8);
    lemma_be_value_of_be(before as nat, 8);
    assert(k.len() == 0 ==> k =~= Seq::<u8>::empty());
}

} // verus!
