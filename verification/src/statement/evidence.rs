//! Packing, reading and reclaiming evidence.

use redb::{ReadTransaction, WriteTransaction};
use vstd::prelude::*;

use crate::bytes::lemma_pow256_values;
use crate::catalog::Table;
use crate::cells::cell_fits;
use crate::row::{fits, image, lemma_saved_row_is_found, list, load, load_at, packed_all, save, slot, Row, Slot};
use crate::statement::crud::{memories_of, remove_key};
use crate::statement::{load_failed, StatementOpError};
use crate::store::{lookup, opened, rdb, wdb, Db};
use crate::tables::statement::{copy_entries, EvidenceEntry, EvidenceOverflow, EvidenceRef, INLINE_EVIDENCE_CAP};
use crate::types::{EvidenceOverflowId, ExtractorId, MemoryId};

verus! {

/// What packing evidence makes of it, and of the rows: a short list stays with
/// its statement, a longer one is spilled under a fresh identifier.
pub open spec fn packed(db: Db, entries: Seq<EvidenceEntry>, fresh: EvidenceOverflowId, now_unix_nanos: u64) -> (
    EvidenceRef<Seq<EvidenceEntry>>,
    Db,
) {
    if entries.len() <= INLINE_EVIDENCE_CAP {
        (EvidenceRef::Inline(entries), db)
    } else {
        (
            EvidenceRef::Overflow(fresh),
            db.insert(
                (Table::EvidenceOverflow, fresh.0@),
                image::<EvidenceOverflow>(
                    EvidenceOverflow {
                        overflow_id_bytes: fresh.0,
                        entries,
                        created_at_unix_nanos: now_unix_nanos,
                    },
                ),
            ),
        )
    }
}

/// Packs evidence into a reference, spilling it where it is long.
pub fn pack_evidence_entries(
    wtxn: &mut WriteTransaction,
    entries: Vec<EvidenceEntry>,
    fresh: EvidenceOverflowId,
    now_unix_nanos: u64,
) -> (r: Result<EvidenceRef, StatementOpError>)
    ensures
        r matches Ok(e) ==> (e.model(), wdb(*final(wtxn))) == packed(
            wdb(*old(wtxn)),
            entries@,
            fresh,
            now_unix_nanos,
        ),
        r matches Err(e) ==> e is Storage && entries@.len() > INLINE_EVIDENCE_CAP,
{
    if entries.len() <= INLINE_EVIDENCE_CAP {
        return Ok(EvidenceRef::inline(entries.as_slice()));
    }
    let row = EvidenceOverflow { overflow_id_bytes: fresh.0, entries, created_at_unix_nanos: now_unix_nanos };
    match save(wtxn, Table::EvidenceOverflow, fresh.0.as_slice(), &row) {
        Ok(()) => Ok(EvidenceRef::Overflow(fresh)),
        Err(e) => Err(StatementOpError::Storage(e)),
    }
}

/// An entry for each memory, with the same metadata.
pub open spec fn uniform_entries(
    ids: Seq<MemoryId>,
    confidence_milli: u16,
    timestamp_unix_nanos: u64,
    extractor_id: ExtractorId,
) -> Seq<EvidenceEntry> {
    ids.map_values(
        |memory_id: MemoryId|
            EvidenceEntry { memory_id, confidence_milli, timestamp_unix_nanos, extractor_id },
    )
}

/// Packs memories as evidence, all with the same metadata.
pub fn pack_evidence_ids(
    wtxn: &mut WriteTransaction,
    ids: &Vec<MemoryId>,
    confidence_milli: u16,
    now_unix_nanos: u64,
    extractor_id: ExtractorId,
    fresh: EvidenceOverflowId,
) -> (r: Result<EvidenceRef, StatementOpError>)
    ensures
        r matches Ok(e) ==> (e.model(), wdb(*final(wtxn))) == packed(
            wdb(*old(wtxn)),
            uniform_entries(ids@, confidence_milli, now_unix_nanos, extractor_id),
            fresh,
            now_unix_nanos,
        ),
        r matches Err(e) ==> e is Storage && ids@.len() > INLINE_EVIDENCE_CAP,
{
    let mut entries: Vec<EvidenceEntry> = Vec::new();
    let mut i: usize = 0;
    while i < ids.len()
        invariant
            i <= ids.len(),
            entries@.len() == i,
            forall|j: int|
                0 <= j < i ==> (#[trigger] entries@[j]) == (EvidenceEntry {
                    memory_id: ids@[j],
                    confidence_milli,
                    timestamp_unix_nanos: now_unix_nanos,
                    extractor_id,
                }),
        decreases ids.len() - i,
    {
        entries.push(
            EvidenceEntry {
                memory_id: ids[i],
                confidence_milli,
                timestamp_unix_nanos: now_unix_nanos,
                extractor_id,
            },
        );
        i = i + 1;
    }
    proof {
        assert(entries@ =~= uniform_entries(ids@, confidence_milli, now_unix_nanos, extractor_id));
    }
    pack_evidence_entries(wtxn, entries, fresh, now_unix_nanos)
}

/// The evidence behind a reference. A reference that leads nowhere is a fault
/// of the store.
pub open spec fn evidence_behind(db: Db, reference: EvidenceRef<Seq<EvidenceEntry>>) -> Result<
    Seq<EvidenceEntry>,
    StatementOpError,
> {
    match reference {
        EvidenceRef::Inline(entries) => Ok(entries),
        EvidenceRef::Overflow(id) => match slot::<EvidenceOverflow>(db, Table::EvidenceOverflow, id.0@) {
            Slot::Row(m) => Ok(m.entries),
            _ => Err(StatementOpError::DecodeFailed),
        },
    }
}

/// Packed evidence is read back as it was. Its bytes are as many as a machine can
/// count.
pub proof fn lemma_packed_evidence_is_read_back(
    db: Db,
    entries: Seq<EvidenceEntry>,
    fresh: EvidenceOverflowId,
    now_unix_nanos: u64,
)
    requires
        packed_all(entries).len() < 0x1_0000_0000_0000_0000,
    ensures
        evidence_behind(
            packed(db, entries, fresh, now_unix_nanos).1,
            packed(db, entries, fresh, now_unix_nanos).0,
        ) == Ok::<_, StatementOpError>(entries),
{
    if entries.len() > INLINE_EVIDENCE_CAP {
        let m = EvidenceOverflow { overflow_id_bytes: fresh.0, entries, created_at_unix_nanos: now_unix_nanos };
        lemma_pow256_values();
        assert(fits::<EvidenceOverflow>(m)) by {
            let cells = EvidenceOverflow::<Vec<EvidenceEntry>>::cells(m);
            assert(cells[1] == list(entries));
            assert forall|i: int| 0 <= i < cells.len() implies cell_fits(#[trigger] cells[i]) by {
                assert(i == 0 || i == 1 || i == 2);
            }
        }
        lemma_saved_row_is_found::<EvidenceOverflow>(db, Table::EvidenceOverflow, fresh.0@, m);
    }
}

fn memories(entries: &[EvidenceEntry]) -> (r: Vec<MemoryId>)
    ensures
        memory_bytes(r@) == memories_of(entries@),
{
    let mut out: Vec<MemoryId> = Vec::new();
    let mut i: usize = 0;
    while i < entries.len()
        invariant
            i <= entries.len(),
            out@.len() == i,
            forall|j: int| 0 <= j < i ==> (#[trigger] out@[j]) == entries@[j].memory_id,
        decreases entries.len() - i,
    {
        out.push(entries[i].memory_id);
        i = i + 1;
    }
    proof {
        assert(memory_bytes(out@) =~= memories_of(entries@));
    }
    out
}

/// The bytes of memory identifiers.
pub open spec fn memory_bytes(ids: Seq<MemoryId>) -> Seq<[u8; 16]> {
    ids.map_values(|m: MemoryId| m.0)
}

/// The memories behind a reference.
pub open spec fn evidence_ids_behind(db: Db, reference: EvidenceRef<Seq<EvidenceEntry>>) -> Result<
    Seq<[u8; 16]>,
    StatementOpError,
> {
    match evidence_behind(db, reference) {
        Ok(entries) => Ok(memories_of(entries)),
        Err(e) => Err(e),
    }
}

/// Reads the memories that back a statement.
pub fn read_evidence_ids(rtxn: &ReadTransaction, reference: &EvidenceRef) -> (r: Result<
    Vec<MemoryId>,
    StatementOpError,
>)
    ensures
        r is Ok && reference is Overflow ==> opened(*rtxn, Table::EvidenceOverflow),
        reference is Inline ==> r is Ok,
        r matches Ok(v) ==> evidence_ids_behind(rdb(*rtxn), reference.model()) == Ok::<_, StatementOpError>(
            memory_bytes(v@),
        ),
        r matches Err(e) ==> e is Storage || evidence_ids_behind(rdb(*rtxn), reference.model()) == Err::<
            Seq<[u8; 16]>,
            _,
        >(e),
{
    match reference {
        EvidenceRef::Inline(entries) => Ok(memories(entries.as_slice())),
        EvidenceRef::Overflow(id) => match load_at::<EvidenceOverflow>(
            rtxn,
            Table::EvidenceOverflow,
            id.0.as_slice(),
        ) {
            Ok(Some(row)) => Ok(memories(row.entries.as_slice())),
            Ok(None) => Err(StatementOpError::DecodeFailed),
            Err(e) => Err(load_failed(e)),
        },
    }
}

/// Reads the memories that back a statement, as a write transaction sees them.
pub fn read_evidence_ids_w(wtxn: &mut WriteTransaction, reference: &EvidenceRef) -> (r: Result<
    Vec<MemoryId>,
    StatementOpError,
>)
    ensures
        wdb(*final(wtxn)) == wdb(*old(wtxn)),
        reference is Inline ==> r is Ok,
        r matches Ok(v) ==> evidence_ids_behind(wdb(*old(wtxn)), reference.model()) == Ok::<_, StatementOpError>(
            memory_bytes(v@),
        ),
        r matches Err(e) ==> e is Storage || evidence_ids_behind(wdb(*old(wtxn)), reference.model()) == Err::<
            Seq<[u8; 16]>,
            _,
        >(e),
{
    let entries = read_evidence_entries_w(wtxn, reference)?;
    Ok(memories(entries.as_slice()))
}

/// Reads the evidence that backs a statement, as a write transaction sees it.
pub fn read_evidence_entries_w(wtxn: &mut WriteTransaction, reference: &EvidenceRef) -> (r: Result<
    Vec<EvidenceEntry>,
    StatementOpError,
>)
    ensures
        wdb(*final(wtxn)) == wdb(*old(wtxn)),
        reference is Inline ==> r is Ok,
        r matches Ok(v) ==> evidence_behind(wdb(*old(wtxn)), reference.model()) == Ok::<_, StatementOpError>(v@),
        r matches Err(e) ==> e is Storage || evidence_behind(wdb(*old(wtxn)), reference.model()) == Err::<
            Seq<EvidenceEntry>,
            _,
        >(e),
{
    match reference {
        EvidenceRef::Inline(entries) => Ok(copy_entries(entries.as_slice())),
        EvidenceRef::Overflow(id) => match load::<EvidenceOverflow>(
            wtxn,
            Table::EvidenceOverflow,
            id.0.as_slice(),
        ) {
            Ok(Some(row)) => Ok(row.entries),
            Ok(None) => Err(StatementOpError::DecodeFailed),
            Err(e) => Err(load_failed(e)),
        },
    }
}

/// Drops the spilled row behind a reference, and tells whether there was one.
pub fn reclaim_evidence_overflow(wtxn: &mut WriteTransaction, reference: &EvidenceRef) -> (r: Result<
    bool,
    StatementOpError,
>)
    ensures
        match reference.model() {
            EvidenceRef::Inline(_) => r == Ok::<_, StatementOpError>(false) && wdb(*final(wtxn)) == wdb(*old(wtxn)),
            EvidenceRef::Overflow(id) => match r {
                Ok(found) => found == wdb(*old(wtxn)).dom().contains((Table::EvidenceOverflow, id.0@)) && wdb(
                    *final(wtxn),
                ) == wdb(*old(wtxn)).remove((Table::EvidenceOverflow, id.0@)),
                Err(e) => e is Storage,
            },
        },
{
    match reference {
        EvidenceRef::Inline(_) => Ok(false),
        EvidenceRef::Overflow(id) => remove_key(wtxn, Table::EvidenceOverflow, id.0.as_slice()),
    }
}

/// Up to eight entries stay with the statement and nothing is stored. More are stored
/// under the fresh identifier, as they are and with the time, and nothing else changes.
pub proof fn lemma_packed_evidence(
    db: Db,
    entries: Seq<EvidenceEntry>,
    fresh: EvidenceOverflowId,
    now_unix_nanos: u64,
    t: Table,
    k: Seq<u8>,
)
    ensures
        ({
            let (reference, after) = packed(db, entries, fresh, now_unix_nanos);
            &&& entries.len() <= 8 ==> reference == EvidenceRef::Inline(entries) && after == db
            &&& entries.len() > 8 ==> {
                &&& reference == EvidenceRef::<Seq<EvidenceEntry>>::Overflow(fresh)
                &&& lookup(after, Table::EvidenceOverflow, fresh.0@) == Some(
                    image::<EvidenceOverflow>(
                        EvidenceOverflow {
                            overflow_id_bytes: fresh.0,
                            entries,
                            created_at_unix_nanos: now_unix_nanos,
                        },
                    ),
                )
                &&& !(t is EvidenceOverflow && k == fresh.0@) ==> lookup(after, t, k) == lookup(db, t, k)
            }
        }),
{
}

/// Memories packed with the same metadata become an entry each, in their order.
pub proof fn lemma_uniform_entries(
    ids: Seq<MemoryId>,
    confidence_milli: u16,
    timestamp_unix_nanos: u64,
    extractor_id: ExtractorId,
    i: int,
)
    requires
        0 <= i < ids.len(),
    ensures
        ({
            let entries = uniform_entries(ids, confidence_milli, timestamp_unix_nanos, extractor_id);
            &&& entries.len() == ids.len()
            &&& entries[i].memory_id == ids[i]
            &&& entries[i].confidence_milli == confidence_milli
            &&& entries[i].timestamp_unix_nanos == timestamp_unix_nanos
            &&& entries[i].extractor_id == extractor_id
        }),
{
}

/// The memories behind packed evidence are those of its entries, in their order.
pub proof fn lemma_evidence_ids(
    db: Db,
    entries: Seq<EvidenceEntry>,
    fresh: EvidenceOverflowId,
    now_unix_nanos: u64,
    i: int,
)
    requires
        packed_all(entries).len() < 0x1_0000_0000_0000_0000,
        0 <= i < entries.len(),
    ensures
        evidence_ids_behind(
            packed(db, entries, fresh, now_unix_nanos).1,
            packed(db, entries, fresh, now_unix_nanos).0,
        ) matches Ok(ids) && ids.len() == entries.len() && ids[i] == entries[i].memory_id.0,
{
    lemma_packed_evidence_is_read_back(db, entries, fresh, now_unix_nanos);
}

} // verus!
