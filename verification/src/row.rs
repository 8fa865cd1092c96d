//! Typed rows: how a row is laid out in cells, and how one is loaded and saved.

use redb::{ReadTransaction, WriteTransaction};
use vstd::prelude::*;
use vstd::utf8::{
    decode_utf8, decode_utf8_encode_utf8, encode_utf8, encode_utf8_decode_utf8, encode_utf8_valid_utf8, valid_utf8,
};

use crate::bytes::{get_array, lemma_be_len, lemma_pow256_values, pow256, put_bytes};
use crate::catalog::Table;
use crate::cells::{
    cell_fits, cell_image, cell_models, cells_fit, decode_row, encode_row, lemma_row_image_injective, row_image, Cell,
};
use crate::store::{get, lookup, opened, put, rdb, read, read_if_any, tables_kept, wdb, Db};

verus! {

/// A cell as it is spoken of.
pub type CellModel = Cell<Seq<u8>>;

/// A value that is stored as a row. `M` is the row as it is spoken of, with a
/// `Seq` in place of each `Vec` and `String`.
pub trait Row: Sized {
    type M;

    spec fn model(&self) -> Self::M;

    /// The cells that hold a row.
    spec fn cells(m: Self::M) -> Seq<CellModel>;

    /// Rows with the same cells are the same.
    proof fn cells_injective(a: Self::M, b: Self::M)
        requires
            Self::cells(a) == Self::cells(b),
            cells_fit(Self::cells(a)),
        ensures
            a == b,
    ;

    fn to_cells(&self) -> (r: Vec<Cell<Vec<u8>>>)
        ensures
            cell_models(r@) == Self::cells(self.model()),
    ;

    fn from_cells(cells: &Vec<Cell<Vec<u8>>>) -> (r: Option<Self>)
        ensures
            r matches Some(v) ==> Self::cells(v.model()) == cell_models(cells@),
            r is None ==> forall|m: Self::M| #[trigger] Self::cells(m) != cell_models(cells@),
    ;
}

/// The bytes of a row.
pub open spec fn image<R: Row>(m: R::M) -> Seq<u8> {
    row_image(R::cells(m))
}

/// Whether a row can be held: every cell fits.
pub open spec fn fits<R: Row>(m: R::M) -> bool {
    cells_fit(R::cells(m))
}

/// What is stored under a key.
pub enum Slot<M> {
    /// Nothing.
    Absent,
    /// Bytes that are no row of the table's type.
    Corrupt,
    /// A row.
    Row(M),
}

/// What the bytes of a value hold.
pub open spec fn parsed<R: Row>(b: Seq<u8>) -> Slot<R::M> {
    if exists|m: R::M| fits::<R>(m) && #[trigger] image::<R>(m) == b {
        Slot::Row(choose|m: R::M| fits::<R>(m) && #[trigger] image::<R>(m) == b)
    } else {
        Slot::Corrupt
    }
}

/// What is stored under a key of a table whose rows are `R`s.
pub open spec fn slot<R: Row>(db: Db, t: Table, key: Seq<u8>) -> Slot<R::M> {
    match lookup(db, t, key) {
        None => Slot::Absent,
        Some(b) => parsed::<R>(b),
    }
}

/// The bytes of a row hold that row.
pub proof fn lemma_parsed<R: Row>(m: R::M)
    requires
        fits::<R>(m),
    ensures
        parsed::<R>(image::<R>(m)) == Slot::Row(m),
{
    let b = image::<R>(m);
    let c = choose|c: R::M| fits::<R>(c) && #[trigger] image::<R>(c) == b;
    lemma_row_image_injective(R::cells(c), R::cells(m));
    R::cells_injective(c, m);
}

/// A row that was saved is what is found afterwards.
pub proof fn lemma_saved_row_is_found<R: Row>(db: Db, t: Table, key: Seq<u8>, m: R::M)
    requires
        fits::<R>(m),
    ensures
        slot::<R>(db.insert((t, key), image::<R>(m)), t, key) == Slot::Row(m),
{
    lemma_parsed::<R>(m);
}

/// Writes a row.
pub fn to_bytes<R: Row>(row: &R) -> (r: Vec<u8>)
    ensures
        r@ == image::<R>(row.model()),
        fits::<R>(row.model()),
{
    let cells = row.to_cells();
    encode_row(&cells)
}

/// Reads a row: `None` if the bytes are no row.
pub fn from_bytes<R: Row>(b: &[u8]) -> (r: Option<R>)
    ensures
        r matches Some(v) ==> image::<R>(v.model()) == b@ && fits::<R>(v.model()) && parsed::<R>(b@) == Slot::Row(
            v.model(),
        ),
        r is None ==> parsed::<R>(b@) == Slot::<R::M>::Corrupt,
{
    match decode_row(b) {
        None => {
            proof {
                assert forall|m: R::M| fits::<R>(m) implies #[trigger] image::<R>(m) != b@ by {}
            }
            None
        },
        Some(cells) => {
            match R::from_cells(&cells) {
                Some(v) => {
                    proof {
                        lemma_parsed::<R>(v.model());
                    }
                    Some(v)
                },
                None => {
                    proof {
                        assert forall|m: R::M| fits::<R>(m) implies #[trigger] image::<R>(m) != b@ by {
                            if image::<R>(m) == b@ {
                                lemma_row_image_injective(R::cells(m), cell_models(cells@));
                            }
                        }
                    }
                    None
                },
            }
        },
    }
}

/// Why a row could not be loaded.
#[derive(Debug)]
pub enum LoadError {
    /// The store failed.
    Storage(redb::Error),
    /// The stored bytes are no row.
    Corrupt,
}

/// Loads the row under a key.
pub fn load<R: Row>(txn: &mut WriteTransaction, t: Table, key: &[u8]) -> (r: Result<Option<R>, LoadError>)
    ensures
        tables_kept(*old(txn), *final(txn)),
        wdb(*final(txn)) == wdb(*old(txn)),
        r matches Ok(None) ==> slot::<R>(wdb(*old(txn)), t, key@) == Slot::<R::M>::Absent,
        r matches Ok(Some(v)) ==> slot::<R>(wdb(*old(txn)), t, key@) == Slot::Row(v.model()) && fits::<R>(v.model()),
        r matches Err(LoadError::Corrupt) ==> slot::<R>(wdb(*old(txn)), t, key@) == Slot::<R::M>::Corrupt,
{
    match get(txn, t, key) {
        Err(e) => Err(LoadError::Storage(e)),
        Ok(None) => Ok(None),
        Ok(Some(b)) => match from_bytes::<R>(b.as_slice()) {
            Some(v) => Ok(Some(v)),
            None => Err(LoadError::Corrupt),
        },
    }
}

/// Loads the row under a key of a snapshot. The table must exist.
pub fn load_at<R: Row>(txn: &ReadTransaction, t: Table, key: &[u8]) -> (r: Result<Option<R>, LoadError>)
    ensures
        r is Ok ==> opened(*txn, t),
        r matches Ok(None) ==> slot::<R>(rdb(*txn), t, key@) == Slot::<R::M>::Absent,
        r matches Ok(Some(v)) ==> slot::<R>(rdb(*txn), t, key@) == Slot::Row(v.model()) && fits::<R>(v.model()),
        r matches Err(LoadError::Corrupt) ==> slot::<R>(rdb(*txn), t, key@) == Slot::<R::M>::Corrupt,
{
    match read(txn, t, key) {
        Err(e) => Err(LoadError::Storage(e)),
        Ok(None) => Ok(None),
        Ok(Some(b)) => match from_bytes::<R>(b.as_slice()) {
            Some(v) => Ok(Some(v)),
            None => Err(LoadError::Corrupt),
        },
    }
}

/// Loads the row under a key of a snapshot. A table that does not exist holds
/// none.
pub fn load_if_any<R: Row>(txn: &ReadTransaction, t: Table, key: &[u8]) -> (r: Result<Option<R>, LoadError>)
    ensures
        r matches Ok(None) ==> slot::<R>(rdb(*txn), t, key@) == Slot::<R::M>::Absent,
        r matches Ok(Some(v)) ==> slot::<R>(rdb(*txn), t, key@) == Slot::Row(v.model()) && fits::<R>(v.model()),
        r matches Err(LoadError::Corrupt) ==> slot::<R>(rdb(*txn), t, key@) == Slot::<R::M>::Corrupt,
{
    match read_if_any(txn, t, key) {
        Err(e) => Err(LoadError::Storage(e)),
        Ok(None) => Ok(None),
        Ok(Some(b)) => match from_bytes::<R>(b.as_slice()) {
            Some(v) => Ok(Some(v)),
            None => Err(LoadError::Corrupt),
        },
    }
}

/// Saves a row under a key, in place of the one that was there.
pub fn save<R: Row>(txn: &mut WriteTransaction, t: Table, key: &[u8], row: &R) -> (r: Result<(), redb::Error>)
    ensures
        tables_kept(*old(txn), *final(txn)),
        wdb(*final(txn)).home == wdb(*old(txn)).home,
        r is Ok ==> wdb(*final(txn)) == wdb(*old(txn)).insert((t, key@), image::<R>(row.model())),
        fits::<R>(row.model()),
{
    let b = to_bytes(row);
    put(txn, t, key, b.as_slice())
}

// Cells of the field types.

pub open spec fn opt_int(o: Option<u64>) -> CellModel {
    match o {
        Some(x) => Cell::Int(x),
        None => Cell::Nil,
    }
}

pub open spec fn opt_blob<const N: usize>(o: Option<[u8; N]>) -> CellModel {
    match o {
        Some(x) => Cell::Blob(x@),
        None => Cell::Nil,
    }
}

pub open spec fn text(s: Seq<char>) -> CellModel {
    Cell::Blob(encode_utf8(s))
}

pub open spec fn opt_text(o: Option<Seq<char>>) -> CellModel {
    match o {
        Some(s) => text(s),
        None => Cell::Nil,
    }
}

pub open spec fn flag(b: bool) -> CellModel {
    Cell::Int(if b {
        1u64
    } else {
        0u64
    })
}

/// The view of an optional string.
pub open spec fn opt_view(o: Option<String>) -> Option<Seq<char>> {
    match o {
        Some(s) => Some(s@),
        None => None,
    }
}

/// Equal text cells hold the same text.
pub broadcast proof fn lemma_text_injective(a: Seq<char>, b: Seq<char>)
    requires
        #[trigger] encode_utf8(a) == #[trigger] encode_utf8(b),
    ensures
        a == b,
{
    encode_utf8_decode_utf8(a);
    encode_utf8_decode_utf8(b);
}

/// Arrays with the same bytes are the same.
pub broadcast proof fn lemma_array_injective<const N: usize>(a: [u8; N], b: [u8; N])
    requires
        #[trigger] a@ == #[trigger] b@,
    ensures
        a == b,
{
    assert(a =~= b);
}

/// Equal optional cells hold the same bytes, or nothing.
pub proof fn lemma_opt_blob_injective<const N: usize>(a: Option<[u8; N]>, b: Option<[u8; N]>)
    requires
        opt_blob(a) == opt_blob(b),
    ensures
        a == b,
{
    if let (Some(x), Some(y)) = (a, b) {
        lemma_array_injective(x, y);
    }
}

/// Equal optional text cells hold the same text, or nothing.
pub proof fn lemma_opt_text_injective(a: Option<Seq<char>>, b: Option<Seq<char>>)
    requires
        opt_text(a) == opt_text(b),
    ensures
        a == b,
{
    if let (Some(x), Some(y)) = (a, b) {
        lemma_text_injective(x, y);
    }
}

pub broadcast group group_row_fields {
    lemma_text_injective,
    lemma_array_injective,
}

pub fn int_cell(x: u64) -> (r: Cell<Vec<u8>>)
    ensures
        r.model() == CellModel::Int(x),
{
    Cell::Int(x)
}

pub fn flag_cell(b: bool) -> (r: Cell<Vec<u8>>)
    ensures
        r.model() == flag(b),
{
    if b {
        Cell::Int(1)
    } else {
        Cell::Int(0)
    }
}

pub fn opt_int_cell(o: Option<u64>) -> (r: Cell<Vec<u8>>)
    ensures
        r.model() == opt_int(o),
{
    match o {
        Some(x) => Cell::Int(x),
        None => Cell::Nil,
    }
}

pub fn blob_cell(b: &[u8]) -> (r: Cell<Vec<u8>>)
    ensures
        r.model() == CellModel::Blob(b@),
{
    let mut v: Vec<u8> = Vec::new();
    put_bytes(&mut v, b);
    proof {
        assert(v@ =~= b@);
    }
    Cell::Blob(v)
}

pub fn opt_blob_cell<const N: usize>(o: &Option<[u8; N]>) -> (r: Cell<Vec<u8>>)
    ensures
        r.model() == opt_blob(*o),
{
    match o {
        Some(x) => blob_cell(x.as_slice()),
        None => Cell::Nil,
    }
}

pub fn text_cell(s: &String) -> (r: Cell<Vec<u8>>)
    ensures
        r.model() == text(s@),
{
    blob_cell(s.as_str().as_bytes())
}

pub fn opt_text_cell(o: &Option<String>) -> (r: Cell<Vec<u8>>)
    ensures
        r.model() == opt_text(opt_view(*o)),
{
    match o {
        Some(s) => text_cell(s),
        None => Cell::Nil,
    }
}

/// `String::from_utf8`: the text that the bytes encode, if they are well-formed
/// UTF-8.
#[verifier::external_body]
pub(crate) fn string_from_utf8(b: Vec<u8>) -> (r: Option<String>)
    ensures
        r matches Some(s) ==> valid_utf8(b@) && s@ == decode_utf8(b@),
        r is None ==> !valid_utf8(b@),
{
    String::from_utf8(b).ok()
}

/// The number in a cell.
pub fn int_at(cells: &Vec<Cell<Vec<u8>>>, i: usize) -> (r: Option<u64>)
    requires
        i < cells@.len(),
    ensures
        r matches Some(x) ==> cell_models(cells@)[i as int] == CellModel::Int(x),
        r is None ==> !(cell_models(cells@)[i as int] is Int),
{
    match &cells[i] {
        Cell::Int(x) => Some(*x),
        _ => None,
    }
}

/// The number in a cell, if it is at most `max`.
pub fn bounded_at(cells: &Vec<Cell<Vec<u8>>>, i: usize, max: u64) -> (r: Option<u64>)
    requires
        i < cells@.len(),
    ensures
        r matches Some(x) ==> x <= max && cell_models(cells@)[i as int] == CellModel::Int(x),
        r is None ==> !(cell_models(cells@)[i as int] matches Cell::Int(x) && x <= max),
{
    match &cells[i] {
        Cell::Int(x) => if *x <= max {
            Some(*x)
        } else {
            None
        },
        _ => None,
    }
}

pub fn u8_at(cells: &Vec<Cell<Vec<u8>>>, i: usize) -> (r: Option<u8>)
    requires
        i < cells@.len(),
    ensures
        r matches Some(x) ==> cell_models(cells@)[i as int] == CellModel::Int(x as u64),
        r is None ==> !(cell_models(cells@)[i as int] matches Cell::Int(x) && x <= 0xff),
{
    match bounded_at(cells, i, 0xff) {
        Some(x) => Some(x as u8),
        None => None,
    }
}

pub fn u32_at(cells: &Vec<Cell<Vec<u8>>>, i: usize) -> (r: Option<u32>)
    requires
        i < cells@.len(),
    ensures
        r matches Some(x) ==> cell_models(cells@)[i as int] == CellModel::Int(x as u64),
        r is None ==> !(cell_models(cells@)[i as int] matches Cell::Int(x) && x <= 0xffff_ffff),
{
    match bounded_at(cells, i, 0xffff_ffff) {
        Some(x) => Some(x as u32),
        None => None,
    }
}

pub fn flag_at(cells: &Vec<Cell<Vec<u8>>>, i: usize) -> (r: Option<bool>)
    requires
        i < cells@.len(),
    ensures
        r matches Some(x) ==> cell_models(cells@)[i as int] == flag(x),
        r is None ==> forall|x: bool| cell_models(cells@)[i as int] != #[trigger] flag(x),
{
    match &cells[i] {
        Cell::Int(x) => if *x == 0 {
            Some(false)
        } else if *x == 1 {
            Some(true)
        } else {
            None
        },
        _ => None,
    }
}

pub fn opt_int_at(cells: &Vec<Cell<Vec<u8>>>, i: usize) -> (r: Option<Option<u64>>)
    requires
        i < cells@.len(),
    ensures
        r matches Some(x) ==> cell_models(cells@)[i as int] == opt_int(x),
        r is None ==> forall|x: Option<u64>| cell_models(cells@)[i as int] != #[trigger] opt_int(x),
{
    match &cells[i] {
        Cell::Nil => Some(None),
        Cell::Int(x) => Some(Some(*x)),
        _ => None,
    }
}

/// The byte string in a cell.
pub fn bytes_at(cells: &Vec<Cell<Vec<u8>>>, i: usize) -> (r: Option<Vec<u8>>)
    requires
        i < cells@.len(),
    ensures
        r matches Some(x) ==> cell_models(cells@)[i as int] == CellModel::Blob(x@),
        r is None ==> !(cell_models(cells@)[i as int] is Blob),
{
    match &cells[i] {
        Cell::Blob(b) => {
            let mut v: Vec<u8> = Vec::new();
            put_bytes(&mut v, b.as_slice());
            proof {
                assert(v@ =~= b@);
            }
            Some(v)
        },
        _ => None,
    }
}

/// The `N` bytes in a cell.
pub fn array_at<const N: usize>(cells: &Vec<Cell<Vec<u8>>>, i: usize) -> (r: Option<[u8; N]>)
    requires
        i < cells@.len(),
    ensures
        r matches Some(x) ==> cell_models(cells@)[i as int] == CellModel::Blob(x@),
        r is None ==> forall|x: [u8; N]| cell_models(cells@)[i as int] != CellModel::Blob(#[trigger] x@),
{
    match &cells[i] {
        Cell::Blob(b) => {
            if b.len() == N {
                let x = get_array::<N>(b.as_slice(), 0);
                proof {
                    assert(x@ =~= b@);
                }
                Some(x)
            } else {
                None
            }
        },
        _ => None,
    }
}

pub fn opt_array_at<const N: usize>(cells: &Vec<Cell<Vec<u8>>>, i: usize) -> (r: Option<Option<[u8; N]>>)
    requires
        i < cells@.len(),
    ensures
        r matches Some(x) ==> cell_models(cells@)[i as int] == opt_blob(x),
        r is None ==> forall|x: Option<[u8; N]>| cell_models(cells@)[i as int] != #[trigger] opt_blob(x),
{
    match &cells[i] {
        Cell::Nil => Some(None),
        _ => match array_at::<N>(cells, i) {
            Some(x) => Some(Some(x)),
            None => None,
        },
    }
}

pub fn text_at(cells: &Vec<Cell<Vec<u8>>>, i: usize) -> (r: Option<String>)
    requires
        i < cells@.len(),
    ensures
        r matches Some(x) ==> cell_models(cells@)[i as int] == text(x@),
        r is None ==> forall|x: Seq<char>| cell_models(cells@)[i as int] != #[trigger] text(x),
{
    proof {
        assert forall|x: Seq<char>| valid_utf8(#[trigger] encode_utf8(x)) by {
            encode_utf8_valid_utf8(x);
        }
    }
    match bytes_at(cells, i) {
        None => None,
        Some(b) => {
            proof {
                if valid_utf8(b@) {
                    decode_utf8_encode_utf8(b@);
                }
            }
            string_from_utf8(b)
        },
    }
}

pub fn opt_text_at(cells: &Vec<Cell<Vec<u8>>>, i: usize) -> (r: Option<Option<String>>)
    requires
        i < cells@.len(),
    ensures
        r matches Some(x) ==> cell_models(cells@)[i as int] == opt_text(opt_view(x)),
        r is None ==> forall|x: Option<Seq<char>>| cell_models(cells@)[i as int] != #[trigger] opt_text(x),
{
    match &cells[i] {
        Cell::Nil => Some(None),
        _ => match text_at(cells, i) {
            Some(x) => Some(Some(x)),
            None => None,
        },
    }
}

// Lists of records of one width, packed into one cell.

/// A record of fixed width every byte string of which is one record.
pub trait Packed: Sized + Copy {
    spec fn width() -> nat;

    spec fn packed(self) -> Seq<u8>;

    proof fn packed_injective(a: Self, b: Self)
        requires
            a.packed() == b.packed(),
        ensures
            a == b,
    ;

    proof fn packed_width(self)
        ensures
            self.packed().len() == Self::width(),
            0 < Self::width() <= 64,
    ;

    fn record_width() -> (r: usize)
        ensures
            r == Self::width(),
            0 < r <= 64,
    ;

    fn pack(&self, out: &mut Vec<u8>)
        ensures
            final(out)@ == old(out)@ + (*self).packed(),
    ;

    fn unpack(buf: &[u8], at: usize) -> (r: Self)
        requires
            at + Self::width() <= buf@.len(),
        ensures
            r.packed() == buf@.subrange(at as int, at + Self::width()),
    ;
}

/// The records one after the other.
pub open spec fn packed_all<T: Packed>(s: Seq<T>) -> Seq<u8>
    decreases s.len(),
{
    if s.len() == 0 {
        Seq::empty()
    } else {
        packed_all(s.drop_last()) + s.last().packed()
    }
}

pub open spec fn list<T: Packed>(s: Seq<T>) -> CellModel {
    Cell::Blob(packed_all(s))
}

pub proof fn lemma_packed_len<T: Packed>(s: Seq<T>)
    ensures
        packed_all(s).len() == s.len() * T::width(),
        packed_all(s).len() >= s.len(),
    decreases s.len(),
{
    if s.len() > 0 {
        lemma_packed_len(s.drop_last());
        s.last().packed_width();
        assert((s.len() - 1) * T::width() + T::width() == s.len() * T::width()) by (nonlinear_arith)
            requires
                s.len() > 0,
        ;
        assert((s.len() * T::width()) >= s.len()) by (nonlinear_arith)
            requires
                T::width() >= 1,
        ;
    }
}

/// Equal list cells hold the same list.
pub proof fn lemma_packed_injective<T: Packed>(a: Seq<T>, b: Seq<T>)
    requires
        packed_all(a) == packed_all(b),
    ensures
        a == b,
    decreases a.len(),
{
    lemma_packed_len(a);
    lemma_packed_len(b);
    if a.len() == 0 || b.len() == 0 {
        assert(a =~= b);
    } else {
        a.last().packed_width();
        b.last().packed_width();
        let n = packed_all(a).len() - T::width();
        assert(packed_all(a).take(n as int) =~= packed_all(a.drop_last()));
        assert(packed_all(b).take(n as int) =~= packed_all(b.drop_last()));
        assert(packed_all(a).skip(n as int) =~= a.last().packed());
        assert(packed_all(b).skip(n as int) =~= b.last().packed());
        T::packed_injective(a.last(), b.last());
        lemma_packed_injective(a.drop_last(), b.drop_last());
        assert(a =~= a.drop_last().push(a.last()));
        assert(b =~= b.drop_last().push(b.last()));
    }
}

pub fn list_cell<T: Packed>(s: &Vec<T>) -> (r: Cell<Vec<u8>>)
    ensures
        r.model() == list(s@),
{
    let mut out: Vec<u8> = Vec::new();
    let mut i: usize = 0;
    while i < s.len()
        invariant
            i <= s.len(),
            out@ == packed_all(s@.take(i as int)),
        decreases s.len() - i,
    {
        s[i].pack(&mut out);
        i = i + 1;
        proof {
            assert(s@.take(i as int).drop_last() =~= s@.take(i as int - 1));
        }
    }
    proof {
        assert(s@.take(i as int) =~= s@);
    }
    Cell::Blob(out)
}

pub fn list_at<T: Packed>(cells: &Vec<Cell<Vec<u8>>>, i: usize) -> (r: Option<Vec<T>>)
    requires
        i < cells@.len(),
    ensures
        r matches Some(x) ==> cell_models(cells@)[i as int] == list(x@),
        r is None ==> forall|x: Seq<T>| cell_models(cells@)[i as int] != #[trigger] list(x),
{
    let w: usize = T::record_width();
    match &cells[i] {
        Cell::Blob(b) => {
            let mut out: Vec<T> = Vec::new();
            let mut at: usize = 0;
            let end: usize = b.len();
            proof {
                assert(b@.take(0) =~= Seq::<u8>::empty());
            }
            while end - at >= w
                invariant
                    0 < w == T::width(),
                    at <= end == b@.len(),
                    b@.take(at as int) == packed_all(out@),
                decreases end - at,
            {
                let x = T::unpack(b.as_slice(), at);
                let ghost before = out@;
                out.push(x);
                proof {
                    assert(out@.drop_last() =~= before);
                    assert(b@.take(at + w) =~= b@.take(at as int) + b@.subrange(at as int, at + w));
                }
                at = at + w;
            }
            if at == end {
                proof {
                    assert(b@.take(at as int) =~= b@);
                }
                Some(out)
            } else {
                proof {
                    assert forall|x: Seq<T>| packed_all(x) != b@ by {
                        if packed_all(x) == b@ {
                            lemma_packed_len(x);
                            lemma_packed_len(out@);
                            assert(false) by (nonlinear_arith)
                                requires
                                    end == x.len() * w,
                                    at == out@.len() * w,
                                    0 < end - at < w,
                            ;
                        }
                    }
                }
                None
            }
        },
        _ => None,
    }
}

impl Packed for [u8; 16] {
    open spec fn width() -> nat {
        16
    }

    open spec fn packed(self) -> Seq<u8> {
        self@
    }

    proof fn packed_injective(a: Self, b: Self) {
        assert(a =~= b);
    }

    proof fn packed_width(self) {
    }

    fn record_width() -> (r: usize) {
        16
    }

    fn pack(&self, out: &mut Vec<u8>) {
        put_bytes(out, self.as_slice());
    }

    fn unpack(buf: &[u8], at: usize) -> (r: Self) {
        get_array::<16>(buf, at)
    }
}

// Lists of rows, in one cell.

/// A text as a row.
impl Row for String {
    type M = Seq<char>;

    open spec fn model(&self) -> Seq<char> {
        self@
    }

    open spec fn cells(m: Seq<char>) -> Seq<CellModel> {
        seq![text(m)]
    }

    proof fn cells_injective(a: Seq<char>, b: Seq<char>) {
        broadcast use group_row_fields;

        assert(Self::cells(a)[0] == text(a) && Self::cells(b)[0] == text(b));
        lemma_text_injective(a, b);
    }

    fn to_cells(&self) -> (r: Vec<Cell<Vec<u8>>>) {
        let cells: Vec<Cell<Vec<u8>>> = vec![text_cell(self)];
        proof {
            assert(cell_models(cells@) =~= Self::cells(self.model()));
        }
        cells
    }

    fn from_cells(cells: &Vec<Cell<Vec<u8>>>) -> (r: Option<Self>) {
        if cells.len() != 1 {
            proof {
                assert forall|m: Seq<char>| #[trigger] Self::cells(m) != cell_models(cells@) by {
                    assert(Self::cells(m).len() == 1);
                }
            }
            return None;
        }
        match text_at(cells, 0) {
            Some(x) => {
                proof {
                    assert(Self::cells(x.model()) =~= cell_models(cells@));
                }
                Some(x)
            },
            None => {
                proof {
                    assert forall|m: Seq<char>| #[trigger] Self::cells(m) != cell_models(cells@) by {
                        assert(Self::cells(m)[0] == text(m));
                    }
                }
                None
            },
        }
    }
}

/// The rows of a list as they are spoken of.
pub open spec fn row_models<R: Row>(s: Seq<R>) -> Seq<R::M> {
    s.map_values(|r: R| r.model())
}

/// The cells of a list of rows: each holds the bytes of a row.
pub open spec fn row_blobs<R: Row>(s: Seq<R::M>) -> Seq<CellModel> {
    s.map_values(|m: R::M| Cell::Blob(image::<R>(m)))
}

/// A list of rows.
pub open spec fn rows<R: Row>(s: Seq<R::M>) -> CellModel {
    Cell::Blob(row_image(row_blobs::<R>(s)))
}

/// The cells of a byte string that can be held can be held.
pub proof fn lemma_cells_inside_fit(cells: Seq<CellModel>)
    requires
        row_image(cells).len() < pow256(8),
    ensures
        cells_fit(cells),
    decreases cells.len(),
{
    if cells.len() > 0 {
        lemma_cells_inside_fit(cells.drop_last());
        if let Cell::Blob(b) = cells.last() {
            lemma_be_len(b.len(), 8);
        }
        assert(cell_image(cells.last()).len() < pow256(8));
        assert forall|i: int| 0 <= i < cells.len() implies cell_fits(#[trigger] cells[i]) by {
            if i < cells.len() - 1 {
                assert(cells[i] == cells.drop_last()[i]);
            }
        }
    }
}

/// Equal list cells hold the same rows.
pub proof fn lemma_rows_injective<R: Row>(a: Seq<R::M>, b: Seq<R::M>)
    requires
        rows::<R>(a) == rows::<R>(b),
        cell_fits(rows::<R>(a)),
    ensures
        a == b,
{
    let x = row_blobs::<R>(a);
    let y = row_blobs::<R>(b);
    assert(row_image(x) == row_image(y));
    lemma_cells_inside_fit(x);
    lemma_cells_inside_fit(y);
    lemma_row_image_injective(x, y);
    assert(a.len() == x.len() && b.len() == y.len());
    assert forall|i: int| 0 <= i < a.len() implies a[i] == b[i] by {
        assert(x[i] == y[i]);
        assert(image::<R>(a[i]) == image::<R>(b[i]));
        assert(cell_fits(x[i]));
        lemma_cells_inside_fit(R::cells(a[i]));
        lemma_cells_inside_fit(R::cells(b[i]));
        lemma_row_image_injective(R::cells(a[i]), R::cells(b[i]));
        R::cells_injective(a[i], b[i]);
    }
    assert(a =~= b);
}

pub fn rows_cell<R: Row>(s: &Vec<R>) -> (r: Cell<Vec<u8>>)
    ensures
        r.model() == rows::<R>(row_models(s@)),
{
    let ghost blobs = row_blobs::<R>(row_models(s@));
    let mut cells: Vec<Cell<Vec<u8>>> = Vec::new();
    let mut i: usize = 0;
    while i < s.len()
        invariant
            i <= s.len(),
            blobs == row_blobs::<R>(row_models(s@)),
            cell_models(cells@) == blobs.take(i as int),
        decreases s.len() - i,
    {
        let ghost before = cell_models(cells@);
        cells.push(Cell::Blob(to_bytes(&s[i])));
        proof {
            assert(cell_models(cells@) =~= before.push(blobs[i as int]));
            assert(blobs.take(i + 1) =~= blobs.take(i as int).push(blobs[i as int]));
        }
        i = i + 1;
    }
    proof {
        assert(blobs.take(i as int) =~= blobs);
    }
    Cell::Blob(encode_row(&cells))
}

pub fn rows_at<R: Row>(cells: &Vec<Cell<Vec<u8>>>, i: usize) -> (r: Option<Vec<R>>)
    requires
        i < cells@.len(),
    ensures
        r matches Some(x) ==> cell_models(cells@)[i as int] == rows::<R>(row_models(x@)),
        r is None ==> forall|x: Seq<R::M>| cell_models(cells@)[i as int] != #[trigger] rows::<R>(x),
{
    let b = match bytes_at(cells, i) {
        Some(b) => b,
        None => return None,
    };
    let held: usize = b.len();
    proof {
        lemma_pow256_values();
        assert(b@.len() == held);
        assert forall|x: Seq<R::M>| cell_models(cells@)[i as int] == #[trigger] rows::<R>(x) implies cells_fit(
            row_blobs::<R>(x),
        ) && row_image(row_blobs::<R>(x)) == b@ by {
            lemma_cells_inside_fit(row_blobs::<R>(x));
        }
    }
    let inner = match decode_row(b.as_slice()) {
        Some(c) => c,
        None => return None,
    };
    let ghost models = cell_models(inner@);
    proof {
        assert forall|x: Seq<R::M>| cell_models(cells@)[i as int] == #[trigger] rows::<R>(x) implies row_blobs::<R>(x)
            == models by {
            lemma_row_image_injective(row_blobs::<R>(x), models);
        }
    }
    let mut out: Vec<R> = Vec::new();
    let mut k: usize = 0;
    proof {
        assert(row_blobs::<R>(row_models(out@)) =~= models.take(0));
    }
    while k < inner.len()
        invariant
            k <= inner.len(),
            i < cells@.len(),
            models == cell_models(inner@),
            row_blobs::<R>(row_models(out@)) == models.take(k as int),
            forall|x: Seq<R::M>| cell_models(cells@)[i as int] == #[trigger] rows::<R>(x) ==> row_blobs::<R>(x)
                == models,
        decreases inner.len() - k,
    {
        let row: R = match &inner[k] {
            Cell::Blob(c) => match from_bytes::<R>(c.as_slice()) {
                Some(row) => row,
                None => {
                    let held: usize = c.len();
                    proof {
                        assert(c@.len() == held);
                        assert forall|x: Seq<R::M>| cell_models(cells@)[i as int] != #[trigger] rows::<R>(x) by {
                            if cell_models(cells@)[i as int] == rows::<R>(x) {
                                assert(row_blobs::<R>(x)[k as int] == Cell::Blob(c@));
                                assert(row_blobs::<R>(x).len() == x.len());
                                assert(image::<R>(x[k as int]) == c@);
                                lemma_pow256_values();
                                lemma_cells_inside_fit(R::cells(x[k as int]));
                                lemma_parsed::<R>(x[k as int]);
                            }
                        }
                    }
                    return None;
                },
            },
            _ => {
                proof {
                    assert forall|x: Seq<R::M>| cell_models(cells@)[i as int] != #[trigger] rows::<R>(x) by {
                        if cell_models(cells@)[i as int] == rows::<R>(x) {
                            assert(row_blobs::<R>(x).len() == x.len());
                            assert(row_blobs::<R>(x)[k as int] == CellModel::Blob(image::<R>(x[k as int])));
                        }
                    }
                }
                return None;
            },
        };
        let ghost before = row_models(out@);
        out.push(row);
        proof {
            assert(row_models(out@) =~= before.push(row.model()));
            assert(row_blobs::<R>(row_models(out@)) =~= row_blobs::<R>(before).push(Cell::Blob(image::<R>(row.model()))));
            assert(models.take(k + 1) =~= models.take(k as int).push(models[k as int]));
        }
        k = k + 1;
    }
    proof {
        assert(models.take(k as int) =~= models);
    }
    Some(out)
}

/// A copy of a text.
pub fn copy_text(s: &String) -> (r: String)
    ensures
        r@ == s@,
{
    s.as_str().to_owned()
}

/// A copy of a list of texts.
pub fn copy_texts(v: &Vec<String>) -> (r: Vec<String>)
    ensures
        row_models(r@) == row_models(v@),
{
    let mut out: Vec<String> = Vec::new();
    let mut i: usize = 0;
    while i < v.len()
        invariant
            i <= v.len(),
            row_models(out@) == row_models(v@).take(i as int),
        decreases v.len() - i,
    {
        let ghost before = row_models(out@);
        out.push(copy_text(&v[i]));
        proof {
            assert(row_models(out@) =~= before.push(v@[i as int]@));
            assert(row_models(v@).take(i + 1) =~= row_models(v@).take(i as int).push(v@[i as int]@));
        }
        i = i + 1;
    }
    proof {
        assert(row_models(v@).take(i as int) =~= row_models(v@));
    }
    out
}

impl Packed for [u8; 3] {
    open spec fn width() -> nat {
        3
    }

    open spec fn packed(self) -> Seq<u8> {
        self@
    }

    proof fn packed_injective(a: Self, b: Self) {
        assert(a =~= b);
    }

    proof fn packed_width(self) {
    }

    fn record_width() -> (r: usize) {
        3
    }

    fn pack(&self, out: &mut Vec<u8>) {
        put_bytes(out, self.as_slice());
    }

    fn unpack(buf: &[u8], at: usize) -> (r: Self) {
        get_array::<3>(buf, at)
    }
}

} // verus!
