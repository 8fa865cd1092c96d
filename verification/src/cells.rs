//! The image of a table row: a sequence of cells, each a number, a byte string
//! or nothing.

use vstd::prelude::*;

use crate::bytes::{
    be, get_be, get_bytes, lemma_be_injective, lemma_be_len, lemma_pow256_values, pow256, put_be, put_bytes,
};
use crate::order::has_prefix;

verus! {

/// One field of a row. `B` is `Vec<u8>` in a row that is held and `Seq<u8>` in
/// one that is spoken of.
pub enum Cell<B> {
    Nil,
    Int(u64),
    Blob(B),
}

impl Cell<Vec<u8>> {
    pub open spec fn model(&self) -> Cell<Seq<u8>> {
        match self {
            Cell::Nil => Cell::Nil,
            Cell::Int(x) => Cell::Int(*x),
            Cell::Blob(b) => Cell::Blob(b@),
        }
    }
}

/// The cells of a held row, as they are spoken of.
pub open spec fn cell_models(cells: Seq<Cell<Vec<u8>>>) -> Seq<Cell<Seq<u8>>> {
    cells.map_values(|c: Cell<Vec<u8>>| c.model())
}

/// Whether a cell can be held: its length is a 64-bit number.
pub open spec fn cell_fits(c: Cell<Seq<u8>>) -> bool {
    c matches Cell::Blob(b) ==> b.len() < pow256(8)
}

pub open spec fn cells_fit(cells: Seq<Cell<Seq<u8>>>) -> bool {
    forall|i: int| 0 <= i < cells.len() ==> cell_fits(#[trigger] cells[i])
}

/// The bytes of one cell: a tag, then the number, or the length and the bytes.
pub open spec fn cell_image(c: Cell<Seq<u8>>) -> Seq<u8> {
    match c {
        Cell::Nil => seq![0u8],
        Cell::Int(x) => seq![1u8] + be(x as nat, 8),
        Cell::Blob(b) => seq![2u8] + be(b.len(), 8) + b,
    }
}

/// The bytes of a row: those of its cells, one after the other.
pub open spec fn row_image(cells: Seq<Cell<Seq<u8>>>) -> Seq<u8>
    decreases cells.len(),
{
    if cells.len() == 0 {
        Seq::empty()
    } else {
        row_image(cells.drop_last()) + cell_image(cells.last())
    }
}

/// Of two cells whose bytes begin one string, both are the same cell.
pub proof fn lemma_cell_prefix_unique(a: Cell<Seq<u8>>, b: Cell<Seq<u8>>, s: Seq<u8>)
    requires
        cell_fits(a),
        cell_fits(b),
        has_prefix(s, cell_image(a)),
        has_prefix(s, cell_image(b)),
    ensures
        a == b,
{
    lemma_pow256_values();
    let ia = cell_image(a);
    let ib = cell_image(b);
    assert(s[0] == s.take(ia.len() as int)[0]);
    assert(s[0] == s.take(ib.len() as int)[0]);
    match a {
        Cell::Nil => {},
        Cell::Int(x) => {
            lemma_be_len(x as nat, 8);
            assert(ia.subrange(1, 9) =~= be(x as nat, 8));
            assert(s.subrange(1, 9) =~= ia.subrange(1, 9));
            if let Cell::Int(y) = b {
                lemma_be_len(y as nat, 8);
                assert(ib.subrange(1, 9) =~= be(y as nat, 8));
                assert(s.subrange(1, 9) =~= ib.subrange(1, 9));
                lemma_be_injective(x as nat, y as nat, 8);
            }
        },
        Cell::Blob(x) => {
            lemma_be_len(x.len(), 8);
            assert(ia.subrange(1, 9) =~= be(x.len(), 8));
            assert(s.subrange(1, 9) =~= ia.subrange(1, 9));
            if let Cell::Blob(y) = b {
                lemma_be_len(y.len(), 8);
                assert(ib.subrange(1, 9) =~= be(y.len(), 8));
                assert(s.subrange(1, 9) =~= ib.subrange(1, 9));
                lemma_be_injective(x.len(), y.len(), 8);
                assert(ia =~= ib);
                assert(ia.skip(9) =~= x);
                assert(ib.skip(9) =~= y);
            }
        },
    }
}

/// The bytes of the first `n` cells begin the bytes of the row, and the next
/// cell follows them.
pub proof fn lemma_row_image_split(cells: Seq<Cell<Seq<u8>>>, n: int)
    requires
        0 <= n <= cells.len(),
    ensures
        has_prefix(row_image(cells), row_image(cells.take(n))),
        n < cells.len() ==> has_prefix(
            row_image(cells).skip(row_image(cells.take(n)).len() as int),
            cell_image(cells[n]),
        ),
    decreases cells.len() - n,
{
    let whole = row_image(cells);
    let head = row_image(cells.take(n));
    if n == cells.len() {
        assert(cells.take(n) =~= cells);
        assert(whole.take(head.len() as int) =~= head);
    } else {
        lemma_row_image_split(cells, n + 1);
        let next = row_image(cells.take(n + 1));
        assert(cells.take(n + 1).drop_last() =~= cells.take(n));
        assert(next == head + cell_image(cells[n]));
        assert(whole.take(head.len() as int) =~= next.take(head.len() as int)) by {
            assert(whole.take(next.len() as int) == next);
            assert forall|i: int| 0 <= i < head.len() implies whole[i] == next[i] by {
                assert(whole[i] == whole.take(next.len() as int)[i]);
            }
        }
        assert(next.take(head.len() as int) =~= head);
        let rest = whole.skip(head.len() as int);
        assert(rest.take(cell_image(cells[n]).len() as int) =~= cell_image(cells[n])) by {
            assert forall|i: int| 0 <= i < cell_image(cells[n]).len() implies rest[i] == cell_image(cells[n])[i] by {
                assert(whole[head.len() + i] == whole.take(next.len() as int)[head.len() + i]);
            }
        }
    }
}

proof fn lemma_common_cells(a: Seq<Cell<Seq<u8>>>, b: Seq<Cell<Seq<u8>>>, n: int)
    requires
        cells_fit(a),
        cells_fit(b),
        row_image(a) == row_image(b),
        0 <= n <= a.len(),
        n <= b.len(),
    ensures
        a.take(n) == b.take(n),
    decreases n,
{
    if n == 0 {
        assert(a.take(0) =~= b.take(0));
    } else {
        lemma_common_cells(a, b, n - 1);
        lemma_row_image_split(a, n - 1);
        lemma_row_image_split(b, n - 1);
        let rest = row_image(a).skip(row_image(a.take(n - 1)).len() as int);
        lemma_cell_prefix_unique(a[n - 1], b[n - 1], rest);
        assert(a.take(n) =~= a.take(n - 1).push(a[n - 1]));
        assert(b.take(n) =~= b.take(n - 1).push(b[n - 1]));
    }
}

proof fn lemma_row_image_monotone(cells: Seq<Cell<Seq<u8>>>, n: int)
    requires
        0 <= n < cells.len(),
    ensures
        row_image(cells.take(n)).len() < row_image(cells).len(),
{
    lemma_row_image_split(cells, n);
    lemma_row_image_split(cells, n + 1);
    assert(cells.take(n + 1).drop_last() =~= cells.take(n));
    assert(cell_image(cells[n]).len() > 0);
}

/// Two rows with the same bytes have the same cells.
pub proof fn lemma_row_image_injective(a: Seq<Cell<Seq<u8>>>, b: Seq<Cell<Seq<u8>>>)
    requires
        cells_fit(a),
        cells_fit(b),
        row_image(a) == row_image(b),
    ensures
        a == b,
{
    let n: int = if a.len() <= b.len() {
        a.len() as int
    } else {
        b.len() as int
    };
    lemma_common_cells(a, b, n);
    assert(a.take(a.len() as int) =~= a);
    assert(b.take(b.len() as int) =~= b);
    if a.len() < b.len() {
        lemma_row_image_monotone(b, n);
    } else if b.len() < a.len() {
        lemma_row_image_monotone(a, n);
    }
}

/// Writes a row.
pub fn encode_row(cells: &Vec<Cell<Vec<u8>>>) -> (r: Vec<u8>)
    ensures
        r@ == row_image(cell_models(cells@)),
        cells_fit(cell_models(cells@)),
{
    let ghost models = cell_models(cells@);
    let mut out: Vec<u8> = Vec::new();
    let mut i: usize = 0;
    while i < cells.len()
        invariant
            i <= cells.len(),
            models == cell_models(cells@),
            out@ == row_image(models.take(i as int)),
            forall|j: int| 0 <= j < i ==> cell_fits(#[trigger] models[j]),
        decreases cells.len() - i,
    {
        let ghost before = out@;
        proof {
            lemma_pow256_values();
        }
        match &cells[i] {
            Cell::Nil => {
                out.push(0);
                proof {
                    assert(out@ =~= before + cell_image(models[i as int]));
                }
            },
            Cell::Int(x) => {
                out.push(1);
                put_be(&mut out, *x, 8);
                proof {
                    assert(out@ =~= before + cell_image(models[i as int]));
                }
            },
            Cell::Blob(b) => {
                out.push(2);
                put_be(&mut out, b.len() as u64, 8);
                put_bytes(&mut out, b.as_slice());
                proof {
                    assert(out@ =~= before + cell_image(models[i as int]));
                }
            },
        }
        i = i + 1;
        proof {
            assert(models.take(i as int).drop_last() =~= models.take(i as int - 1));
        }
    }
    proof {
        assert(models.take(i as int) =~= models);
    }
    out
}

/// Reads the cell that starts at `at`, and where the next one starts.
fn decode_cell(buf: &[u8], at: usize) -> (r: Option<(Cell<Vec<u8>>, usize)>)
    requires
        at < buf@.len(),
    ensures
        r matches Some(cn) ==> at < cn.1 <= buf@.len() && cell_fits(cn.0.model()) && buf@.subrange(
            at as int,
            cn.1 as int,
        ) == cell_image(cn.0.model()),
        r is None ==> forall|c: Cell<Seq<u8>>|
            cell_fits(c) ==> !has_prefix(buf@.skip(at as int), #[trigger] cell_image(c)),
{
    let ghost rest = buf@.skip(at as int);
    let end: usize = buf.len();
    proof {
        lemma_pow256_values();
        assert forall|c: Cell<Seq<u8>>| has_prefix(rest, #[trigger] cell_image(c)) implies rest[0] == cell_image(
            c,
        )[0] && (c is Nil ==> rest[0] == 0) && (c is Int ==> rest[0] == 1 && rest.len() >= 9) && (c is Blob ==> rest[0]
            == 2 && rest.len() >= 9 && rest.subrange(1, 9) == be(c->Blob_0.len(), 8) && rest.len() >= 9
            + c->Blob_0.len()) by {
            assert(rest.take(cell_image(c).len() as int)[0] == cell_image(c)[0]);
            match c {
                Cell::Nil => {},
                Cell::Int(x) => {
                    lemma_be_len(x as nat, 8);
                },
                Cell::Blob(b) => {
                    lemma_be_len(b.len(), 8);
                    assert(cell_image(c).subrange(1, 9) =~= be(b.len(), 8));
                    assert(rest.subrange(1, 9) =~= rest.take(cell_image(c).len() as int).subrange(1, 9));
                },
            }
        }
    }
    let tag: u8 = buf[at];
    if tag == 0 {
        proof {
            assert(buf@.subrange(at as int, at + 1) =~= seq![0u8]);
        }
        Some((Cell::Nil, at + 1))
    } else if tag == 1 {
        if end - at < 9 {
            return None;
        }
        let x: u64 = get_be(buf, at + 1, 8);
        proof {
            lemma_be_len(x as nat, 8);
            assert(buf@.subrange(at as int, at + 9) =~= seq![1u8] + be(x as nat, 8));
        }
        Some((Cell::Int(x), at + 9))
    } else if tag == 2 {
        if end - at < 9 {
            return None;
        }
        let n: u64 = get_be(buf, at + 1, 8);
        if n > (end - at - 9) as u64 {
            proof {
                assert forall|c: Cell<Seq<u8>>| cell_fits(c) implies !has_prefix(rest, #[trigger] cell_image(c)) by {
                    if has_prefix(rest, cell_image(c)) {
                        assert(rest.subrange(1, 9) =~= buf@.subrange(at + 1, at + 9));
                        lemma_be_injective(n as nat, c->Blob_0.len(), 8);
                    }
                }
            }
            return None;
        }
        let b = get_bytes(buf, at + 9, at + 9 + n as usize);
        proof {
            lemma_be_len(n as nat, 8);
            assert(buf@.subrange(at as int, at + 9 + n) =~= seq![2u8] + be(n as nat, 8) + b@);
        }
        Some((Cell::Blob(b), at + 9 + n as usize))
    } else {
        None
    }
}

/// Reads a row: its cells, if the bytes are those of a row at all.
pub fn decode_row(buf: &[u8]) -> (r: Option<Vec<Cell<Vec<u8>>>>)
    ensures
        r matches Some(cells) ==> cells_fit(cell_models(cells@)) && row_image(cell_models(cells@)) == buf@,
        r is None ==> forall|cells: Seq<Cell<Seq<u8>>>| cells_fit(cells) ==> #[trigger] row_image(cells) != buf@,
{
    let mut done: Vec<Cell<Vec<u8>>> = Vec::new();
    let mut at: usize = 0;
    proof {
        assert(cell_models(done@) =~= Seq::<Cell<Seq<u8>>>::empty());
        assert(buf@.take(0) =~= Seq::<u8>::empty());
    }
    while at < buf.len()
        invariant
            at <= buf@.len(),
            cells_fit(cell_models(done@)),
            row_image(cell_models(done@)) == buf@.take(at as int),
            forall|cells: Seq<Cell<Seq<u8>>>|
                cells_fit(cells) && #[trigger] row_image(cells) == buf@ ==> done@.len() <= cells.len() && cells.take(
                    done@.len() as int,
                ) == cell_models(done@),
        decreases buf@.len() - at,
    {
        let ghost models = cell_models(done@);
        let ghost n = done@.len() as int;
        let step = decode_cell(buf, at);
        proof {
            assert forall|cells: Seq<Cell<Seq<u8>>>|
                cells_fit(cells) && #[trigger] row_image(cells) == buf@ implies n < cells.len() && cell_fits(cells[n])
                && has_prefix(buf@.skip(at as int), cell_image(cells[n])) by {
                if n == cells.len() {
                    assert(cells.take(n) =~= cells);
                    assert(buf@.take(at as int).len() == at);
                }
                lemma_row_image_split(cells, n);
            }
        }
        match step {
            None => {
                return None;
            },
            Some((c, next)) => {
                let ghost m = c.model();
                done.push(c);
                proof {
                    assert(cell_models(done@) =~= models.push(m));
                    assert(cell_models(done@).drop_last() =~= models);
                    assert(buf@.take(next as int) =~= buf@.take(at as int) + buf@.subrange(at as int, next as int));
                    assert forall|cells: Seq<Cell<Seq<u8>>>|
                        cells_fit(cells) && #[trigger] row_image(cells) == buf@ implies n + 1 <= cells.len()
                        && cells.take(n + 1) == cell_models(done@) by {
                        let rest = buf@.skip(at as int);
                        assert(rest.take(cell_image(m).len() as int) =~= cell_image(m)) by {
                            assert(rest.take(next - at) =~= buf@.subrange(at as int, next as int));
                        }
                        lemma_cell_prefix_unique(cells[n], m, rest);
                        assert(cells.take(n + 1) =~= cells.take(n).push(cells[n]));
                    }
                }
                at = next;
            },
        }
    }
    proof {
        assert(buf@.take(at as int) =~= buf@);
    }
    Some(done)
}

} // verus!
