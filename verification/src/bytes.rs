//! Fixed-width big-endian numbers inside byte strings.

use vstd::prelude::*;

use crate::order::{lemma_lex_irreflexive, lex_lt};

verus! {

/// 256 to the power `w`: the number of values that `w` bytes hold.
pub open spec fn pow256(w: nat) -> nat
    decreases w,
{
    if w == 0 {
        1
    } else {
        256 * pow256((w - 1) as nat)
    }
}

/// The `w` low-order bytes of `n`, most significant first.
pub open spec fn be(n: nat, w: nat) -> Seq<u8>
    decreases w,
{
    if w == 0 {
        Seq::empty()
    } else {
        be(n / 256, (w - 1) as nat).push((n % 256) as u8)
    }
}

/// The number that the bytes `s` write in base 256, most significant first.
pub open spec fn be_value(s: Seq<u8>) -> nat
    decreases s.len(),
{
    if s.len() == 0 {
        0
    } else {
        be_value(s.drop_last()) * 256 + s.last() as nat
    }
}

/// `N` zero bytes.
pub open spec fn zeros<const N: usize>() -> [u8; N] {
    choose|a: [u8; N]| a@ == Seq::new(N as nat, |i: int| 0u8)
}

/// Eight bytes hold every `u64`, four every `u32`, two every `u16` and one
/// every `u8`.
pub proof fn lemma_pow256_values()
    ensures
        pow256(1) == 0x100,
        pow256(2) == 0x1_0000,
        pow256(4) == 0x1_0000_0000,
        pow256(8) == 0x1_0000_0000_0000_0000,
{
    reveal_with_fuel(pow256, 9);
}

/// A `w`-byte image has `w` bytes.
pub proof fn lemma_be_len(n: nat, w: nat)
    ensures
        be(n, w).len() == w,
    decreases w,
{
    if w > 0 {
        lemma_be_len(n / 256, (w - 1) as nat);
    }
}

/// A number that fits is read back from its image.
pub proof fn lemma_be_value_of_be(n: nat, w: nat)
    requires
        n < pow256(w),
    ensures
        be_value(be(n, w)) == n,
    decreases w,
{
    if w > 0 {
        assert(n / 256 < pow256((w - 1) as nat)) by (nonlinear_arith)
            requires
                n < 256 * pow256((w - 1) as nat),
        ;
        lemma_be_value_of_be(n / 256, (w - 1) as nat);
        assert(be(n, w).drop_last() =~= be(n / 256, (w - 1) as nat));
    }
}

/// Every byte string is the image of the number that it writes, and that number
/// fits its length.
pub proof fn lemma_be_of_be_value(s: Seq<u8>)
    ensures
        be(be_value(s), s.len()) == s,
        be_value(s) < pow256(s.len()),
    decreases s.len(),
{
    if s.len() > 0 {
        let t = s.drop_last();
        lemma_be_of_be_value(t);
        let v = be_value(s);
        assert(v == be_value(t) * 256 + s.last() as nat);
        assert(v / 256 == be_value(t) && v % 256 == s.last() as nat) by (nonlinear_arith)
            requires
                v == be_value(t) * 256 + s.last() as nat,
                s.last() as nat <= 255,
        ;
        assert(be(v, s.len()) =~= s);
    } else {
        assert(be(0, 0) =~= s);
    }
}

/// Two numbers that fit and have the same image are the same.
pub proof fn lemma_be_injective(a: nat, b: nat, w: nat)
    requires
        a < pow256(w),
        b < pow256(w),
        be(a, w) == be(b, w),
    ensures
        a == b,
{
    lemma_be_value_of_be(a, w);
    lemma_be_value_of_be(b, w);
}

proof fn lemma_lex_push(a: Seq<u8>, b: Seq<u8>, x: u8, y: u8)
    requires
        a.len() == b.len(),
    ensures
        lex_lt(a.push(x), b.push(y)) == (lex_lt(a, b) || (a == b && x < y)),
    decreases a.len(),
{
    if a.len() == 0 {
        assert(a =~= b);
        assert(!lex_lt(a.push(x).skip(1), b.push(y).skip(1)));
    } else {
        assert(a.push(x).skip(1) =~= a.skip(1).push(x));
        assert(b.push(y).skip(1) =~= b.skip(1).push(y));
        lemma_lex_push(a.skip(1), b.skip(1), x, y);
        if a[0] == b[0] && a.skip(1) == b.skip(1) {
            assert(a =~= seq![a[0]] + a.skip(1));
            assert(b =~= seq![b[0]] + b.skip(1));
        }
    }
}

/// Fixed-width images are ordered as byte strings the way the numbers are.
pub proof fn lemma_be_order(a: nat, b: nat, w: nat)
    requires
        a < pow256(w),
        b < pow256(w),
    ensures
        lex_lt(be(a, w), be(b, w)) <==> a < b,
    decreases w,
{
    if w > 0 {
        let v = (w - 1) as nat;
        assert(a / 256 < pow256(v)) by (nonlinear_arith)
            requires
                a < 256 * pow256(v),
        ;
        assert(b / 256 < pow256(v)) by (nonlinear_arith)
            requires
                b < 256 * pow256(v),
        ;
        lemma_be_order(a / 256, b / 256, v);
        lemma_be_len(a / 256, v);
        lemma_be_len(b / 256, v);
        lemma_lex_push(be(a / 256, v), be(b / 256, v), (a % 256) as u8, (b % 256) as u8);
        if be(a / 256, v) == be(b / 256, v) {
            lemma_be_injective(a / 256, b / 256, v);
        }
        lemma_lex_irreflexive(be(a / 256, v));
    }
}

/// Joining equal-length heads to tails orders by the heads first.
pub proof fn lemma_lex_join(a: Seq<u8>, b: Seq<u8>, s: Seq<u8>, t: Seq<u8>)
    requires
        a.len() == b.len(),
    ensures
        lex_lt(a + s, b + t) <==> lex_lt(a, b) || (a == b && lex_lt(s, t)),
    decreases a.len(),
{
    if a.len() == 0 {
        assert(a =~= b);
        assert(a + s =~= s);
        assert(b + t =~= t);
    } else {
        assert((a + s).skip(1) =~= a.skip(1) + s);
        assert((b + t).skip(1) =~= b.skip(1) + t);
        lemma_lex_join(a.skip(1), b.skip(1), s, t);
        if a[0] == b[0] && a.skip(1) == b.skip(1) {
            assert(a =~= seq![a[0]] + a.skip(1));
            assert(b =~= seq![b[0]] + b.skip(1));
        }
        if a == b {
            lemma_lex_irreflexive(a);
        }
    }
}

/// Appends the `w` low-order bytes of `x`.
pub fn put_be(out: &mut Vec<u8>, x: u64, w: usize)
    ensures
        final(out)@ == old(out)@ + be(x as nat, w as nat),
    decreases w,
{
    if w > 0 {
        put_be(out, x / 256, w - 1);
        out.push((x % 256) as u8);
        proof {
            assert(out@ =~= old(out)@ + be(x as nat, w as nat));
        }
    } else {
        proof {
            assert(out@ =~= old(out)@ + be(x as nat, 0));
        }
    }
}

/// Appends `src`.
pub fn put_bytes(out: &mut Vec<u8>, src: &[u8])
    ensures
        final(out)@ == old(out)@ + src@,
{
    let mut i: usize = 0;
    while i < src.len()
        invariant
            i <= src.len(),
            out@ == old(out)@ + src@.take(i as int),
        decreases src.len() - i,
    {
        out.push(src[i]);
        i = i + 1;
        proof {
            assert(src@.take(i as int) =~= src@.take(i as int - 1).push(src@[i as int - 1]));
            assert(out@ =~= old(out)@ + src@.take(i as int));
        }
    }
    proof {
        assert(src@.take(i as int) =~= src@);
    }
}

/// Reads the `w` bytes from `at` on as a number.
pub fn get_be(buf: &[u8], at: usize, w: usize) -> (r: u64)
    requires
        w <= 8,
        at + w <= buf@.len(),
    ensures
        r as nat == be_value(buf@.subrange(at as int, at + w)),
        r < pow256(w as nat),
        be(r as nat, w as nat) == buf@.subrange(at as int, at + w),
{
    let ghost s = buf@.subrange(at as int, at + w);
    let end: usize = buf.len();
    let mut r: u64 = 0;
    let mut i: usize = 0;
    proof {
        assert(s.take(0) =~= Seq::<u8>::empty());
    }
    while i < w
        invariant
            i <= w <= 8,
            at + w <= end == buf@.len(),
            s == buf@.subrange(at as int, at + w),
            r as nat == be_value(s.take(i as int)),
        decreases w - i,
    {
        proof {
            lemma_be_of_be_value(s.take(i as int));
            lemma_pow256_values();
            reveal_with_fuel(pow256, 9);
            assert(pow256(i as nat) * 256 <= pow256(8));
            assert(s.take(i as int + 1).drop_last() =~= s.take(i as int));
            assert(r * 256 + 255 < 0x1_0000_0000_0000_0000);
        }
        r = r * 256 + buf[at + i] as u64;
        i = i + 1;
    }
    proof {
        assert(s.take(w as int) =~= s);
        lemma_be_of_be_value(s);
    }
    r
}

/// `N` zero bytes.
pub fn zero_bytes<const N: usize>() -> (r: [u8; N])
    ensures
        r == zeros::<N>(),
        r@ == Seq::new(N as nat, |i: int| 0u8),
{
    let r: [u8; N] = [0u8; N];
    proof {
        assert(r@ =~= Seq::new(N as nat, |i: int| 0u8));
        assert(r =~= zeros::<N>());
    }
    r
}

/// Copies the `N` bytes from `at` on.
pub fn get_array<const N: usize>(buf: &[u8], at: usize) -> (r: [u8; N])
    requires
        at + N <= buf@.len(),
    ensures
        r@ == buf@.subrange(at as int, at + N),
{
    let end: usize = buf.len();
    let mut r: [u8; N] = [0u8; N];
    let mut i: usize = 0;
    while i < N
        invariant
            i <= N,
            at + N <= end == buf@.len(),
            forall|j: int| 0 <= j < i ==> r@[j] == buf@[at + j],
        decreases N - i,
    {
        r[i] = buf[at + i];
        i = i + 1;
    }
    proof {
        assert(r@ =~= buf@.subrange(at as int, at + N));
    }
    r
}

/// Copies the bytes from `from` up to `to`.
pub fn get_bytes(buf: &[u8], from: usize, to: usize) -> (r: Vec<u8>)
    requires
        from <= to <= buf@.len(),
    ensures
        r@ == buf@.subrange(from as int, to as int),
{
    let mut r: Vec<u8> = Vec::new();
    let mut i: usize = from;
    while i < to
        invariant
            from <= i <= to <= buf@.len(),
            r@ == buf@.subrange(from as int, i as int),
        decreases to - i,
    {
        r.push(buf[i]);
        i = i + 1;
        proof {
            assert(r@ =~= buf@.subrange(from as int, i as int));
        }
    }
    r
}

/// A copy of a byte string.
pub fn copy_bytes(v: &Vec<u8>) -> (r: Vec<u8>)
    ensures
        r@ == v@,
{
    let r = get_bytes(v.as_slice(), 0, v.len());
    proof {
        assert(r@ =~= v@);
    }
    r
}

/// Whether two byte strings are the same.
pub fn bytes_eq(a: &[u8], b: &[u8]) -> (r: bool)
    ensures
        r == (a@ == b@),
{
    if a.len() != b.len() {
        return false;
    }
    let mut i: usize = 0;
    while i < a.len()
        invariant
            i <= a.len(),
            a@.len() == b@.len(),
            forall|j: int| 0 <= j < i ==> a@[j] == b@[j],
        decreases a.len() - i,
    {
        if a[i] != b[i] {
            return false;
        }
        i = i + 1;
    }
    proof {
        assert(a@ =~= b@);
    }
    true
}

} // verus!
