//! The lexicographic order on byte strings, by which table keys are sorted.

use vstd::prelude::*;

verus! {

/// `a` comes strictly before `b` in lexicographic byte order.
pub open spec fn lex_lt(a: Seq<u8>, b: Seq<u8>) -> bool
    decreases a.len(),
{
    if b.len() == 0 {
        false
    } else if a.len() == 0 {
        true
    } else if a[0] != b[0] {
        a[0] < b[0]
    } else {
        lex_lt(a.skip(1), b.skip(1))
    }
}

/// `a` comes before `b` in lexicographic byte order, or equals it.
pub open spec fn lex_le(a: Seq<u8>, b: Seq<u8>) -> bool {
    a == b || lex_lt(a, b)
}

/// Whether `s` begins with `p`.
pub open spec fn has_prefix(s: Seq<u8>, p: Seq<u8>) -> bool {
    &&& p.len() <= s.len()
    &&& s.take(p.len() as int) == p
}

/// No byte string comes before itself.
pub proof fn lemma_lex_irreflexive(a: Seq<u8>)
    ensures
        !lex_lt(a, a),
    decreases a.len(),
{
    if a.len() > 0 {
        lemma_lex_irreflexive(a.skip(1));
    }
}

/// The order is transitive.
pub proof fn lemma_lex_transitive(a: Seq<u8>, b: Seq<u8>, c: Seq<u8>)
    requires
        lex_lt(a, b),
        lex_lt(b, c),
    ensures
        lex_lt(a, c),
    decreases a.len(),
{
    if a.len() > 0 && a[0] == b[0] && b[0] == c[0] {
        lemma_lex_transitive(a.skip(1), b.skip(1), c.skip(1));
    }
}

/// Any two byte strings are comparable.
pub proof fn lemma_lex_total(a: Seq<u8>, b: Seq<u8>)
    ensures
        lex_lt(a, b) || a == b || lex_lt(b, a),
    decreases a.len(),
{
    if a.len() > 0 && b.len() > 0 {
        if a[0] == b[0] {
            lemma_lex_total(a.skip(1), b.skip(1));
            if a.skip(1) == b.skip(1) {
                assert(a =~= seq![a[0]] + a.skip(1));
                assert(b =~= seq![b[0]] + b.skip(1));
            }
        }
    } else if a.len() == 0 && b.len() == 0 {
        assert(a =~= b);
    }
}

/// The first string after all that begin with `p`, if any comes after them.
pub open spec fn prefix_end(p: Seq<u8>) -> Option<Seq<u8>>
    decreases p.len(),
{
    if p.len() == 0 {
        None
    } else {
        match prefix_end(p.skip(1)) {
            Some(e) => Some(seq![p[0]] + e),
            None => if p[0] < 255 {
                Some(seq![(p[0] + 1) as u8])
            } else {
                None
            },
        }
    }
}

/// The strings that begin with `p` are those from `p` up to its end.
pub proof fn lemma_prefix_range(p: Seq<u8>, k: Seq<u8>)
    ensures
        has_prefix(k, p) <==> lex_le(p, k) && (prefix_end(p) matches Some(e) ==> lex_lt(k, e)),
    decreases p.len(),
{
    if p.len() == 0 {
        assert(k.take(0) =~= p);
        if k.len() == 0 {
            assert(k =~= p);
        }
    } else if k.len() > 0 {
        let t = p.skip(1);
        lemma_prefix_range(t, k.skip(1));
        if has_prefix(k, p) {
            assert(k[0] == k.take(p.len() as int)[0]);
            assert(k.skip(1).take(t.len() as int) =~= k.take(p.len() as int).skip(1));
        }
        if k[0] == p[0] {
            if has_prefix(k.skip(1), t) {
                assert(k.take(p.len() as int) =~= seq![k[0]] + k.skip(1).take(t.len() as int));
                assert(p =~= seq![p[0]] + t);
            }
            if t == k.skip(1) {
                assert(p =~= seq![p[0]] + t);
                assert(k =~= seq![k[0]] + k.skip(1));
            }
        }
        match prefix_end(t) {
            Some(e) => {
                let end = seq![p[0]] + e;
                assert(end.skip(1) =~= e);
            },
            None => {
                if p[0] < 255 {
                    let end = seq![(p[0] + 1) as u8];
                    assert(end.skip(1).len() == 0);
                    assert(!lex_lt(k.skip(1), end.skip(1)));
                }
            },
        }
    }
}

/// Computes [`prefix_end`] of the bytes from `at` on.
fn prefix_end_from(p: &[u8], at: usize) -> (r: Option<Vec<u8>>)
    requires
        at <= p@.len(),
    ensures
        r matches Some(v) ==> prefix_end(p@.skip(at as int)) == Some(v@),
        r is None ==> prefix_end(p@.skip(at as int)) is None,
    decreases p@.len() - at,
{
    if at == p.len() {
        return None;
    }
    proof {
        assert(p@.skip(at as int).skip(1) =~= p@.skip(at + 1));
    }
    match prefix_end_from(p, at + 1) {
        Some(mut e) => {
            let ghost tail = e@;
            e.insert(0, p[at]);
            proof {
                assert(e@ =~= seq![p@[at as int]] + tail);
            }
            Some(e)
        },
        None => {
            if p[at] < 255 {
                let mut e: Vec<u8> = Vec::new();
                e.push(p[at] + 1);
                proof {
                    assert(e@ =~= seq![(p@[at as int] + 1) as u8]);
                }
                Some(e)
            } else {
                None
            }
        },
    }
}

/// The first string after all that begin with `p`, if any comes after them.
pub fn end_of_prefix(p: &[u8]) -> (r: Option<Vec<u8>>)
    ensures
        r matches Some(v) ==> prefix_end(p@) == Some(v@),
        r is None ==> prefix_end(p@) is None,
{
    proof {
        assert(p@.skip(0) =~= p@);
    }
    prefix_end_from(p, 0)
}

} // verus!
