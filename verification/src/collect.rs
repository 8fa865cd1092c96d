//! Filtering and mapping a list by a step that may fail.

use vstd::prelude::*;

verus! {

/// What `f` makes of each item, in order, without the items of which it makes
/// nothing. The first failure ends it.
pub open spec fn collect<A, B, E>(s: Seq<A>, f: spec_fn(A) -> Result<Option<B>, E>) -> Result<Seq<B>, E>
    decreases s.len(),
{
    if s.len() == 0 {
        Ok(Seq::empty())
    } else {
        match collect(s.drop_last(), f) {
            Err(e) => Err(e),
            Ok(done) => match f(s.last()) {
                Err(e) => Err(e),
                Ok(None) => Ok(done),
                Ok(Some(b)) => Ok(done.push(b)),
            },
        }
    }
}

/// One more item.
pub proof fn lemma_collect_step<A, B, E>(s: Seq<A>, f: spec_fn(A) -> Result<Option<B>, E>, n: int)
    requires
        0 <= n < s.len(),
        collect(s.take(n), f) is Ok,
    ensures
        collect(s.take(n + 1), f) == match f(s[n]) {
            Err(e) => Err(e),
            Ok(None) => collect(s.take(n), f),
            Ok(Some(b)) => Ok(collect(s.take(n), f)->Ok_0.push(b)),
        },
{
    assert(s.take(n + 1).drop_last() =~= s.take(n));
}

/// A failure among the first items is the failure of the whole.
pub proof fn lemma_collect_fails<A, B, E>(s: Seq<A>, f: spec_fn(A) -> Result<Option<B>, E>, n: int)
    requires
        0 <= n <= s.len(),
        collect(s.take(n), f) is Err,
    ensures
        collect(s, f) == collect(s.take(n), f),
    decreases s.len() - n,
{
    if n == s.len() {
        assert(s.take(n) =~= s);
    } else {
        assert(s.take(n + 1).drop_last() =~= s.take(n));
        lemma_collect_fails(s, f, n + 1);
    }
}

/// [`collect`] that ends once it holds `cap` results.
pub open spec fn collect_upto<A, B, E>(s: Seq<A>, f: spec_fn(A) -> Result<Option<B>, E>, cap: nat) -> Result<Seq<B>, E>
    decreases s.len(),
{
    if s.len() == 0 {
        Ok(Seq::empty())
    } else {
        match collect_upto(s.drop_last(), f, cap) {
            Err(e) => Err(e),
            Ok(done) => if done.len() >= cap {
                Ok(done)
            } else {
                match f(s.last()) {
                    Err(e) => Err(e),
                    Ok(None) => Ok(done),
                    Ok(Some(b)) => Ok(done.push(b)),
                }
            },
        }
    }
}

/// Once it failed, or holds enough, nothing more is looked at.
pub proof fn lemma_upto_ends<A, B, E>(s: Seq<A>, f: spec_fn(A) -> Result<Option<B>, E>, cap: nat, n: int)
    requires
        0 <= n <= s.len(),
        match collect_upto(s.take(n), f, cap) {
            Err(_) => true,
            Ok(done) => done.len() >= cap,
        },
    ensures
        collect_upto(s, f, cap) == collect_upto(s.take(n), f, cap),
    decreases s.len() - n,
{
    if n == s.len() {
        assert(s.take(n) =~= s);
    } else {
        assert(s.take(n + 1).drop_last() =~= s.take(n));
        lemma_upto_ends(s, f, cap, n + 1);
    }
}

/// It never holds more than `cap` results.
pub proof fn lemma_upto_len<A, B, E>(s: Seq<A>, f: spec_fn(A) -> Result<Option<B>, E>, cap: nat)
    ensures
        collect_upto(s, f, cap) matches Ok(done) ==> done.len() <= cap,
    decreases s.len(),
{
    if s.len() > 0 {
        lemma_upto_len(s.drop_last(), f, cap);
    }
}

/// What is collected is what `f` makes of some item.
pub proof fn lemma_collect_members<A, B, E>(s: Seq<A>, f: spec_fn(A) -> Result<Option<B>, E>, b: B)
    requires
        collect(s, f) is Ok,
    ensures
        collect(s, f)->Ok_0.contains(b) <==> exists|i: int| 0 <= i < s.len() && f(#[trigger] s[i]) == Ok::<_, E>(Some(b)),
        forall|i: int| 0 <= i < s.len() ==> f(#[trigger] s[i]) is Ok,
    decreases s.len(),
{
    if s.len() > 0 {
        let head = s.drop_last();
        lemma_collect_members(head, f, b);
        let done = collect(head, f)->Ok_0;
        let all = collect(s, f)->Ok_0;
        assert forall|i: int| 0 <= i < s.len() implies f(#[trigger] s[i]) is Ok by {
            if i < head.len() {
                assert(s[i] == head[i]);
            }
        }
        if all.contains(b) {
            if done.contains(b) {
                let i = choose|i: int| 0 <= i < head.len() && f(#[trigger] head[i]) == Ok::<_, E>(Some(b));
                assert(f(s[i]) == Ok::<_, E>(Some(b)));
            } else {
                let j = all.index_of(b);
                assert(j == done.len()) by {
                    if j < done.len() {
                        assert(done[j] == b);
                    }
                }
                assert(f(s[s.len() - 1]) == Ok::<_, E>(Some(b)));
            }
        }
        if exists|i: int| 0 <= i < s.len() && f(#[trigger] s[i]) == Ok::<_, E>(Some(b)) {
            let i = choose|i: int| 0 <= i < s.len() && f(#[trigger] s[i]) == Ok::<_, E>(Some(b));
            if i < head.len() {
                assert(f(head[i]) == Ok::<_, E>(Some(b)));
                let j = done.index_of(b);
                assert(all[j] == b);
            } else {
                assert(all[done.len() as int] == b);
            }
        }
    }
}

/// Where `f` makes nothing of any item, nothing is collected.
pub proof fn lemma_collect_nothing<A, B, E>(s: Seq<A>, f: spec_fn(A) -> Result<Option<B>, E>)
    requires
        forall|i: int| 0 <= i < s.len() ==> f(#[trigger] s[i]) == Ok::<_, E>(None::<B>),
    ensures
        collect(s, f) == Ok::<_, E>(Seq::<B>::empty()),
    decreases s.len(),
{
    if s.len() > 0 {
        assert forall|i: int| 0 <= i < s.drop_last().len() implies f(#[trigger] s.drop_last()[i]) == Ok::<_, E>(
            None::<B>,
        ) by {
            assert(s.drop_last()[i] == s[i]);
        }
        lemma_collect_nothing(s.drop_last(), f);
        assert(s[s.len() - 1] == s.last());
    }
}

/// With less than `cap` results nothing was left out.
pub proof fn lemma_upto_all<A, B, E>(s: Seq<A>, f: spec_fn(A) -> Result<Option<B>, E>, cap: nat)
    requires
        collect_upto(s, f, cap) matches Ok(done) && done.len() < cap,
    ensures
        collect(s, f) == collect_upto(s, f, cap),
    decreases s.len(),
{
    if s.len() > 0 {
        lemma_upto_all(s.drop_last(), f, cap);
    }
}

/// What is collected up to a number of results is what `f` makes of some item.
pub proof fn lemma_upto_members<A, B, E>(s: Seq<A>, f: spec_fn(A) -> Result<Option<B>, E>, cap: nat, b: B)
    requires
        collect_upto(s, f, cap) matches Ok(done) && done.contains(b),
    ensures
        exists|i: int| 0 <= i < s.len() && f(#[trigger] s[i]) == Ok::<_, E>(Some(b)),
    decreases s.len(),
{
    if s.len() > 0 {
        let head = s.drop_last();
        let before = collect_upto(head, f, cap)->Ok_0;
        let all = collect_upto(s, f, cap)->Ok_0;
        if before.contains(b) {
            lemma_upto_members(head, f, cap, b);
            let i = choose|i: int| 0 <= i < head.len() && f(#[trigger] head[i]) == Ok::<_, E>(Some(b));
            assert(f(s[i]) == Ok::<_, E>(Some(b)));
        } else {
            let j = all.index_of(b);
            assert(j == before.len()) by {
                if j < before.len() {
                    assert(before[j] == b);
                }
            }
            assert(f(s[s.len() - 1]) == Ok::<_, E>(Some(b)));
        }
    }
}

/// Two results are not the same.
pub open spec fn differ<B, E>(a: Result<Option<B>, E>, b: Result<Option<B>, E>) -> bool {
    match (a, b) {
        (Ok(Some(x)), Ok(Some(y))) => x != y,
        _ => true,
    }
}

/// Where `f` makes different things of different items, nothing is collected
/// twice.
pub proof fn lemma_upto_distinct<A, B, E>(s: Seq<A>, f: spec_fn(A) -> Result<Option<B>, E>, cap: nat)
    requires
        forall|i: int, j: int| 0 <= i < j < s.len() ==> differ(f(#[trigger] s[i]), f(#[trigger] s[j])),
    ensures
        collect_upto(s, f, cap) matches Ok(done) ==> done.no_duplicates(),
    decreases s.len(),
{
    if s.len() > 0 {
        let head = s.drop_last();
        assert forall|i: int, j: int| 0 <= i < j < head.len() implies differ(
            f(#[trigger] head[i]),
            f(#[trigger] head[j]),
        ) by {
            assert(head[i] == s[i] && head[j] == s[j]);
        }
        lemma_upto_distinct(head, f, cap);
        if let (Ok(done), Ok(Some(b))) = (collect_upto(head, f, cap), f(s.last())) {
            if done.contains(b) {
                lemma_upto_members(head, f, cap, b);
                let i = choose|i: int| 0 <= i < head.len() && f(#[trigger] head[i]) == Ok::<_, E>(Some(b));
                assert(head[i] == s[i]);
                assert(differ(f(s[i]), f(s[s.len() - 1])));
            }
            assert(done.push(b).no_duplicates()) by {
                let all = done.push(b);
                assert forall|i: int, j: int| 0 <= i < j < all.len() implies all[i] != all[j] by {
                    if j == done.len() && done[i] == b {
                        assert(done.contains(b));
                    }
                }
            }
        }
    }
}

/// A bound that is not reached makes no difference.
pub proof fn lemma_upto_unbounded<A, B, E>(s: Seq<A>, f: spec_fn(A) -> Result<Option<B>, E>, cap: nat)
    requires
        collect(s, f) is Ok,
        s.len() < cap,
    ensures
        collect_upto(s, f, cap) == collect(s, f),
        collect(s, f)->Ok_0.len() <= s.len(),
    decreases s.len(),
{
    if s.len() > 0 {
        lemma_upto_unbounded(s.drop_last(), f, cap);
    }
}

/// Results come in the order of the items that they were made of.
pub proof fn lemma_upto_order<A, B, E>(s: Seq<A>, f: spec_fn(A) -> Result<Option<B>, E>, cap: nat, i: int, j: int) -> (r: (
    int,
    int,
))
    requires
        collect_upto(s, f, cap) is Ok,
        0 <= i <= j < collect_upto(s, f, cap)->Ok_0.len(),
    ensures
        0 <= r.0 <= r.1 < s.len(),
        r.0 == r.1 ==> i == j,
        f(s[r.0]) == Ok::<_, E>(Some(collect_upto(s, f, cap)->Ok_0[i])),
        f(s[r.1]) == Ok::<_, E>(Some(collect_upto(s, f, cap)->Ok_0[j])),
    decreases s.len(),
{
    let head = s.drop_last();
    let done = collect_upto(head, f, cap)->Ok_0;
    if j < done.len() {
        lemma_upto_order(head, f, cap, i, j)
    } else if i < done.len() {
        let r = lemma_upto_order(head, f, cap, i, i);
        (r.0, s.len() - 1)
    } else {
        (s.len() - 1, s.len() - 1)
    }
}

} // verus!
