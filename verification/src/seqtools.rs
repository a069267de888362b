//! Sums and counts over sequences, with the small algebra the other modules
//! need: behaviour under push, update, insert and remove, and complements.

use vstd::prelude::*;
use vstd::seq_lib::lemma_multiset_commutative;

verus! {

/// Sum of `f` over the elements of `s`.
pub open spec fn sum_by<A>(s: Seq<A>, f: spec_fn(A) -> int) -> int
    decreases s.len(),
{
    if s.len() == 0 {
        0
    } else {
        sum_by(s.drop_last(), f) + f(s.last())
    }
}

/// Number of elements of `s` satisfying `p`.
pub open spec fn count_where<A>(s: Seq<A>, p: spec_fn(A) -> bool) -> int {
    sum_by(s, |a: A| if p(a) { 1int } else { 0int })
}

pub proof fn lemma_sum_by_push<A>(s: Seq<A>, x: A, f: spec_fn(A) -> int)
    ensures
        sum_by(s.push(x), f) == sum_by(s, f) + f(x),
{
    assert(s.push(x).drop_last() =~= s);
    assert(s.push(x).last() == x);
}

pub proof fn lemma_sum_by_add<A>(a: Seq<A>, b: Seq<A>, f: spec_fn(A) -> int)
    ensures
        sum_by(a + b, f) == sum_by(a, f) + sum_by(b, f),
    decreases b.len(),
{
    if b.len() == 0 {
        assert(a + b =~= a);
    } else {
        assert((a + b).drop_last() =~= a + b.drop_last());
        assert((a + b).last() == b.last());
        lemma_sum_by_add(a, b.drop_last(), f);
    }
}

pub proof fn lemma_sum_by_update<A>(s: Seq<A>, k: int, v: A, f: spec_fn(A) -> int)
    requires
        0 <= k < s.len(),
    ensures
        sum_by(s.update(k, v), f) == sum_by(s, f) - f(s[k]) + f(v),
    decreases s.len(),
{
    if k == s.len() - 1 {
        assert(s.update(k, v).drop_last() =~= s.drop_last());
        assert(s.update(k, v).last() == v);
    } else {
        assert(s.update(k, v).drop_last() =~= s.drop_last().update(k, v));
        assert(s.update(k, v).last() == s.last());
        lemma_sum_by_update(s.drop_last(), k, v, f);
    }
}

pub proof fn lemma_sum_by_insert<A>(s: Seq<A>, i: int, x: A, f: spec_fn(A) -> int)
    requires
        0 <= i <= s.len(),
    ensures
        sum_by(s.insert(i, x), f) == sum_by(s, f) + f(x),
{
    let a = s.subrange(0, i);
    let b = s.subrange(i, s.len() as int);
    assert(s.insert(i, x) == a.push(x) + b);
    lemma_sum_by_add(a.push(x), b, f);
    lemma_sum_by_push(a, x, f);
    assert(a + b =~= s);
    lemma_sum_by_add(a, b, f);
}

pub proof fn lemma_sum_by_remove<A>(s: Seq<A>, i: int, f: spec_fn(A) -> int)
    requires
        0 <= i < s.len(),
    ensures
        sum_by(s.remove(i), f) == sum_by(s, f) - f(s[i]),
{
    let a = s.subrange(0, i);
    let b = s.subrange(i + 1, s.len() as int);
    assert(s.remove(i) == a + b);
    lemma_sum_by_add(a, b, f);
    assert(a.push(s[i]) + b =~= s);
    lemma_sum_by_add(a.push(s[i]), b, f);
    lemma_sum_by_push(a, s[i], f);
}

/// A count lies between zero and the sequence length.
pub proof fn lemma_count_bounds<A>(s: Seq<A>, p: spec_fn(A) -> bool)
    ensures
        0 <= count_where(s, p) <= s.len(),
    decreases s.len(),
{
    if s.len() > 0 {
        lemma_count_bounds(s.drop_last(), p);
    }
}

/// Elements satisfying a predicate and those failing it partition a sequence.
pub proof fn lemma_count_complement<A>(s: Seq<A>, p: spec_fn(A) -> bool, q: spec_fn(A) -> bool)
    requires
        forall|a: A| #[trigger] p(a) <==> !q(a),
    ensures
        count_where(s, p) + count_where(s, q) == s.len(),
    decreases s.len(),
{
    if s.len() > 0 {
        lemma_count_complement(s.drop_last(), p, q);
    }
}

/// Predicates that agree position by position over two sequences of equal
/// length count the same elements.
pub proof fn lemma_count_pointwise<A, B>(
    a: Seq<A>,
    b: Seq<B>,
    p: spec_fn(A) -> bool,
    q: spec_fn(B) -> bool,
)
    requires
        a.len() == b.len(),
        forall|i: int| 0 <= i < a.len() ==> (#[trigger] p(a[i]) <==> q(b[i])),
    ensures
        count_where(a, p) == count_where(b, q),
    decreases a.len(),
{
    if a.len() > 0 {
        assert(p(a[a.len() - 1]) <==> q(b[b.len() - 1]));
        lemma_count_pointwise(a.drop_last(), b.drop_last(), p, q);
    }
}

/// Functions that agree position by position over two sequences of equal
/// length have equal sums.
pub proof fn lemma_sum_pointwise<A, B>(
    a: Seq<A>,
    b: Seq<B>,
    f: spec_fn(A) -> int,
    g: spec_fn(B) -> int,
)
    requires
        a.len() == b.len(),
        forall|i: int| 0 <= i < a.len() ==> #[trigger] f(a[i]) == g(b[i]),
    ensures
        sum_by(a, f) == sum_by(b, g),
    decreases a.len(),
{
    if a.len() > 0 {
        assert(f(a[a.len() - 1]) == g(b[b.len() - 1]));
        lemma_sum_pointwise(a.drop_last(), b.drop_last(), f, g);
    }
}

/// Inserting an element adds it to the sequence's multiset.
pub proof fn lemma_to_multiset_insert<A>(s: Seq<A>, i: int, x: A)
    requires
        0 <= i <= s.len(),
    ensures
        s.insert(i, x).to_multiset() =~= s.to_multiset().insert(x),
{
    broadcast use vstd::seq_lib::group_to_multiset_ensures;

    let a = s.subrange(0, i);
    let b = s.subrange(i, s.len() as int);
    assert(s.insert(i, x) == a.push(x) + b);
    lemma_multiset_commutative(a.push(x), b);
    assert(a.push(x).to_multiset() =~= a.to_multiset().insert(x));
    assert(a + b =~= s);
    lemma_multiset_commutative(a, b);
}

} // verus!
