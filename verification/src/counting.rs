use vstd::prelude::*;

verus! {

/// Number of positions `i` of `s` at which `p(i, s[i])` holds.
pub open spec fn count_pred<T>(s: Seq<T>, p: spec_fn(int, T) -> bool) -> nat
    decreases s.len(),
{
    if s.len() == 0 {
        0
    } else {
        count_pred(s.drop_last(), p) + if p(s.len() - 1, s.last()) {
            1nat
        } else {
            0nat
        }
    }
}

pub proof fn lemma_count_none<T>(s: Seq<T>, p: spec_fn(int, T) -> bool)
    requires
        forall|i: int| 0 <= i < s.len() ==> !#[trigger] p(i, s[i]),
    ensures
        count_pred(s, p) == 0,
    decreases s.len(),
{
    if s.len() > 0 {
        lemma_count_none(s.drop_last(), p);
    }
}

pub proof fn lemma_count_zero_implies_none<T>(s: Seq<T>, p: spec_fn(int, T) -> bool)
    requires
        count_pred(s, p) == 0,
    ensures
        forall|i: int| 0 <= i < s.len() ==> !#[trigger] p(i, s[i]),
    decreases s.len(),
{
    if s.len() > 0 {
        lemma_count_zero_implies_none(s.drop_last(), p);
        assert forall|i: int| 0 <= i < s.len() implies !#[trigger] p(i, s[i]) by {
            if i < s.len() - 1 {
                assert(s.drop_last()[i] == s[i]);
            }
        }
    }
}

/// Replacing the element at one position changes the count by the
/// difference of the predicate's value there.
pub proof fn lemma_count_update<T>(s: Seq<T>, p: spec_fn(int, T) -> bool, i: int, v: T)
    requires
        0 <= i < s.len(),
    ensures
        count_pred(s.update(i, v), p) == count_pred(s, p) - (if p(i, s[i]) {
            1int
        } else {
            0int
        }) + (if p(i, v) {
            1int
        } else {
            0int
        }),
    decreases s.len(),
{
    let s2 = s.update(i, v);
    assert(s2.len() == s.len());
    if i == s.len() - 1 {
        assert(s2.drop_last() =~= s.drop_last());
        assert(s2.last() == v);
    } else {
        assert(s2.drop_last() =~= s.drop_last().update(i, v));
        assert(s2.last() == s.last());
        lemma_count_update(s.drop_last(), p, i, v);
        assert(s.drop_last()[i] == s[i]);
    }
}

/// Extending a prefix by one element adds that element's contribution.
pub proof fn lemma_count_take_succ<T>(s: Seq<T>, p: spec_fn(int, T) -> bool, i: int)
    requires
        0 <= i < s.len(),
    ensures
        count_pred(s.take(i + 1), p) == count_pred(s.take(i), p) + if p(i, s[i]) {
            1nat
        } else {
            0nat
        },
{
    assert(s.take(i + 1).drop_last() =~= s.take(i));
    assert(s.take(i + 1).last() == s[i]);
}

/// A predicate covered by the disjunction of two others is counted at
/// most as often as the two together.
pub proof fn lemma_count_subadd<T>(
    s: Seq<T>,
    p: spec_fn(int, T) -> bool,
    q: spec_fn(int, T) -> bool,
    r: spec_fn(int, T) -> bool,
)
    requires
        forall|i: int| 0 <= i < s.len() && #[trigger] r(i, s[i]) ==> p(i, s[i]) || q(i, s[i]),
    ensures
        count_pred(s, r) <= count_pred(s, p) + count_pred(s, q),
    decreases s.len(),
{
    if s.len() > 0 {
        assert forall|i: int| 0 <= i < s.drop_last().len() && #[trigger] r(i, s.drop_last()[i])
            implies p(i, s.drop_last()[i]) || q(i, s.drop_last()[i]) by {
            assert(s.drop_last()[i] == s[i]);
        }
        lemma_count_subadd(s.drop_last(), p, q, r);
    }
}

/// Two pointwise complementary predicates count every position exactly once.
pub proof fn lemma_count_complement<T>(
    s: Seq<T>,
    p: spec_fn(int, T) -> bool,
    q: spec_fn(int, T) -> bool,
)
    requires
        forall|i: int| 0 <= i < s.len() ==> (#[trigger] q(i, s[i]) <==> !p(i, s[i])),
    ensures
        count_pred(s, p) + count_pred(s, q) == s.len(),
    decreases s.len(),
{
    if s.len() > 0 {
        assert forall|i: int| 0 <= i < s.drop_last().len()
            implies (#[trigger] q(i, s.drop_last()[i]) <==> !p(i, s.drop_last()[i])) by {
            assert(s.drop_last()[i] == s[i]);
        }
        lemma_count_complement(s.drop_last(), p, q);
    }
}

/// A predicate that holds only at one fixed position is counted at most once.
pub proof fn lemma_count_singleton<T>(s: Seq<T>, p: spec_fn(int, T) -> bool, k: int)
    requires
        forall|i: int, c: T| #[trigger] p(i, c) ==> i == k,
    ensures
        count_pred(s, p) <= 1,
    decreases s.len(),
{
    if s.len() > 0 {
        if p(s.len() - 1, s.last()) {
            lemma_count_none(s.drop_last(), p);
        } else {
            lemma_count_singleton(s.drop_last(), p, k);
        }
    }
}

/// A predicate whose positions all lie in a given index list is counted
/// at most as often as that list is long.
pub proof fn lemma_count_indexes<T>(s: Seq<T>, p: spec_fn(int, T) -> bool, ks: Seq<int>)
    requires
        forall|i: int, c: T| #[trigger] p(i, c) ==> ks.contains(i),
    ensures
        count_pred(s, p) <= ks.len(),
    decreases ks.len(),
{
    if ks.len() == 0 {
        lemma_count_none(s, p);
    } else {
        let k = ks.last();
        let p1 = |i: int, c: T| p(i, c) && i == k;
        let p2 = |i: int, c: T| p(i, c) && ks.drop_last().contains(i);
        assert forall|i: int| 0 <= i < s.len() && #[trigger] p(i, s[i])
            implies p1(i, s[i]) || p2(i, s[i]) by {
            if i != k {
                let j = choose|j: int| 0 <= j < ks.len() && ks[j] == i;
                assert(j < ks.len() - 1);
                assert(ks.drop_last()[j] == i);
            }
        }
        lemma_count_subadd(s, p1, p2, p);
        lemma_count_singleton(s, p1, k);
        lemma_count_indexes(s, p2, ks.drop_last());
    }
}

/// Pointwise equivalent predicates over equally long sequences give
/// equal counts.
pub proof fn lemma_count_eq_pointwise<T>(
    s1: Seq<T>,
    s2: Seq<T>,
    p: spec_fn(int, T) -> bool,
    q: spec_fn(int, T) -> bool,
)
    requires
        s1.len() == s2.len(),
        forall|i: int| 0 <= i < s1.len() ==> (#[trigger] p(i, s1[i]) <==> #[trigger] q(i, s2[i])),
    ensures
        count_pred(s1, p) == count_pred(s2, q),
    decreases s1.len(),
{
    if s1.len() > 0 {
        assert forall|i: int| 0 <= i < s1.drop_last().len()
            implies (#[trigger] p(i, s1.drop_last()[i]) <==> #[trigger] q(
            i,
            s2.drop_last()[i],
        )) by {
            assert(s1.drop_last()[i] == s1[i]);
            assert(s2.drop_last()[i] == s2[i]);
        }
        lemma_count_eq_pointwise(s1.drop_last(), s2.drop_last(), p, q);
    }
}

} // verus!
