//! The first of a sequence that meets a condition.

use vstd::prelude::*;

verus! {

/// The index of the first of `s` that meets `p`, or `s.len()` where none
/// does.
pub open spec fn first_where<T>(s: Seq<T>, p: spec_fn(T) -> bool) -> int
    decreases s.len(),
{
    if s.len() == 0 || p(s[0]) {
        0
    } else {
        1 + first_where(s.drop_first(), p)
    }
}

/// `first_where` is the one position before which nothing meets `p` and at
/// which something does, or the sequence ends.
pub proof fn lemma_first_where<T>(s: Seq<T>, p: spec_fn(T) -> bool, k: int)
    requires
        0 <= k <= s.len(),
        forall|j: int| 0 <= j < k ==> !p(#[trigger] s[j]),
        k == s.len() || p(s[k]),
    ensures
        first_where(s, p) == k,
    decreases s.len(),
{
    if s.len() == 0 || p(s[0]) {
    } else {
        assert forall|j: int| 0 <= j < k - 1 implies !p(#[trigger] s.drop_first()[j]) by {
            assert(s.drop_first()[j] == s[j + 1]);
        }
        lemma_first_where(s.drop_first(), p, k - 1);
    }
}

/// `first_where` lies within the sequence, nothing before it meets `p`, and
/// what stands at it does.
pub proof fn lemma_first_where_bounds<T>(s: Seq<T>, p: spec_fn(T) -> bool)
    ensures
        0 <= first_where(s, p) <= s.len(),
        forall|j: int| 0 <= j < first_where(s, p) ==> !p(#[trigger] s[j]),
        first_where(s, p) < s.len() ==> p(s[first_where(s, p)]),
    decreases s.len(),
{
    if s.len() == 0 || p(s[0]) {
    } else {
        lemma_first_where_bounds(s.drop_first(), p);
        let k = first_where(s.drop_first(), p);
        assert forall|j: int| 0 <= j < k + 1 implies !p(#[trigger] s[j]) by {
            if j > 0 {
                assert(s.drop_first()[j - 1] == s[j]);
            }
        }
    }
}

/// `first_where` looks at nothing but whether each element meets `p`: two
/// sequences of one length whose elements meet `p` at the same positions have
/// the same first such position.
pub proof fn lemma_first_where_same<T, U>(
    s: Seq<T>,
    p: spec_fn(T) -> bool,
    t: Seq<U>,
    q: spec_fn(U) -> bool,
)
    requires
        s.len() == t.len(),
        forall|j: int| 0 <= j < s.len() ==> p(#[trigger] s[j]) == q(t[j]),
    ensures
        first_where(s, p) == first_where(t, q),
{
    lemma_first_where_bounds(s, p);
    let k = first_where(s, p);
    assert forall|j: int| 0 <= j < k implies !q(#[trigger] t[j]) by {
        assert(!p(s[j]));
    }
    if k < s.len() {
        assert(p(s[k]));
    }
    lemma_first_where(t, q, k);
}

/// What one more element adds to a filtered prefix.
pub proof fn lemma_filter_step<T>(s: Seq<T>, p: spec_fn(T) -> bool, i: int)
    requires
        0 <= i < s.len(),
    ensures
        s.take(i + 1).filter(p) == if p(s[i]) {
            s.take(i).filter(p).push(s[i])
        } else {
            s.take(i).filter(p)
        },
{
    assert(s.take(i + 1) =~= s.take(i).push(s[i]));
    s.take(i).lemma_filter_push(s[i], p);
}

/// Filtering looks at nothing but whether each element meets the
/// condition: two conditions that the elements of `s` meet alike keep the
/// same of them.
pub proof fn lemma_filter_same<T>(s: Seq<T>, p: spec_fn(T) -> bool, q: spec_fn(T) -> bool)
    requires
        forall|j: int| 0 <= j < s.len() ==> p(#[trigger] s[j]) == q(s[j]),
    ensures
        s.filter(p) == s.filter(q),
    decreases s.len(),
{
    reveal(Seq::filter);
    if s.len() > 0 {
        assert forall|j: int| 0 <= j < s.drop_last().len() implies p(#[trigger] s.drop_last()[j])
            == q(s.drop_last()[j]) by {
            assert(s.drop_last()[j] == s[j]);
        }
        lemma_filter_same(s.drop_last(), p, q);
        assert(p(s.last()) == q(s.last())) by {
            assert(s.last() == s[s.len() - 1]);
        }
    }
}

/// Filtering twice keeps what meets both conditions.
pub proof fn lemma_filter_twice<T>(s: Seq<T>, p: spec_fn(T) -> bool, q: spec_fn(T) -> bool)
    ensures
        s.filter(p).filter(q) == s.filter(|x: T| p(x) && q(x)),
    decreases s.len(),
{
    let both = |x: T| p(x) && q(x);
    reveal(Seq::filter);
    if s.len() > 0 {
        lemma_filter_twice(s.drop_last(), p, q);
        if p(s.last()) {
            s.drop_last().filter(p).lemma_filter_push(s.last(), q);
        }
    }
}

/// The first element that a filter keeps is the first that meets the
/// condition; a filter keeps nothing where none does.
pub proof fn lemma_filter_first<T>(s: Seq<T>, p: spec_fn(T) -> bool)
    ensures
        first_where(s, p) == s.len() ==> s.filter(p).len() == 0,
        0 <= first_where(s, p) < s.len() ==> s.filter(p).len() > 0 && s.filter(p)[0]
            == s[first_where(s, p)],
    decreases s.len(),
{
    lemma_first_where_bounds(s, p);
    if s.len() == 0 {
        reveal(Seq::filter);
    } else {
        let rest = s.drop_first();
        lemma_filter_first(rest, p);
        assert(s =~= seq![s[0]] + rest);
        rest.lemma_filter_prepend(s[0], p);
        if p(s[0]) {
            assert(s.filter(p)[0] == s[0]);
        } else {
            assert(s.filter(p) =~= rest.filter(p));
            if first_where(rest, p) < rest.len() {
                assert(rest[first_where(rest, p)] == s[first_where(rest, p) + 1]);
            }
        }
    }
}

/// A filter keeps everything where every element meets the condition.
pub proof fn lemma_filter_all<T>(s: Seq<T>, p: spec_fn(T) -> bool)
    requires
        forall|j: int| 0 <= j < s.len() ==> p(#[trigger] s[j]),
    ensures
        s.filter(p) == s,
    decreases s.len(),
{
    reveal(Seq::filter);
    if s.len() > 0 {
        assert forall|j: int| 0 <= j < s.drop_last().len() implies p(
            #[trigger] s.drop_last()[j],
        ) by {
            assert(s.drop_last()[j] == s[j]);
        }
        lemma_filter_all(s.drop_last(), p);
        assert(p(s.last())) by {
            assert(s.last() == s[s.len() - 1]);
        }
        assert(s.drop_last().push(s.last()) =~= s);
    }
}

} // verus!
