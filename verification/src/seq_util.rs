//! First-match lookup, counting and summing over sequences, with the
//! lemmas the event model needs about pushing and removing elements.

use vstd::prelude::*;

verus! {

/// The first element satisfying `p`, if any.
pub open spec fn find_first<A>(s: Seq<A>, p: spec_fn(A) -> bool) -> Option<A>
    decreases s.len(),
{
    if s.len() == 0 {
        None
    } else if p(s.first()) {
        Some(s.first())
    } else {
        find_first(s.drop_first(), p)
    }
}

/// The index of the first element satisfying `p`; meaningful only when a
/// match exists.
pub open spec fn find_index<A>(s: Seq<A>, p: spec_fn(A) -> bool) -> int
    decreases s.len(),
{
    if s.len() == 0 {
        0
    } else if p(s.first()) {
        0
    } else {
        1 + find_index(s.drop_first(), p)
    }
}

/// Some element satisfies `p`.
pub open spec fn has_match<A>(s: Seq<A>, p: spec_fn(A) -> bool) -> bool {
    exists|i: int| 0 <= i < s.len() && p(#[trigger] s[i])
}

/// How many elements satisfy `p`.
pub open spec fn count_where<A>(s: Seq<A>, p: spec_fn(A) -> bool) -> int
    decreases s.len(),
{
    if s.len() == 0 {
        0
    } else {
        count_where(s.drop_last(), p) + if p(s.last()) {
            1int
        } else {
            0int
        }
    }
}

/// The sum of `f` over the elements.
pub open spec fn sum_of<A>(s: Seq<A>, f: spec_fn(A) -> int) -> int
    decreases s.len(),
{
    if s.len() == 0 {
        0
    } else {
        sum_of(s.drop_last(), f) + f(s.last())
    }
}

/// Pushing then dropping the last element gives the sequence itself back.
pub proof fn lemma_push_parts<A>(s: Seq<A>, x: A)
    ensures
        (s.push(x)).drop_last() == s,
        (s.push(x)).last() == x,
{
    assert((s.push(x)).drop_last() =~= s);
}

/// `find_first` finds exactly the first match: it returns a value if and
/// only if a match exists, and then `find_index` points at that first
/// match.
pub proof fn lemma_find_first<A>(s: Seq<A>, p: spec_fn(A) -> bool)
    ensures
        find_first(s, p) is Some <==> has_match(s, p),
        has_match(s, p) ==> {
            let i = find_index(s, p);
            &&& 0 <= i < s.len()
            &&& p(s[i])
            &&& find_first(s, p) == Some(s[i])
            &&& forall|j: int| 0 <= j < i ==> !p(#[trigger] s[j])
        },
    decreases s.len(),
{
    if s.len() == 0 {
    } else if p(s.first()) {
        assert(p(s[0]));
    } else {
        let d = s.drop_first();
        lemma_find_first(d, p);
        assert(forall|i: int| 0 <= i < d.len() ==> d[i] == s[i + 1]);
        if has_match(s, p) {
            let w = choose|i: int| 0 <= i < s.len() && p(#[trigger] s[i]);
            assert(w != 0);
            assert(p(d[w - 1]));
            assert(has_match(d, p));
        }
        if has_match(d, p) {
            let i = find_index(d, p);
            assert(p(s[i + 1]));
            assert(has_match(s, p));
            assert forall|j: int| 0 < j < i + 1 implies !p(#[trigger] s[j]) by {
                assert(d[j - 1] == s[j]);
                assert(!p(d[j - 1]));
            }
        }
    }
}

/// A sequence with no match has no first match.
pub proof fn lemma_find_first_none<A>(s: Seq<A>, p: spec_fn(A) -> bool)
    requires
        forall|j: int| 0 <= j < s.len() ==> !p(#[trigger] s[j]),
    ensures
        find_first(s, p) is None,
{
    lemma_find_first(s, p);
}

/// Appending an element does not change which element matches first,
/// when an earlier match exists.
pub proof fn lemma_find_first_push<A>(s: Seq<A>, p: spec_fn(A) -> bool, x: A)
    requires
        find_first(s, p) is Some,
    ensures
        find_first(s.push(x), p) == find_first(s, p),
    decreases s.len(),
{
    if s.len() == 0 {
    } else if p(s.first()) {
        assert((s.push(x)).first() == s.first());
        assert(find_first(s.push(x), p) == Some(s.first()));
    } else {
        assert((s.push(x)).first() == s.first());
        assert((s.push(x)).drop_first() =~= s.drop_first().push(x));
        lemma_find_first_push(s.drop_first(), p, x);
    }
}

/// The count is bounded by the length, and is zero exactly when nothing
/// matches.
pub proof fn lemma_count_bounds<A>(s: Seq<A>, p: spec_fn(A) -> bool)
    ensures
        0 <= count_where(s, p) <= s.len(),
        count_where(s, p) == 0 <==> !has_match(s, p),
    decreases s.len(),
{
    if s.len() == 0 {
    } else {
        let d = s.drop_last();
        lemma_count_bounds(d, p);
        assert(forall|i: int| 0 <= i < d.len() ==> d[i] == s[i]);
        if p(s.last()) {
            assert(p(s[s.len() - 1]));
            assert(has_match(s, p));
        } else {
            if has_match(s, p) && !has_match(d, p) {
                let w = choose|i: int| 0 <= i < s.len() && p(#[trigger] s[i]);
                assert(w == s.len() - 1);
                assert(false);
            }
        }
    }
}

/// Counting after a push adds one exactly when the new element matches.
pub proof fn lemma_count_push<A>(s: Seq<A>, p: spec_fn(A) -> bool, x: A)
    ensures
        count_where(s.push(x), p) == count_where(s, p) + if p(x) {
            1int
        } else {
            0int
        },
{
    lemma_push_parts(s, x);
}

/// Counting after removing index `i` subtracts one exactly when the
/// removed element matched.
pub proof fn lemma_count_remove<A>(s: Seq<A>, p: spec_fn(A) -> bool, i: int)
    requires
        0 <= i < s.len(),
    ensures
        count_where(s.remove(i), p) == count_where(s, p) - if p(s[i]) {
            1int
        } else {
            0int
        },
    decreases s.len(),
{
    if i == s.len() - 1 {
        assert(s.remove(i) =~= s.drop_last());
    } else {
        let d = s.drop_last();
        assert(s.remove(i).drop_last() =~= d.remove(i));
        assert(s.remove(i).last() == s.last());
        assert(s.remove(i).len() == s.len() - 1);
        lemma_count_remove(d, p, i);
        assert(d[i] == s[i]);
    }
}

/// A sum of non-negative terms is itself non-negative and bounds each
/// prefix sum.
pub proof fn lemma_sum_of_prefix<A>(s: Seq<A>, f: spec_fn(A) -> int, m: int)
    requires
        forall|i: int| 0 <= i < s.len() ==> f(#[trigger] s[i]) >= 0,
        0 <= m <= s.len(),
    ensures
        0 <= sum_of(s.take(m), f) <= sum_of(s, f),
    decreases s.len(),
{
    if m == s.len() {
        assert(s.take(m) =~= s);
        lemma_sum_of_nonneg(s, f);
    } else {
        let d = s.drop_last();
        assert(d.take(m) =~= s.take(m));
        assert(forall|i: int| 0 <= i < d.len() ==> d[i] == s[i]);
        lemma_sum_of_prefix(d, f, m);
        assert(f(s.last()) == f(s[s.len() - 1]) >= 0);
    }
}

/// A sum of non-negative terms is non-negative.
pub proof fn lemma_sum_of_nonneg<A>(s: Seq<A>, f: spec_fn(A) -> int)
    requires
        forall|i: int| 0 <= i < s.len() ==> f(#[trigger] s[i]) >= 0,
    ensures
        sum_of(s, f) >= 0,
    decreases s.len(),
{
    if s.len() > 0 {
        let d = s.drop_last();
        assert(forall|i: int| 0 <= i < d.len() ==> d[i] == s[i]);
        lemma_sum_of_nonneg(d, f);
        assert(f(s.last()) == f(s[s.len() - 1]) >= 0);
    }
}

/// Pushing extends a sum by the new term.
pub proof fn lemma_sum_of_push<A>(s: Seq<A>, f: spec_fn(A) -> int, x: A)
    ensures
        sum_of(s.push(x), f) == sum_of(s, f) + f(x),
{
    lemma_push_parts(s, x);
}

} // verus!
