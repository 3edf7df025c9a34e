//! Counting the elements of a sequence that a predicate keeps.
use vstd::prelude::*;

verus! {

/// Keeping by a weaker predicate keeps at least as many.
pub proof fn lemma_filter_len_le<A>(s: Seq<A>, p: spec_fn(A) -> bool, q: spec_fn(A) -> bool)
    requires
        forall|i: int| 0 <= i < s.len() && p(#[trigger] s[i]) ==> q(s[i]),
    ensures
        s.filter(p).len() <= s.filter(q).len(),
    decreases s.len(),
{
    reveal(Seq::filter);
    if s.len() > 0 {
        let rest = s.drop_last();
        assert forall|i: int| 0 <= i < rest.len() && p(#[trigger] rest[i]) implies q(rest[i]) by {
            assert(rest[i] == s[i]);
        }
        lemma_filter_len_le(rest, p, q);
    }
}

/// Keeping by a weaker predicate that also keeps `s[j]`, which the stronger
/// one drops, keeps more.
pub proof fn lemma_filter_len_lt<A>(
    s: Seq<A>,
    p: spec_fn(A) -> bool,
    q: spec_fn(A) -> bool,
    j: int,
)
    requires
        forall|i: int| 0 <= i < s.len() && p(#[trigger] s[i]) ==> q(s[i]),
        0 <= j < s.len(),
        q(s[j]),
        !p(s[j]),
    ensures
        s.filter(p).len() < s.filter(q).len(),
    decreases s.len(),
{
    reveal(Seq::filter);
    let rest = s.drop_last();
    assert forall|i: int| 0 <= i < rest.len() && p(#[trigger] rest[i]) implies q(rest[i]) by {
        assert(rest[i] == s[i]);
    }
    if j == s.len() - 1 {
        lemma_filter_len_le(rest, p, q);
    } else {
        assert(rest[j] == s[j]);
        lemma_filter_len_lt(rest, p, q, j);
    }
}

/// Predicates that agree on every element keep as many.
pub proof fn lemma_filter_len_eq<A>(s: Seq<A>, p: spec_fn(A) -> bool, q: spec_fn(A) -> bool)
    requires
        forall|i: int| 0 <= i < s.len() ==> p(#[trigger] s[i]) == q(s[i]),
    ensures
        s.filter(p).len() == s.filter(q).len(),
{
    lemma_filter_len_le(s, p, q);
    lemma_filter_len_le(s, q, p);
}

/// A predicate that is the disjoint union of two keeps as many as both
/// together.
pub proof fn lemma_filter_len_split<A>(
    s: Seq<A>,
    p: spec_fn(A) -> bool,
    q: spec_fn(A) -> bool,
    r: spec_fn(A) -> bool,
)
    requires
        forall|i: int|
            0 <= i < s.len() ==> (r(#[trigger] s[i]) == (p(s[i]) || q(s[i]))) && !(p(s[i]) && q(
                s[i],
            )),
    ensures
        s.filter(r).len() == s.filter(p).len() + s.filter(q).len(),
    decreases s.len(),
{
    reveal(Seq::filter);
    if s.len() > 0 {
        let rest = s.drop_last();
        assert forall|i: int| 0 <= i < rest.len() implies (r(#[trigger] rest[i]) == (p(rest[i])
            || q(rest[i]))) && !(p(rest[i]) && q(rest[i])) by {
            assert(rest[i] == s[i]);
        }
        lemma_filter_len_split(rest, p, q, r);
    }
}

/// Keeping in two steps keeps as many as keeping by both predicates at once.
pub proof fn lemma_filter_filter_len<A>(
    s: Seq<A>,
    p: spec_fn(A) -> bool,
    q: spec_fn(A) -> bool,
    r: spec_fn(A) -> bool,
)
    requires
        forall|x: A| #[trigger] r(x) == (p(x) && q(x)),
    ensures
        s.filter(p).filter(q).len() == s.filter(r).len(),
    decreases s.len(),
{
    reveal(Seq::filter);
    if s.len() > 0 {
        let rest = s.drop_last();
        lemma_filter_filter_len(rest, p, q, r);
        if p(s.last()) {
            assert(s.filter(p) == rest.filter(p).push(s.last()));
            assert(s.filter(p).drop_last() =~= rest.filter(p));
        } else {
            assert(s.filter(p) == rest.filter(p));
        }
    }
}

/// A predicate that holds of no element keeps none.
pub proof fn lemma_filter_len_zero<A>(s: Seq<A>, p: spec_fn(A) -> bool)
    requires
        forall|i: int| 0 <= i < s.len() ==> !p(#[trigger] s[i]),
    ensures
        s.filter(p).len() == 0,
    decreases s.len(),
{
    reveal(Seq::filter);
    if s.len() > 0 {
        let rest = s.drop_last();
        assert forall|i: int| 0 <= i < rest.len() implies !p(#[trigger] rest[i]) by {
            assert(rest[i] == s[i]);
        }
        lemma_filter_len_zero(rest, p);
    }
}

/// A predicate that holds of `s[k]` alone keeps one.
pub proof fn lemma_filter_len_one<A>(s: Seq<A>, p: spec_fn(A) -> bool, k: int)
    requires
        0 <= k < s.len(),
        p(s[k]),
        forall|i: int| 0 <= i < s.len() && p(#[trigger] s[i]) ==> i == k,
    ensures
        s.filter(p).len() == 1,
    decreases s.len(),
{
    reveal(Seq::filter);
    let rest = s.drop_last();
    if k == s.len() - 1 {
        assert forall|i: int| 0 <= i < rest.len() implies !p(#[trigger] rest[i]) by {
            assert(rest[i] == s[i]);
        }
        lemma_filter_len_zero(rest, p);
    } else {
        assert forall|i: int| 0 <= i < rest.len() && p(#[trigger] rest[i]) implies i == k by {
            assert(rest[i] == s[i]);
        }
        assert(rest[k] == s[k]);
        lemma_filter_len_one(rest, p, k);
    }
}

} // verus!
