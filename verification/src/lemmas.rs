//! Facts about filtered sequences that the store's proofs rest on.

use vstd::prelude::*;

verus! {

/// Filtering a sequence with one more element keeps or drops that element
/// and leaves the rest as it was.
pub proof fn lemma_filter_push<A>(s: Seq<A>, x: A, pred: spec_fn(A) -> bool)
    ensures
        s.push(x).filter(pred) == if pred(x) {
            s.filter(pred).push(x)
        } else {
            s.filter(pred)
        },
{
    reveal(Seq::filter);
    assert(s.push(x).drop_last() =~= s);
}

/// The first `i + 1` elements are the first `i` and the one that follows.
pub proof fn lemma_take_next<A>(s: Seq<A>, i: int)
    requires
        0 <= i < s.len(),
    ensures
        s.take(i + 1) == s.take(i).push(s[i]),
{
    assert(s.take(i + 1) =~= s.take(i).push(s[i]));
}

/// A filter that every element passes changes nothing.
pub proof fn lemma_filter_all<A>(s: Seq<A>, pred: spec_fn(A) -> bool)
    requires
        forall|i: int| 0 <= i < s.len() ==> pred(#[trigger] s[i]),
    ensures
        s.filter(pred) == s,
    decreases s.len(),
{
    reveal(Seq::filter);
    if s.len() > 0 {
        lemma_filter_all(s.drop_last(), pred);
        assert(s.drop_last().push(s.last()) =~= s);
    } else {
        assert(s.filter(pred) =~= s);
    }
}

/// What passes a filter was in the sequence and meets the predicate.
pub proof fn lemma_filter_member<A>(s: Seq<A>, pred: spec_fn(A) -> bool, i: int)
    requires
        0 <= i < s.filter(pred).len(),
    ensures
        pred(s.filter(pred)[i]),
        exists|k: int| 0 <= k < s.len() && #[trigger] s[k] == s.filter(pred)[i],
    decreases s.len(),
{
    reveal(Seq::filter);
    if s.len() > 0 {
        let rest = s.drop_last();
        if pred(s.last()) && i == rest.filter(pred).len() {
            assert(s[s.len() - 1] == s.filter(pred)[i]);
        } else {
            lemma_filter_member(rest, pred, i);
            let k = choose|k: int| 0 <= k < rest.len() && #[trigger] rest[k] == rest.filter(pred)[i];
            assert(s[k] == s.filter(pred)[i]);
        }
    }
}

/// What meets the predicate passes the filter.
pub proof fn lemma_filter_keeps<A>(s: Seq<A>, pred: spec_fn(A) -> bool, k: int)
    requires
        0 <= k < s.len(),
        pred(s[k]),
    ensures
        exists|i: int| 0 <= i < s.filter(pred).len() && #[trigger] s.filter(pred)[i] == s[k],
    decreases s.len(),
{
    reveal(Seq::filter);
    let rest = s.drop_last();
    if k == s.len() - 1 {
        assert(s.filter(pred)[rest.filter(pred).len() as int] == s[k]);
    } else {
        lemma_filter_keeps(rest, pred, k);
        let i = choose|i: int|
            0 <= i < rest.filter(pred).len() && #[trigger] rest.filter(pred)[i] == rest[k];
        assert(s.filter(pred)[i] == s[k]);
    }
}

/// A filter keeps the order: two places of the filtered sequence come from
/// two places of the sequence, in the same order.
pub proof fn lemma_filter_order<A>(s: Seq<A>, pred: spec_fn(A) -> bool, i: int, j: int)
    requires
        0 <= i < j < s.filter(pred).len(),
    ensures
        exists|a: int, b: int|
            0 <= a < b < s.len() && #[trigger] s[a] == s.filter(pred)[i] && #[trigger] s[b]
                == s.filter(pred)[j],
    decreases s.len(),
{
    reveal(Seq::filter);
    if s.len() > 0 {
        let rest = s.drop_last();
        if pred(s.last()) && j == rest.filter(pred).len() {
            lemma_filter_member(rest, pred, i);
            let a = choose|a: int| 0 <= a < rest.len() && #[trigger] rest[a] == rest.filter(pred)[i];
            let b = s.len() - 1;
            assert(s[a] == s.filter(pred)[i] && s[b] == s.filter(pred)[j]);
        } else {
            lemma_filter_order(rest, pred, i, j);
            let (a, b) = choose|a: int, b: int|
                0 <= a < b < rest.len() && #[trigger] rest[a] == rest.filter(pred)[i]
                    && #[trigger] rest[b] == rest.filter(pred)[j];
            assert(s[a] == s.filter(pred)[i] && s[b] == s.filter(pred)[j]);
        }
    }
}

} // verus!
