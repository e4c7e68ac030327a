//! Facts about filtering a sequence that the stores and the filter rest on.

use vstd::prelude::*;

verus! {

/// `sub` can be had from `full` by leaving elements out: there are places in
/// `full`, one for each element of `sub` and in rising order, at which the
/// elements of `sub` stand.
pub open spec fn is_subsequence<A>(sub: Seq<A>, full: Seq<A>) -> bool {
    exists|places: Seq<int>| #[trigger] embeds(sub, full, places)
}

/// `places` names, for each element of `sub` and in rising order, a place
/// in `full` at which that element stands.
pub open spec fn embeds<A>(sub: Seq<A>, full: Seq<A>, places: Seq<int>) -> bool {
    &&& places.len() == sub.len()
    &&& forall|i: int|
        0 <= i < sub.len() ==> 0 <= #[trigger] places[i] < full.len() && sub[i] == full[places[i]]
    &&& forall|i: int, j: int| 0 <= i < j < sub.len() ==> places[i] < places[j]
}

/// A filter that every element passes leaves the sequence as it is.
pub proof fn lemma_filter_keeps_all<A>(s: Seq<A>, pred: spec_fn(A) -> bool)
    requires
        forall|i: int| 0 <= i < s.len() ==> pred(#[trigger] s[i]),
    ensures
        s.filter(pred) == s,
    decreases s.len(),
{
    reveal(Seq::filter);
    if s.len() > 0 {
        lemma_filter_keeps_all(s.drop_last(), pred);
    }
}

/// A filter that only the element at `at` fails removes that element.
pub proof fn lemma_filter_drops_one<A>(s: Seq<A>, at: int, pred: spec_fn(A) -> bool)
    requires
        0 <= at < s.len(),
        !pred(s[at]),
        forall|i: int| 0 <= i < s.len() && i != at ==> pred(#[trigger] s[i]),
    ensures
        s.filter(pred) == s.remove(at),
    decreases s.len(),
{
    reveal(Seq::filter);
    if at == s.len() - 1 {
        lemma_filter_keeps_all(s.drop_last(), pred);
    } else {
        lemma_filter_drops_one(s.drop_last(), at, pred);
    }
}

/// Where the first `cut` elements pass a filter and the others fail it,
/// the filter keeps exactly the first `cut`.
pub proof fn lemma_filter_keeps_front<A>(s: Seq<A>, cut: int, pred: spec_fn(A) -> bool)
    requires
        0 <= cut <= s.len(),
        forall|i: int| 0 <= i < cut ==> pred(#[trigger] s[i]),
        forall|i: int| cut <= i < s.len() ==> !pred(#[trigger] s[i]),
    ensures
        s.filter(pred) == s.take(cut),
    decreases s.len(),
{
    reveal(Seq::filter);
    if cut == s.len() {
        lemma_filter_keeps_all(s, pred);
    } else {
        lemma_filter_keeps_front(s.drop_last(), cut, pred);
    }
}

/// Where the first `cut` elements fail a filter and the others pass it,
/// the filter keeps exactly those behind the first `cut`.
pub proof fn lemma_filter_keeps_back<A>(s: Seq<A>, cut: int, pred: spec_fn(A) -> bool)
    requires
        0 <= cut <= s.len(),
        forall|i: int| 0 <= i < cut ==> !pred(#[trigger] s[i]),
        forall|i: int| cut <= i < s.len() ==> pred(#[trigger] s[i]),
    ensures
        s.filter(pred) == s.skip(cut),
    decreases s.len(),
{
    reveal(Seq::filter);
    if s.len() > 0 {
        let front = if cut == s.len() { cut - 1 } else { cut };
        lemma_filter_keeps_back(s.drop_last(), front, pred);
    }
}

/// What a filter keeps is a subsequence of what it was given.
pub proof fn lemma_filter_is_subsequence<A>(s: Seq<A>, pred: spec_fn(A) -> bool)
    ensures
        is_subsequence(s.filter(pred), s),
    decreases s.len(),
{
    reveal(Seq::filter);
    if s.len() == 0 {
        assert(embeds(s.filter(pred), s, Seq::<int>::empty()));
    } else {
        let front = s.drop_last();
        lemma_filter_is_subsequence(front, pred);
        let places = choose|places: Seq<int>| #[trigger] embeds(front.filter(pred), front, places);
        if pred(s.last()) {
            assert(embeds(s.filter(pred), s, places.push(s.len() - 1)));
        } else {
            assert(embeds(s.filter(pred), s, places));
        }
    }
}

} // verus!
