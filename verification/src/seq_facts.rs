//! Facts about picking elements out of a sequence.

use vstd::prelude::*;

verus! {

/// Picking from a sequence in which every element qualifies gives the
/// sequence itself.
pub proof fn lemma_filter_all<A>(s: Seq<A>, pick: spec_fn(A) -> bool)
    requires
        forall|i: int| 0 <= i < s.len() ==> pick(#[trigger] s[i]),
    ensures
        s.filter(pick) == s,
    decreases s.len(),
{
    reveal(Seq::filter);
    if s.len() > 0 {
        lemma_filter_all(s.drop_last(), pick);
        assert(s.drop_last().push(s.last()) == s);
    }
}

/// Picking from a sequence in which no element qualifies gives nothing.
pub proof fn lemma_filter_none<A>(s: Seq<A>, pick: spec_fn(A) -> bool)
    requires
        forall|i: int| 0 <= i < s.len() ==> !pick(#[trigger] s[i]),
    ensures
        s.filter(pick) == Seq::<A>::empty(),
    decreases s.len(),
{
    reveal(Seq::filter);
    if s.len() > 0 {
        lemma_filter_none(s.drop_last(), pick);
    }
}

/// Picking twice is picking once by both tests.
pub proof fn lemma_filter_twice<A>(s: Seq<A>, first: spec_fn(A) -> bool, second: spec_fn(A) -> bool)
    ensures
        s.filter(first).filter(second) == s.filter(|a: A| first(a) && second(a)),
    decreases s.len(),
{
    reveal(Seq::filter);
    if s.len() > 0 {
        lemma_filter_twice(s.drop_last(), first, second);
        if first(s.last()) {
            assert(s.drop_last().filter(first).push(s.last()).drop_last() == s.drop_last().filter(
                first,
            ));
        }
    }
}

/// Two tests that agree on every element of a sequence pick the same.
pub proof fn lemma_filter_same<A>(s: Seq<A>, one: spec_fn(A) -> bool, other: spec_fn(A) -> bool)
    requires
        forall|i: int| 0 <= i < s.len() ==> one(#[trigger] s[i]) == other(s[i]),
    ensures
        s.filter(one) == s.filter(other),
    decreases s.len(),
{
    reveal(Seq::filter);
    if s.len() > 0 {
        lemma_filter_same(s.drop_last(), one, other);
    }
}

/// What a test picks from a sequence is what it picks from one part of the
/// sequence and from the rest.
pub proof fn lemma_filter_split_len<A>(s: Seq<A>, part: spec_fn(A) -> bool, pick: spec_fn(A) -> bool)
    ensures
        s.filter(pick).len() == s.filter(part).filter(pick).len() + s.filter(
            |a: A| !part(a),
        ).filter(pick).len(),
    decreases s.len(),
{
    reveal(Seq::filter);
    let rest = |a: A| !part(a);
    if s.len() > 0 {
        lemma_filter_split_len(s.drop_last(), part, pick);
        let init = s.drop_last();
        if part(s.last()) {
            assert(init.filter(part).push(s.last()).drop_last() == init.filter(part));
        } else {
            assert(init.filter(rest).push(s.last()).drop_last() == init.filter(rest));
        }
    }
}

/// Where a test picks something from a sequence, some element passes it.
pub proof fn lemma_filter_witness<A>(s: Seq<A>, pick: spec_fn(A) -> bool)
    requires
        s.filter(pick).len() > 0,
    ensures
        exists|i: int| 0 <= i < s.len() && pick(#[trigger] s[i]),
{
    if forall|i: int| 0 <= i < s.len() ==> !pick(#[trigger] s[i]) {
        lemma_filter_none(s, pick);
    }
}

} // verus!
