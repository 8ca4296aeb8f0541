//! Sums over sequences.
//!
//! Accounting invariants all have the same form: a counter equals the sum, over
//! some sequence of records, of what each record contributes. [`tally`] is that
//! sum, and the lemmas say how it moves when a record is added or replaced.
use vstd::prelude::*;

verus! {

/// The sum of `weight(s[i])` over all positions of `s`.
pub open spec fn tally<T>(s: Seq<T>, weight: spec_fn(T) -> nat) -> nat
    decreases s.len(),
{
    if s.len() == 0 {
        0
    } else {
        tally(s.drop_last(), weight) + weight(s.last())
    }
}

/// `s` with `x` at position `k`: replaced when `k` is a position of `s`,
/// appended otherwise.
pub open spec fn place<T>(s: Seq<T>, k: int, x: T) -> Seq<T> {
    if 0 <= k < s.len() {
        s.update(k, x)
    } else {
        s.push(x)
    }
}

/// Appending adds the weight of the new record.
pub proof fn lemma_tally_push<T>(s: Seq<T>, x: T, weight: spec_fn(T) -> nat)
    ensures
        tally(s.push(x), weight) == tally(s, weight) + weight(x),
{
    assert(s.push(x).drop_last() =~= s);
}

/// Replacing a record exchanges its weight for that of the new one.
pub proof fn lemma_tally_update<T>(s: Seq<T>, k: int, x: T, weight: spec_fn(T) -> nat)
    requires
        0 <= k < s.len(),
    ensures
        tally(s.update(k, x), weight) + weight(s[k]) == tally(s, weight) + weight(x),
    decreases s.len(),
{
    let t = s.update(k, x);
    if k == s.len() - 1 {
        assert(t.drop_last() =~= s.drop_last());
    } else {
        assert(t.drop_last() =~= s.drop_last().update(k, x));
        lemma_tally_update(s.drop_last(), k, x, weight);
    }
}

/// Placing a record where nothing of weight stood adds the weight of the record.
pub proof fn lemma_tally_place<T>(s: Seq<T>, k: int, x: T, weight: spec_fn(T) -> nat)
    requires
        0 <= k <= s.len(),
        k < s.len() ==> weight(s[k]) == 0,
    ensures
        tally(place(s, k, x), weight) == tally(s, weight) + weight(x),
{
    if k < s.len() {
        lemma_tally_update(s, k, x, weight);
    } else {
        lemma_tally_push(s, x, weight);
    }
}

/// No record outweighs the sum.
pub proof fn lemma_tally_member<T>(s: Seq<T>, k: int, weight: spec_fn(T) -> nat)
    requires
        0 <= k < s.len(),
    ensures
        weight(s[k]) <= tally(s, weight),
    decreases s.len(),
{
    if k < s.len() - 1 {
        lemma_tally_member(s.drop_last(), k, weight);
        assert(s.drop_last()[k] == s[k]);
    }
}

/// Records that weigh at most one each weigh no more together than there are.
pub proof fn lemma_tally_at_most<T>(s: Seq<T>, weight: spec_fn(T) -> nat)
    requires
        forall|x: T| #[trigger] weight(x) <= 1,
    ensures
        tally(s, weight) <= s.len(),
    decreases s.len(),
{
    if s.len() > 0 {
        lemma_tally_at_most(s.drop_last(), weight);
    }
}

/// Two weighings that agree on every record give the same sum.
pub proof fn lemma_tally_agree<T>(s: Seq<T>, weight: spec_fn(T) -> nat, other: spec_fn(T) -> nat)
    requires
        forall|k: int| 0 <= k < s.len() ==> weight(#[trigger] s[k]) == other(s[k]),
    ensures
        tally(s, weight) == tally(s, other),
    decreases s.len(),
{
    if s.len() > 0 {
        assert forall|k: int| 0 <= k < s.len() - 1 implies weight(#[trigger] s.drop_last()[k])
            == other(s.drop_last()[k]) by {
            assert(s.drop_last()[k] == s[k]);
        }
        lemma_tally_agree(s.drop_last(), weight, other);
        assert(s[s.len() - 1] == s.last());
    }
}

/// A sum of zero weights is zero.
pub proof fn lemma_tally_zero<T>(s: Seq<T>, weight: spec_fn(T) -> nat)
    requires
        forall|k: int| 0 <= k < s.len() ==> weight(#[trigger] s[k]) == 0,
    ensures
        tally(s, weight) == 0,
    decreases s.len(),
{
    if s.len() > 0 {
        assert forall|k: int| 0 <= k < s.len() - 1 implies weight(#[trigger] s.drop_last()[k])
            == 0 by {
            assert(s.drop_last()[k] == s[k]);
        }
        lemma_tally_zero(s.drop_last(), weight);
        assert(s[s.len() - 1] == s.last());
    }
}

} // verus!
