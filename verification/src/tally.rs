//! Counting the entries of a sequence that satisfy a predicate.

use vstd::prelude::*;

verus! {

/// The number of entries of `s` that satisfy `pred`.
pub open spec fn tally<A>(s: Seq<A>, pred: spec_fn(A) -> bool) -> nat
    decreases s.len(),
{
    if s.len() == 0 {
        0
    } else {
        tally(s.drop_last(), pred) + if pred(s.last()) {
            1nat
        } else {
            0nat
        }
    }
}

/// A tally is at most the length; it is the length exactly when every entry
/// counts, and zero exactly when none does.
pub proof fn lemma_tally_bounds<A>(s: Seq<A>, pred: spec_fn(A) -> bool)
    ensures
        tally(s, pred) <= s.len(),
        tally(s, pred) == s.len() <==> forall|i: int| 0 <= i < s.len() ==> pred(#[trigger] s[i]),
        tally(s, pred) == 0 <==> forall|i: int| 0 <= i < s.len() ==> !pred(#[trigger] s[i]),
    decreases s.len(),
{
    if s.len() > 0 {
        let front = s.drop_last();
        lemma_tally_bounds(front, pred);
        assert forall|i: int| 0 <= i < front.len() implies front[i] == s[i] by {}
        if tally(s, pred) == s.len() {
            assert forall|i: int| 0 <= i < s.len() implies pred(#[trigger] s[i]) by {
                if i < front.len() {
                    assert(pred(front[i]));
                }
            }
        }
        if forall|i: int| 0 <= i < s.len() ==> pred(#[trigger] s[i]) {
            assert forall|i: int| 0 <= i < front.len() implies pred(#[trigger] front[i]) by {
                assert(pred(s[i]));
            }
        }
        if tally(s, pred) == 0 {
            assert forall|i: int| 0 <= i < s.len() implies !pred(#[trigger] s[i]) by {
                if i < front.len() {
                    assert(!pred(front[i]));
                }
            }
        }
        if forall|i: int| 0 <= i < s.len() ==> !pred(#[trigger] s[i]) {
            assert forall|i: int| 0 <= i < front.len() implies !pred(#[trigger] front[i]) by {
                assert(!pred(s[i]));
            }
        }
    }
}

/// Appending an entry raises the tally by one if the entry counts.
pub proof fn lemma_tally_push<A>(s: Seq<A>, pred: spec_fn(A) -> bool, entry: A)
    ensures
        tally(s.push(entry), pred) == tally(s, pred) + if pred(entry) {
            1nat
        } else {
            0nat
        },
{
    assert(s.push(entry).drop_last() =~= s);
}

/// Replacing an entry moves the tally by what the old entry and the new
/// one count.
pub proof fn lemma_tally_update<A>(s: Seq<A>, pred: spec_fn(A) -> bool, at: int, entry: A)
    requires
        0 <= at < s.len(),
    ensures
        tally(s.update(at, entry), pred) + (if pred(s[at]) {
            1nat
        } else {
            0nat
        }) == tally(s, pred) + if pred(entry) {
            1nat
        } else {
            0nat
        },
    decreases s.len(),
{
    let changed = s.update(at, entry);
    if at == s.len() - 1 {
        assert(changed.drop_last() =~= s.drop_last());
    } else {
        lemma_tally_update(s.drop_last(), pred, at, entry);
        assert(changed.drop_last() =~= s.drop_last().update(at, entry));
    }
}

/// Taking an entry out lowers the tally by one if the entry counted.
pub proof fn lemma_tally_remove<A>(s: Seq<A>, pred: spec_fn(A) -> bool, at: int)
    requires
        0 <= at < s.len(),
    ensures
        tally(s.remove(at), pred) + (if pred(s[at]) {
            1nat
        } else {
            0nat
        }) == tally(s, pred),
    decreases s.len(),
{
    let shorter = s.remove(at);
    if at == s.len() - 1 {
        assert(shorter =~= s.drop_last());
    } else {
        lemma_tally_remove(s.drop_last(), pred, at);
        assert(shorter.drop_last() =~= s.drop_last().remove(at));
        assert(shorter.last() == s.last());
    }
}

} // verus!
