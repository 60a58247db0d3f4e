//! Facts about sequences that the bookkeeping of cells, scopes and
//! registries rests on.

use vstd::prelude::*;

verus! {

/// `s` with every occurrence of `x` taken out.
pub open spec fn without<A>(s: Seq<A>, x: A) -> Seq<A> {
    s.filter(|other: A| other != x)
}

/// `x` occurs in `s` at exactly one place.
pub open spec fn occurs_once<A>(s: Seq<A>, x: A) -> bool {
    &&& s.contains(x)
    &&& forall|i: int, j: int|
        0 <= i < s.len() && 0 <= j < s.len() && s[i] == x && s[j] == x ==> i == j
}

/// What a sequence holds after one more value was appended.
pub proof fn lemma_push_contains<A>(s: Seq<A>, x: A, y: A)
    ensures
        s.push(x).contains(y) == (s.contains(y) || x == y),
{
    let t = s.push(x);
    if t.contains(y) {
        let k = t.index_of(y);
        assert(0 <= k < t.len() && t[k] == y);
        if k < s.len() {
            assert(s[k] == y);
        }
    }
    if s.contains(y) {
        let k = s.index_of(y);
        assert(0 <= k < s.len() && s[k] == y);
        assert(t[k] == y);
    }
    if x == y {
        assert(t[t.len() - 1] == y);
    }
}

/// What a non-empty sequence holds, told by its front and its last value.
pub proof fn lemma_last_contains<A>(s: Seq<A>, y: A)
    requires
        s.len() > 0,
    ensures
        s.contains(y) == (s.drop_last().contains(y) || s.last() == y),
{
    assert(s.drop_last().push(s.last()) =~= s);
    lemma_push_contains(s.drop_last(), s.last(), y);
}

/// In a sequence free of duplicates `index_of` finds each place.
pub proof fn lemma_index_of_at<A>(s: Seq<A>, at: int)
    requires
        s.no_duplicates(),
        0 <= at < s.len(),
    ensures
        s.contains(s[at]),
        s.index_of(s[at]) == at,
{
    let k = s.index_of(s[at]);
    assert(0 <= k < s.len() && s[k] == s[at]);
}

/// A value that a sequence free of duplicates holds, it holds once.
pub proof fn lemma_distinct_occurs_once<A>(s: Seq<A>, x: A)
    requires
        s.no_duplicates(),
        s.contains(x),
    ensures
        occurs_once(s, x),
{
}

/// Appending a value that does not occur yet keeps a sequence free of
/// duplicates.
pub proof fn lemma_push_fresh<A>(s: Seq<A>, x: A)
    requires
        s.no_duplicates(),
        !s.contains(x),
    ensures
        s.push(x).no_duplicates(),
{
    let t = s.push(x);
    assert forall|i: int, j: int| 0 <= i < t.len() && 0 <= j < t.len() && i != j implies t[i]
        != t[j] by {
        if i < s.len() && j < s.len() {
            assert(s[i] != s[j]);
        } else if i < s.len() {
            assert(s.contains(s[i]));
        } else {
            assert(s.contains(s[j]));
        }
    }
}

/// Removing one place of a sequence keeps every value that stood elsewhere
/// and brings in none.
pub proof fn lemma_remove_keeps_others<A>(s: Seq<A>, at: int, x: A)
    requires
        0 <= at < s.len(),
        s[at] != x,
    ensures
        s.remove(at).contains(x) == s.contains(x),
{
    let r = s.remove(at);
    if s.contains(x) {
        let k = s.index_of(x);
        assert(0 <= k < s.len() && s[k] == x);
        if k < at {
            assert(r[k] == x);
        } else {
            assert(r[k - 1] == x);
        }
    }
    if r.contains(x) {
        let k = r.index_of(x);
        assert(0 <= k < r.len() && r[k] == x);
        if k < at {
            assert(s[k] == x);
        } else {
            assert(s[k + 1] == x);
        }
    }
}

/// In a sequence free of duplicates the value removed from one place stands
/// at no other, and what is left is free of duplicates.
pub proof fn lemma_remove_distinct<A>(s: Seq<A>, at: int)
    requires
        s.no_duplicates(),
        0 <= at < s.len(),
    ensures
        !s.remove(at).contains(s[at]),
        s.remove(at).no_duplicates(),
{
    let r = s.remove(at);
    if r.contains(s[at]) {
        let k = r.index_of(s[at]);
        assert(0 <= k < r.len() && r[k] == s[at]);
        if k < at {
            assert(s[k] == s[at]);
        } else {
            assert(s[k + 1] == s[at]);
        }
    }
    assert forall|i: int, j: int| 0 <= i < r.len() && 0 <= j < r.len() && i != j implies r[i]
        != r[j] by {
        let si = if i < at { i } else { i + 1 };
        let sj = if j < at { j } else { j + 1 };
        assert(r[i] == s[si] && r[j] == s[sj]);
    }
}

/// One step of a filter: what passes among the first `at + 1` values is
/// what passes among the first `at`, followed by value `at` if it passes.
pub proof fn lemma_filter_step<A>(s: Seq<A>, at: int, pred: spec_fn(A) -> bool)
    requires
        0 <= at < s.len(),
    ensures
        s.take(at + 1).filter(pred) == if pred(s[at]) {
            s.take(at).filter(pred).push(s[at])
        } else {
            s.take(at).filter(pred)
        },
{
    reveal(Seq::filter);
    assert(s.take(at + 1).drop_last() =~= s.take(at));
    assert(s.take(at + 1).last() == s[at]);
}

/// A filter keeps exactly the values that pass.
pub proof fn lemma_filter_contains<A>(s: Seq<A>, pred: spec_fn(A) -> bool, y: A)
    ensures
        s.filter(pred).contains(y) == (s.contains(y) && pred(y)),
    decreases s.len(),
{
    reveal(Seq::filter);
    if s.len() == 0 {
        assert(!s.contains(y)) by {
            if s.contains(y) {
                let k = s.index_of(y);
                assert(0 <= k < s.len());
            }
        }
    } else {
        lemma_filter_contains(s.drop_last(), pred, y);
        lemma_last_contains(s, y);
        if pred(s.last()) {
            lemma_push_contains(s.drop_last().filter(pred), s.last(), y);
        }
    }
}

/// A filter brings in no duplicates.
pub proof fn lemma_filter_distinct<A>(s: Seq<A>, pred: spec_fn(A) -> bool)
    requires
        s.no_duplicates(),
    ensures
        s.filter(pred).no_duplicates(),
    decreases s.len(),
{
    reveal(Seq::filter);
    if s.len() > 0 {
        let front = s.drop_last();
        assert(front.no_duplicates());
        lemma_filter_distinct(front, pred);
        if pred(s.last()) {
            assert(!front.contains(s.last())) by {
                if front.contains(s.last()) {
                    let k = front.index_of(s.last());
                    assert(0 <= k < front.len() && front[k] == s.last());
                    assert(s[k] == s[s.len() - 1]);
                }
            }
            lemma_filter_contains(front, pred, s.last());
            lemma_push_fresh(front.filter(pred), s.last());
        }
    }
}

/// A filter that every value passes changes nothing.
pub proof fn lemma_filter_all<A>(s: Seq<A>, pred: spec_fn(A) -> bool)
    requires
        forall|i: int| 0 <= i < s.len() ==> pred(#[trigger] s[i]),
    ensures
        s.filter(pred) == s,
    decreases s.len(),
{
    reveal(Seq::filter);
    if s.len() > 0 {
        let front = s.drop_last();
        assert forall|i: int| 0 <= i < front.len() implies pred(#[trigger] front[i]) by {
            assert(front[i] == s[i]);
        }
        lemma_filter_all(front, pred);
        assert(pred(s[s.len() - 1]));
        assert(front.push(s.last()) =~= s);
    }
}

/// A filter never makes a sequence longer, and makes it shorter if some
/// value does not pass.
pub proof fn lemma_filter_len<A>(s: Seq<A>, pred: spec_fn(A) -> bool)
    ensures
        s.filter(pred).len() <= s.len(),
        (exists|i: int| 0 <= i < s.len() && !pred(#[trigger] s[i])) ==> s.filter(pred).len()
            < s.len(),
    decreases s.len(),
{
    reveal(Seq::filter);
    if s.len() > 0 {
        let front = s.drop_last();
        lemma_filter_len(front, pred);
        if exists|i: int| 0 <= i < s.len() && !pred(#[trigger] s[i]) {
            let i = choose|i: int| 0 <= i < s.len() && !pred(#[trigger] s[i]);
            if i < s.len() - 1 {
                assert(!pred(front[i]));
            }
        }
    }
}

/// Taking out a value that does not occur leaves the sequence as it is.
pub proof fn lemma_without_absent<A>(s: Seq<A>, x: A)
    requires
        !s.contains(x),
    ensures
        without(s, x) == s,
{
    let pred = |other: A| other != x;
    assert forall|i: int| 0 <= i < s.len() implies pred(#[trigger] s[i]) by {
        assert(s.contains(s[i]));
    }
    lemma_filter_all(s, pred);
}

/// What is left after taking `x` out: everything else, and not `x`.
pub proof fn lemma_without_contains<A>(s: Seq<A>, x: A, y: A)
    ensures
        without(s, x).contains(y) == (s.contains(y) && y != x),
{
    lemma_filter_contains(s, |other: A| other != x, y);
}

/// In a sequence free of duplicates, taking out the value at one place
/// removes exactly that place.
pub proof fn lemma_without_at<A>(s: Seq<A>, at: int)
    requires
        s.no_duplicates(),
        0 <= at < s.len(),
    ensures
        without(s, s[at]) == s.remove(at),
    decreases s.len(),
{
    reveal(Seq::filter);
    let x = s[at];
    let front = s.drop_last();
    assert(front.no_duplicates());
    if at == s.len() - 1 {
        assert(!front.contains(x)) by {
            if front.contains(x) {
                let k = front.index_of(x);
                assert(0 <= k < front.len() && front[k] == x);
                assert(s[k] == s[at]);
            }
        }
        lemma_without_absent(front, x);
        assert(s.remove(at) =~= front);
    } else {
        assert(s.last() != x) by {
            assert(s[s.len() - 1] != s[at]);
        }
        assert(front[at] == x);
        lemma_without_at(front, at);
        assert(front.remove(at).push(s.last()) =~= s.remove(at));
    }
}

} // verus!
