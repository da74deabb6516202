//! Stable insertion sorting, as a specification with its lemma toolbox.
//!
//! The ray caster orders hits by distance and the angular sorter orders
//! them by angle, both with comparators that admit ties, so the sort is
//! specified once here over an arbitrary `leq` relation. A new element is
//! inserted after every element already placed that compares `leq` to it,
//! which makes the sort stable: elements the comparator cannot tell apart
//! keep their original relative order.

use vstd::multiset::Multiset;
use vstd::prelude::*;

verus! {

/// `leq` relates every pair of values, one way or the other.
pub open spec fn leq_total<T>(leq: spec_fn(T, T) -> bool) -> bool {
    forall|a: T, b: T| #[trigger] leq(a, b) || #[trigger] leq(b, a)
}

/// `leq` is transitive.
pub open spec fn leq_transitive<T>(leq: spec_fn(T, T) -> bool) -> bool {
    forall|a: T, b: T, c: T| #![trigger leq(a, b), leq(b, c)] leq(a, b) && leq(b, c) ==> leq(a, c)
}

/// Every adjacent pair of `s` is ordered by `leq`.
pub open spec fn sorted_by<T>(leq: spec_fn(T, T) -> bool, s: Seq<T>) -> bool {
    forall|i: int| 0 <= i < s.len() - 1 ==> #[trigger] leq(s[i], s[i + 1])
}

/// `x` placed into `s` after every leading element that compares `leq` to it.
pub open spec fn insert_sorted<T>(leq: spec_fn(T, T) -> bool, x: T, s: Seq<T>) -> Seq<T>
    decreases s.len(),
{
    if s.len() == 0 {
        seq![x]
    } else if leq(s[0], x) {
        seq![s[0]] + insert_sorted(leq, x, s.drop_first())
    } else {
        seq![x] + s
    }
}

/// The stable insertion sort of `s` under `leq`.
pub open spec fn insertion_sort<T>(leq: spec_fn(T, T) -> bool, s: Seq<T>) -> Seq<T>
    decreases s.len(),
{
    if s.len() == 0 {
        Seq::empty()
    } else {
        insert_sorted(leq, s.last(), insertion_sort(leq, s.drop_last()))
    }
}

pub proof fn lemma_insert_sorted_len<T>(leq: spec_fn(T, T) -> bool, x: T, s: Seq<T>)
    ensures
        insert_sorted(leq, x, s).len() == s.len() + 1,
    decreases s.len(),
{
    if s.len() > 0 && leq(s[0], x) {
        lemma_insert_sorted_len(leq, x, s.drop_first());
    }
}

pub proof fn lemma_insertion_sort_len<T>(leq: spec_fn(T, T) -> bool, s: Seq<T>)
    ensures
        insertion_sort(leq, s).len() == s.len(),
    decreases s.len(),
{
    if s.len() > 0 {
        lemma_insertion_sort_len(leq, s.drop_last());
        lemma_insert_sorted_len(leq, s.last(), insertion_sort(leq, s.drop_last()));
    }
}

/// Inserting adds exactly the new element to the multiset of the sequence.
pub proof fn lemma_insert_sorted_multiset<T>(leq: spec_fn(T, T) -> bool, x: T, s: Seq<T>)
    ensures
        insert_sorted(leq, x, s).to_multiset() =~= s.to_multiset().insert(x),
    decreases s.len(),
{
    broadcast use vstd::seq_lib::group_to_multiset_ensures;
    broadcast use vstd::multiset::group_multiset_axioms;

    if s.len() == 0 {
        assert(seq![x] =~= Seq::<T>::empty().push(x));
        assert(Seq::<T>::empty().to_multiset() =~= Multiset::<T>::empty());
    } else if leq(s[0], x) {
        let t = s.drop_first();
        lemma_insert_sorted_multiset(leq, x, t);
        vstd::seq_lib::lemma_multiset_commutative(seq![s[0]], insert_sorted(leq, x, t));
        vstd::seq_lib::lemma_multiset_commutative(seq![s[0]], t);
        assert(s =~= seq![s[0]] + t);
        assert(seq![s[0]] =~= Seq::<T>::empty().push(s[0]));
    } else {
        vstd::seq_lib::lemma_multiset_commutative(seq![x], s);
        assert(seq![x] =~= Seq::<T>::empty().push(x));
    }
}

/// Sorting does not change the multiset of the sequence.
pub proof fn lemma_insertion_sort_multiset<T>(leq: spec_fn(T, T) -> bool, s: Seq<T>)
    ensures
        insertion_sort(leq, s).to_multiset() =~= s.to_multiset(),
    decreases s.len(),
{
    broadcast use vstd::seq_lib::group_to_multiset_ensures;

    if s.len() > 0 {
        let t = s.drop_last();
        lemma_insertion_sort_multiset(leq, t);
        lemma_insert_sorted_multiset(leq, s.last(), insertion_sort(leq, t));
        assert(s =~= t.push(s.last()));
    }
}

/// Inserting into a sorted sequence keeps it sorted, provided the
/// comparator is total.
pub proof fn lemma_insert_sorted_sorted<T>(leq: spec_fn(T, T) -> bool, x: T, s: Seq<T>)
    requires
        leq_total(leq),
        sorted_by(leq, s),
    ensures
        sorted_by(leq, insert_sorted(leq, x, s)),
    decreases s.len(),
{
    let r = insert_sorted(leq, x, s);
    if s.len() == 0 {
        assert(sorted_by(leq, r));
    } else if leq(s[0], x) {
        let t = s.drop_first();
        assert(sorted_by(leq, t)) by {
            assert forall|i: int| 0 <= i < t.len() - 1 implies #[trigger] leq(t[i], t[i + 1]) by {
                assert(t[i] == s[i + 1]);
                assert(t[i + 1] == s[i + 2]);
                assert(leq(s[i + 1], s[i + 2]));
            }
        }
        lemma_insert_sorted_sorted(leq, x, t);
        let r2 = insert_sorted(leq, x, t);
        lemma_insert_sorted_len(leq, x, t);
        // junction: s[0] is followed by the head of the inserted tail
        assert(leq(s[0], r2[0])) by {
            if t.len() == 0 {
                assert(r2[0] == x);
            } else if leq(t[0], x) {
                assert(r2[0] == t[0]);
                assert(t[0] == s[1]);
                assert(leq(s[0], s[1]));
            } else {
                assert(r2[0] == x);
            }
        }
        assert forall|i: int| 0 <= i < r.len() - 1 implies #[trigger] leq(r[i], r[i + 1]) by {
            if i == 0 {
                assert(r[0] == s[0]);
                assert(r[1] == r2[0]);
            } else {
                assert(r[i] == r2[i - 1]);
                assert(r[i + 1] == r2[i]);
                assert(leq(r2[i - 1], r2[i]));
            }
        }
    } else {
        assert(leq(x, s[0]));
        assert forall|i: int| 0 <= i < r.len() - 1 implies #[trigger] leq(r[i], r[i + 1]) by {
            if i == 0 {
                assert(r[0] == x);
                assert(r[1] == s[0]);
            } else {
                assert(r[i] == s[i - 1]);
                assert(r[i + 1] == s[i]);
                assert(leq(s[i - 1], s[(i - 1) + 1]));
            }
        }
    }
}

/// The insertion sort of any sequence is sorted, provided the comparator
/// is total.
pub proof fn lemma_insertion_sort_sorted<T>(leq: spec_fn(T, T) -> bool, s: Seq<T>)
    requires
        leq_total(leq),
    ensures
        sorted_by(leq, insertion_sort(leq, s)),
    decreases s.len(),
{
    if s.len() > 0 {
        lemma_insertion_sort_sorted(leq, s.drop_last());
        lemma_insert_sorted_sorted(leq, s.last(), insertion_sort(leq, s.drop_last()));
    }
}

/// A property holding of every element, and of the inserted one, holds of
/// every element of the result.
pub proof fn lemma_insert_sorted_all<T>(
    leq: spec_fn(T, T) -> bool,
    p: spec_fn(T) -> bool,
    x: T,
    s: Seq<T>,
)
    requires
        p(x),
        forall|i: int| 0 <= i < s.len() ==> p(#[trigger] s[i]),
    ensures
        forall|i: int|
            0 <= i < insert_sorted(leq, x, s).len() ==> p(#[trigger] insert_sorted(leq, x, s)[i]),
    decreases s.len(),
{
    let r = insert_sorted(leq, x, s);
    if s.len() == 0 {
    } else if leq(s[0], x) {
        let t = s.drop_first();
        assert(forall|i: int| 0 <= i < t.len() ==> p(#[trigger] t[i])) by {
            assert(forall|i: int| 0 <= i < t.len() ==> #[trigger] t[i] == s[i + 1]);
        }
        lemma_insert_sorted_all(leq, p, x, t);
        let r2 = insert_sorted(leq, x, t);
        assert forall|i: int| 0 <= i < r.len() implies p(#[trigger] r[i]) by {
            if i == 0 {
                assert(r[0] == s[0]);
            } else {
                assert(r[i] == r2[i - 1]);
            }
        }
    } else {
        assert forall|i: int| 0 <= i < r.len() implies p(#[trigger] r[i]) by {
            if i == 0 {
                assert(r[0] == x);
            } else {
                assert(r[i] == s[i - 1]);
            }
        }
    }
}

/// A property holding of every element holds of every element of the sort.
pub proof fn lemma_insertion_sort_all<T>(
    leq: spec_fn(T, T) -> bool,
    p: spec_fn(T) -> bool,
    s: Seq<T>,
)
    requires
        forall|i: int| 0 <= i < s.len() ==> p(#[trigger] s[i]),
    ensures
        forall|i: int|
            0 <= i < insertion_sort(leq, s).len() ==> p(#[trigger] insertion_sort(leq, s)[i]),
    decreases s.len(),
{
    if s.len() > 0 {
        let t = s.drop_last();
        assert(forall|i: int| 0 <= i < t.len() ==> p(#[trigger] t[i])) by {
            assert(forall|i: int| 0 <= i < t.len() ==> #[trigger] t[i] == s[i]);
        }
        lemma_insertion_sort_all(leq, p, t);
        lemma_insert_sorted_all(leq, p, s.last(), insertion_sort(leq, t));
    }
}

/// Where the insertion lands: past a prefix that compares `leq` to `x`,
/// before the first element that does not.
pub proof fn lemma_insert_sorted_at<T>(leq: spec_fn(T, T) -> bool, x: T, s: Seq<T>, j: int)
    requires
        0 <= j <= s.len(),
        forall|k: int| 0 <= k < j ==> leq(#[trigger] s[k], x),
        j == s.len() || !leq(s[j], x),
    ensures
        insert_sorted(leq, x, s) =~= s.insert(j, x),
    decreases s.len(),
{
    if s.len() == 0 {
        assert(insert_sorted(leq, x, s) =~= s.insert(0, x));
    } else if j == 0 {
        assert(!leq(s[0], x));
        assert(insert_sorted(leq, x, s) =~= s.insert(0, x));
    } else {
        assert(leq(s[0], x));
        let t = s.drop_first();
        assert(forall|k: int| 0 <= k < j - 1 ==> leq(#[trigger] t[k], x)) by {
            assert(forall|k: int| 0 <= k < t.len() ==> #[trigger] t[k] == s[k + 1]);
        }
        if j - 1 < t.len() {
            assert(t[j - 1] == s[j]);
        }
        lemma_insert_sorted_at(leq, x, t, j - 1);
        lemma_insert_sorted_len(leq, x, t);
        assert(insert_sorted(leq, x, s) =~= s.insert(j, x));
    }
}

/// With a transitive comparator, a sorted sequence is ordered between any
/// two positions, not only adjacent ones.
pub proof fn lemma_sorted_pair<T>(leq: spec_fn(T, T) -> bool, s: Seq<T>, i: int, j: int)
    requires
        leq_transitive(leq),
        sorted_by(leq, s),
        0 <= i < j < s.len(),
    ensures
        leq(s[i], s[j]),
    decreases j - i,
{
    if j == i + 1 {
        assert(leq(s[i], s[i + 1]));
    } else {
        lemma_sorted_pair(leq, s, i, j - 1);
        assert(leq(s[j - 1], s[(j - 1) + 1]));
    }
}

/// Sorting an already sorted sequence returns it unchanged, provided the
/// comparator is total and transitive.
pub proof fn lemma_insertion_sort_identity<T>(leq: spec_fn(T, T) -> bool, s: Seq<T>)
    requires
        leq_total(leq),
        leq_transitive(leq),
        sorted_by(leq, s),
    ensures
        insertion_sort(leq, s) == s,
    decreases s.len(),
{
    if s.len() > 0 {
        let t = s.drop_last();
        assert(sorted_by(leq, t)) by {
            assert forall|i: int| 0 <= i < t.len() - 1 implies #[trigger] leq(t[i], t[i + 1]) by {
                assert(t[i] == s[i]);
                assert(t[i + 1] == s[i + 1]);
                assert(leq(s[i], s[i + 1]));
            }
        }
        lemma_insertion_sort_identity(leq, t);
        let x = s.last();
        assert forall|k: int| 0 <= k < t.len() implies leq(#[trigger] t[k], x) by {
            assert(t[k] == s[k]);
            lemma_sorted_pair(leq, s, k, s.len() - 1);
        }
        lemma_insert_sorted_at(leq, x, t, t.len() as int);
        assert(t.insert(t.len() as int, x) =~= s);
    }
}

} // verus!
