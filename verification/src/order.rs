//! Putting zone identifiers in ascending order.

use vstd::multiset::group_multiset_axioms;
use vstd::prelude::*;
use vstd::seq_lib::{lemma_multiset_commutative, to_multiset_build};
use vstd::slice::slice_subrange;

verus! {

/// Whether no element of `s` is greater than one after it.
pub open spec fn is_ascending(s: Seq<i32>) -> bool {
    forall|i: int, j: int| 0 <= i < j < s.len() ==> s[i] <= s[j]
}

/// Whether every element of `s` is less than each one after it.
pub open spec fn is_strictly_ascending(s: Seq<i32>) -> bool {
    forall|i: int, j: int| 0 <= i < j < s.len() ==> s[i] < s[j]
}

/// Whether `sorted` holds the elements of `ids`, each as often as `ids`
/// does, in ascending order.
pub open spec fn is_sorted_form_of(sorted: Seq<i32>, ids: Seq<i32>) -> bool {
    is_ascending(sorted) && sorted.to_multiset() == ids.to_multiset()
}

/// Taking one more element of a sequence adds that element to what the
/// sequence held before.
pub proof fn lemma_take_one_more(s: Seq<i32>, i: int)
    requires
        0 <= i < s.len(),
    ensures
        s.take(i + 1).to_multiset() == s.take(i).to_multiset().insert(s[i]),
{
    assert(s.take(i + 1) =~= s.take(i).push(s[i]));
    to_multiset_build(s.take(i), s[i]);
}

/// Merges two ascending runs into one.
pub fn merge(a: &[i32], b: &[i32]) -> (out: Vec<i32>)
    requires
        is_ascending(a@),
        is_ascending(b@),
    ensures
        is_ascending(out@),
        out@.to_multiset() == a@.to_multiset().add(b@.to_multiset()),
{
    broadcast use group_multiset_axioms;

    let mut out: Vec<i32> = Vec::new();
    let mut i: usize = 0;
    let mut j: usize = 0;
    proof {
        let none = Seq::<i32>::empty();
        assert(a@.take(0) =~= none && b@.take(0) =~= none && none + none =~= none);
        lemma_multiset_commutative(none, none);
    }
    while i < a.len() || j < b.len()
        invariant
            i <= a.len(),
            j <= b.len(),
            is_ascending(a@),
            is_ascending(b@),
            is_ascending(out@),
            out@.to_multiset() == a@.take(i as int).to_multiset().add(
                b@.take(j as int).to_multiset(),
            ),
            forall|k: int| 0 <= k < out@.len() && i < a.len() ==> out@[k] <= a@[i as int],
            forall|k: int| 0 <= k < out@.len() && j < b.len() ==> out@[k] <= b@[j as int],
        decreases a.len() - i + b.len() - j,
    {
        let ghost before = out@;
        if j >= b.len() || (i < a.len() && a[i] <= b[j]) {
            out.push(a[i]);
            proof {
                to_multiset_build(before, a@[i as int]);
                lemma_take_one_more(a@, i as int);
            }
            i += 1;
        } else {
            out.push(b[j]);
            proof {
                to_multiset_build(before, b@[j as int]);
                lemma_take_one_more(b@, j as int);
            }
            j += 1;
        }
        assert(out@.to_multiset() =~= a@.take(i as int).to_multiset().add(
            b@.take(j as int).to_multiset(),
        ));
    }
    assert(a@.take(a.len() as int) =~= a@);
    assert(b@.take(b.len() as int) =~= b@);
    out
}

/// Puts `ids` in ascending order. Each identifier stays as often as it
/// occurs.
pub fn sort(ids: &[i32]) -> (sorted: Vec<i32>)
    ensures
        is_sorted_form_of(sorted@, ids@),
    decreases ids@.len(),
{
    let n: usize = ids.len();
    if n <= 1 {
        let mut sorted: Vec<i32> = Vec::new();
        if n == 1 {
            sorted.push(ids[0]);
        }
        assert(sorted@ =~= ids@);
        return sorted;
    }
    let mid: usize = n / 2;
    let left = sort(slice_subrange(ids, 0, mid));
    let right = sort(slice_subrange(ids, mid, n));
    proof {
        lemma_multiset_commutative(ids@.subrange(0, mid as int), ids@.subrange(mid as int, n as int));
        assert(ids@.subrange(0, mid as int) + ids@.subrange(mid as int, n as int) =~= ids@);
    }
    merge(left.as_slice(), right.as_slice())
}

/// Drops the repetitions from an ascending sequence.
pub fn dedup_ascending(sorted: &[i32]) -> (unique: Vec<i32>)
    requires
        is_ascending(sorted@),
    ensures
        is_strictly_ascending(unique@),
        forall|x: i32| unique@.contains(x) <==> sorted@.contains(x),
{
    let mut unique: Vec<i32> = Vec::new();
    let mut i: usize = 0;
    while i < sorted.len()
        invariant
            i <= sorted.len(),
            is_ascending(sorted@),
            is_strictly_ascending(unique@),
            forall|x: i32| unique@.contains(x) <==> sorted@.take(i as int).contains(x),
            i > 0 ==> unique@.len() > 0 && unique@.last() == sorted@[i - 1],
            i == 0 ==> unique@.len() == 0,
        decreases sorted.len() - i,
    {
        let x: i32 = sorted[i];
        let ghost seen = sorted@.take(i as int);
        let ghost kept = unique@;
        if unique.len() == 0 || unique[unique.len() - 1] != x {
            unique.push(x);
        }
        assert forall|y: i32| unique@.contains(y) <==> sorted@.take(i + 1).contains(y) by {
            let next = sorted@.take(i + 1);
            if unique@.contains(y) {
                let m = choose|m: int| 0 <= m < unique@.len() && unique@[m] == y;
                if m < kept.len() {
                    assert(kept.contains(kept[m]));
                    let k = choose|k: int| 0 <= k < seen.len() && seen[k] == y;
                    assert(next[k] == y);
                } else {
                    assert(next[i as int] == y);
                }
            }
            if next.contains(y) {
                let k = choose|k: int| 0 <= k < next.len() && next[k] == y;
                if k < i {
                    assert(seen[k] == y);
                    assert(kept.contains(y));
                    let m = choose|m: int| 0 <= m < kept.len() && kept[m] == y;
                    assert(unique@[m] == y);
                } else {
                    assert(unique@[unique@.len() - 1] == y);
                }
            }
        }
        i += 1;
    }
    assert(sorted@.take(sorted.len() as int) =~= sorted@);
    unique
}

/// Two sequences with the same elements, as often, have the same members.
pub proof fn lemma_same_members(a: Seq<i32>, b: Seq<i32>)
    requires
        a.to_multiset() == b.to_multiset(),
    ensures
        forall|x: i32| a.contains(x) <==> b.contains(x),
{
    a.to_multiset_ensures();
    b.to_multiset_ensures();
    assert forall|x: i32| a.contains(x) <==> b.contains(x) by {
        assert(a.contains(x) <==> a.to_multiset().count(x) > 0);
    }
}

/// Two strictly ascending sequences with the same members are equal.
pub proof fn lemma_strictly_ascending_same_members(a: Seq<i32>, b: Seq<i32>)
    requires
        is_strictly_ascending(a),
        is_strictly_ascending(b),
        forall|x: i32| a.contains(x) <==> b.contains(x),
    ensures
        a == b,
    decreases a.len(),
{
    if a.len() == 0 {
        if b.len() > 0 {
            assert(b.contains(b[0]));
        }
    } else {
        // Each last element is a member of the other sequence, so neither
        // is the greater one.
        assert(a.contains(a.last()));
        assert(b.contains(b.last()));
        let a0 = a.drop_last();
        let b0 = b.drop_last();
        assert forall|x: i32| a0.contains(x) <==> b0.contains(x) by {
            if a0.contains(x) {
                let k = choose|k: int| 0 <= k < a0.len() && a0[k] == x;
                assert(a.contains(a[k]));
                let m = choose|m: int| 0 <= m < b.len() && b[m] == x;
                assert(b0[m] == x);
            }
            if b0.contains(x) {
                let k = choose|k: int| 0 <= k < b0.len() && b0[k] == x;
                assert(b.contains(b[k]));
                let m = choose|m: int| 0 <= m < a.len() && a[m] == x;
                assert(a0[m] == x);
            }
        }
        lemma_strictly_ascending_same_members(a0, b0);
        assert(a =~= a0.push(a.last()));
    }
}

} // verus!
