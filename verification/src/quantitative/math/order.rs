//! Ordering a sequence of doubles.
//!
//! Values are ordered by rank, which agrees with numeric `<=` on everything
//! that is not a NaN and treats the two zeros as equal.

use vstd::prelude::*;
use vstd::seq_lib::lemma_multiset_commutative;
use vstd::seq_lib::to_multiset_build;
use vstd::seq_lib::to_multiset_remove;
use crate::quantitative::double::Double;

verus! {

/// Ranks never decrease along `s`.
pub open spec fn ordered(s: Seq<Double>) -> bool {
    forall|i: int, j: int| 0 <= i <= j < s.len() ==> s[i].rank() <= s[j].rank()
}

/// No element of `s` is a NaN.
pub open spec fn free_of_nan(s: Seq<Double>) -> bool {
    forall|i: int| 0 <= i < s.len() ==> !(#[trigger] s[i]).nan()
}

/// `sorted` holds exactly the elements of `data`, each as often, in
/// ascending order.
pub open spec fn arrangement_of(sorted: Seq<Double>, data: Seq<Double>) -> bool {
    ordered(sorted) && sorted.to_multiset() == data.to_multiset()
}

/// Two ascending sequences merged into one. Where ranks tie, elements of
/// `left` come first.
pub open spec fn merged(left: Seq<Double>, right: Seq<Double>) -> Seq<Double>
    decreases left.len() + right.len(),
{
    if left.len() == 0 {
        right
    } else if right.len() == 0 {
        left
    } else if left[0].rank() <= right[0].rank() {
        seq![left[0]] + merged(left.drop_first(), right)
    } else {
        seq![right[0]] + merged(left, right.drop_first())
    }
}

/// The elements of `data` in ascending order: both halves of `data` in
/// ascending order, merged. It is an arrangement of `data`, see
/// [`lemma_ascending`].
pub open spec fn ascending(data: Seq<Double>) -> Seq<Double>
    decreases data.len(),
{
    if data.len() <= 1 {
        data
    } else {
        let half = data.len() as int / 2;
        merged(ascending(data.subrange(0, half)), ascending(data.subrange(half, data.len() as int)))
    }
}

/// Merging keeps every element and the order.
pub proof fn lemma_merged(left: Seq<Double>, right: Seq<Double>)
    requires
        ordered(left),
        ordered(right),
    ensures
        ordered(merged(left, right)),
        merged(left, right).to_multiset() == left.to_multiset().add(right.to_multiset()),
        merged(left, right).len() == left.len() + right.len(),
        forall|k: int|
            0 <= k < merged(left, right).len() ==> left.contains(#[trigger] merged(left, right)[k])
                || right.contains(merged(left, right)[k]),
    decreases left.len() + right.len(),
{
    let out = merged(left, right);
    if left.len() == 0 {
        assert(left =~= Seq::<Double>::empty());
        lemma_multiset_commutative(left, right);
        assert(left + right =~= right);
        assert forall|k: int| 0 <= k < out.len() implies left.contains(#[trigger] out[k])
            || right.contains(out[k]) by {
            assert(right[k] == out[k]);
        }
    } else if right.len() == 0 {
        assert(right =~= Seq::<Double>::empty());
        lemma_multiset_commutative(left, right);
        assert(left + right =~= left);
        assert forall|k: int| 0 <= k < out.len() implies left.contains(#[trigger] out[k])
            || right.contains(out[k]) by {
            assert(left[k] == out[k]);
        }
    } else {
        let from_left = left[0].rank() <= right[0].rank();
        let head = if from_left { left[0] } else { right[0] };
        let rest_left = if from_left { left.drop_first() } else { left };
        let rest_right = if from_left { right } else { right.drop_first() };
        assert forall|i: int, j: int| 0 <= i <= j < rest_left.len() implies rest_left[i].rank()
            <= rest_left[j].rank() by {
            if from_left {
                assert(rest_left[i] == left[i + 1] && rest_left[j] == left[j + 1]);
            }
        }
        assert forall|i: int, j: int| 0 <= i <= j < rest_right.len() implies rest_right[i].rank()
            <= rest_right[j].rank() by {
            if !from_left {
                assert(rest_right[i] == right[i + 1] && rest_right[j] == right[j + 1]);
            }
        }
        lemma_merged(rest_left, rest_right);
        let tail = merged(rest_left, rest_right);
        assert(out =~= seq![head] + tail);
        lemma_multiset_commutative(seq![head], tail);
        if from_left {
            lemma_multiset_commutative(seq![head], rest_left);
            assert(seq![head] + rest_left =~= left);
        } else {
            lemma_multiset_commutative(seq![head], rest_right);
            assert(seq![head] + rest_right =~= right);
        }
        assert(out.to_multiset() =~= left.to_multiset().add(right.to_multiset()));
        // every element of either remainder is an element of its source,
        // and not below the head
        assert forall|x: Double| rest_left.contains(x) implies left.contains(x) && head.rank()
            <= x.rank() by {
            let i = choose|i: int| 0 <= i < rest_left.len() && rest_left[i] == x;
            if from_left {
                assert(left[i + 1] == x);
                assert(left[0].rank() <= left[i + 1].rank());
            } else {
                assert(left[i] == x);
                assert(left[0].rank() <= left[i].rank());
            }
        }
        assert forall|x: Double| rest_right.contains(x) implies right.contains(x) && head.rank()
            <= x.rank() by {
            let j = choose|j: int| 0 <= j < rest_right.len() && rest_right[j] == x;
            if from_left {
                assert(right[j] == x);
                assert(right[0].rank() <= right[j].rank());
            } else {
                assert(right[j + 1] == x);
                assert(right[0].rank() <= right[j + 1].rank());
            }
        }
        assert forall|k: int| 0 <= k < out.len() implies left.contains(#[trigger] out[k])
            || right.contains(out[k]) by {
            if k == 0 {
                if from_left {
                    assert(left[0] == out[0]);
                } else {
                    assert(right[0] == out[0]);
                }
            } else {
                assert(out[k] == tail[k - 1]);
            }
        }
        assert forall|i: int, j: int| 0 <= i <= j < out.len() implies out[i].rank()
            <= out[j].rank() by {
            if i == 0 && j > 0 {
                assert(out[j] == tail[j - 1]);
                assert(rest_left.contains(tail[j - 1]) || rest_right.contains(tail[j - 1]));
            } else if i > 0 {
                assert(out[i] == tail[i - 1] && out[j] == tail[j - 1]);
            }
        }
    }
}

/// The ascending order of `data` is an arrangement of `data`: it holds
/// exactly the elements of `data`, each as often, and ranks never decrease
/// along it.
pub proof fn lemma_ascending(data: Seq<Double>)
    ensures
        arrangement_of(ascending(data), data),
        ascending(data).len() == data.len(),
    decreases data.len(),
{
    if data.len() > 1 {
        let half = data.len() as int / 2;
        let front = data.subrange(0, half);
        let back = data.subrange(half, data.len() as int);
        lemma_ascending(front);
        lemma_ascending(back);
        lemma_merged(ascending(front), ascending(back));
        lemma_multiset_commutative(front, back);
        assert(front + back =~= data);
    }
}

/// Merges two sequences into one, taking from `left` while its next
/// element is not the larger.
fn merge(left: &Vec<Double>, right: &Vec<Double>) -> (out: Vec<Double>)
    ensures
        out@ == merged(left@, right@),
{
    let mut out: Vec<Double> = Vec::new();
    let mut i: usize = 0;
    let mut j: usize = 0;
    proof {
        assert(left@.skip(0) =~= left@);
        assert(right@.skip(0) =~= right@);
        assert(out@ + merged(left@, right@) =~= merged(left@, right@));
    }
    while i < left.len() || j < right.len()
        invariant
            i <= left.len(),
            j <= right.len(),
            out@ + merged(left@.skip(i as int), right@.skip(j as int)) == merged(left@, right@),
        decreases left.len() - i + (right.len() - j),
    {
        let ghost rest_left = left@.skip(i as int);
        let ghost rest_right = right@.skip(j as int);
        let take_left: bool = if i >= left.len() {
            false
        } else if j >= right.len() {
            true
        } else {
            left[i].rank_key() <= right[j].rank_key()
        };
        if take_left {
            let x = left[i];
            proof {
                assert(rest_left[0] == x);
                assert(rest_left.drop_first() =~= left@.skip(i + 1));
                let tail = merged(left@.skip(i + 1), rest_right);
                if rest_right.len() == 0 {
                    assert(tail == left@.skip(i + 1));
                    assert(merged(rest_left, rest_right) =~= seq![x] + tail);
                } else {
                    assert(rest_right[0] == right@[j as int]);
                }
                assert(merged(rest_left, rest_right) =~= seq![x] + tail);
                assert(out@.push(x) + tail =~= out@ + (seq![x] + tail));
            }
            out.push(x);
            i = i + 1;
        } else {
            let x = right[j];
            proof {
                assert(rest_right[0] == x);
                assert(rest_right.drop_first() =~= right@.skip(j + 1));
                let tail = merged(rest_left, right@.skip(j + 1));
                if rest_left.len() == 0 {
                    assert(tail == right@.skip(j + 1));
                    assert(merged(rest_left, rest_right) =~= seq![x] + tail);
                } else {
                    assert(rest_left[0] == left@[i as int]);
                }
                assert(merged(rest_left, rest_right) =~= seq![x] + tail);
                assert(out@.push(x) + tail =~= out@ + (seq![x] + tail));
            }
            out.push(x);
            j = j + 1;
        }
    }
    proof {
        assert(left@.skip(i as int) =~= Seq::<Double>::empty());
        assert(out@ + merged(left@.skip(i as int), right@.skip(j as int)) =~= out@);
    }
    out
}

/// Sorts `data[lo..hi]` into a new vector by splitting it in halves.
fn sort_range(data: &Vec<Double>, lo: usize, hi: usize) -> (out: Vec<Double>)
    requires
        lo <= hi <= data.len(),
    ensures
        out@ == ascending(data@.subrange(lo as int, hi as int)),
    decreases hi - lo,
{
    let ghost part = data@.subrange(lo as int, hi as int);
    if hi - lo == 0 {
        let out: Vec<Double> = Vec::new();
        proof {
            assert(part =~= out@);
        }
        out
    } else if hi - lo == 1 {
        let mut out: Vec<Double> = Vec::new();
        out.push(data[lo]);
        proof {
            assert(part =~= out@);
        }
        out
    } else {
        let mid: usize = lo + (hi - lo) / 2;
        let left = sort_range(data, lo, mid);
        let right = sort_range(data, mid, hi);
        proof {
            let half = part.len() as int / 2;
            assert(part.subrange(0, half) =~= data@.subrange(lo as int, mid as int));
            assert(part.subrange(half, part.len() as int) =~= data@.subrange(mid as int, hi as int));
        }
        merge(&left, &right)
    }
}

/// An ascending copy of `data`; `data` itself is left as it is.
pub fn sorted(data: &Vec<Double>) -> (out: Vec<Double>)
    ensures
        out@ == ascending(data@),
        arrangement_of(out@, data@),
        out.len() == data.len(),
{
    let out = sort_range(data, 0, data.len());
    proof {
        assert(data@.subrange(0, data.len() as int) =~= data@);
        lemma_ascending(data@);
    }
    out
}

/// Two ascending arrangements of the same elements agree in rank at every
/// position: they can differ only in which of several numerically equal
/// elements stands where.
pub proof fn lemma_arrangements_agree(first: Seq<Double>, second: Seq<Double>)
    requires
        ordered(first),
        ordered(second),
        first.to_multiset() == second.to_multiset(),
    ensures
        first.len() == second.len(),
        forall|k: int| 0 <= k < first.len() ==> first[k].rank() == second[k].rank(),
    decreases first.len(),
{
    first.to_multiset_ensures();
    second.to_multiset_ensures();
    if first.len() > 0 {
        let head = first[0];
        assert(first.contains(head));
        assert(first.to_multiset().count(head) > 0);
        assert(second.to_multiset().count(head) > 0);
        assert(second.contains(head));
        let at = choose|i: int| 0 <= i < second.len() && second[i] == head;
        let other = second[0];
        assert(second.contains(other));
        assert(second.to_multiset().count(other) > 0);
        assert(first.to_multiset().count(other) > 0);
        assert(first.contains(other));
        let back = choose|j: int| 0 <= j < first.len() && first[j] == other;
        assert(first[0].rank() <= first[back].rank());
        assert(second[0].rank() <= second[at].rank());
        let rest = first.remove(0);
        let others = second.remove(at);
        to_multiset_remove(first, 0);
        to_multiset_remove(second, at);
        assert forall|i: int, j: int| 0 <= i <= j < rest.len() implies rest[i].rank()
            <= rest[j].rank() by {
            assert(rest[i] == first[i + 1] && rest[j] == first[j + 1]);
        }
        assert forall|i: int, j: int| 0 <= i <= j < others.len() implies others[i].rank()
            <= others[j].rank() by {
            let a = if i < at { i } else { i + 1 };
            let b = if j < at { j } else { j + 1 };
            assert(others[i] == second[a] && others[j] == second[b]);
        }
        lemma_arrangements_agree(rest, others);
        assert forall|k: int| 0 <= k < first.len() implies first[k].rank() == second[k].rank() by {
            if k > 0 {
                assert(rest[k - 1] == first[k]);
                if k - 1 < at {
                    assert(others[k - 1] == second[k - 1]);
                    assert(second[0].rank() <= second[k - 1].rank());
                    assert(second[k - 1].rank() <= second[k].rank());
                    assert(second[k].rank() <= second[at].rank());
                } else {
                    assert(others[k - 1] == second[k]);
                }
            }
        }
    }
}

} // verus!
