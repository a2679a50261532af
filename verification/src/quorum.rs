//! Order statistics of the match indices a leader keeps, from which it learns
//! which log entries a majority of the cluster holds.
use vstd::prelude::*;
use vstd::relations::{sorted_by, total_ordering};

verus! {

broadcast use vstd::seq_lib::group_seq_properties;

/// The usual order on `usize`.
pub open spec fn usize_leq() -> spec_fn(usize, usize) -> bool {
    |a: usize, b: usize| a <= b
}

/// The `k`-th smallest value of `v` (counting from 0): the value at `k` once
/// `v` is sorted in increasing order.
pub open spec fn kth_smallest(v: Seq<usize>, k: int) -> usize {
    v.sort_by(usize_leq())[k]
}

/// The values of `v` that are at least `x`.
pub open spec fn at_least(v: Seq<usize>, x: usize) -> Seq<usize> {
    v.filter(|y: usize| y >= x)
}

proof fn lemma_leq_total()
    ensures
        total_ordering(usize_leq()),
{
}

/// Two sorted sequences that hold the same values the same number of times are equal.
proof fn lemma_sorted_unique(a: Seq<usize>, b: Seq<usize>)
    requires
        sorted_by(a, usize_leq()),
        sorted_by(b, usize_leq()),
        a.to_multiset() == b.to_multiset(),
    ensures
        a == b,
    decreases a.len(),
{
    a.to_multiset_ensures();
    b.to_multiset_ensures();
    if a.len() == 0 {
        assert(a =~= b);
    } else {
        assert(a.contains(a[0]));
        assert(b.contains(b[0]));
        assert(a.to_multiset().count(a[0]) > 0);
        assert(b.to_multiset().count(b[0]) > 0);
        assert(b.contains(a[0]));
        assert(a.contains(b[0]));
        let j = choose|j: int| 0 <= j < b.len() && b[j] == a[0];
        let i = choose|i: int| 0 <= i < a.len() && a[i] == b[0];
        if j > 0 {
            assert(usize_leq()(b[0], b[j]));
        }
        if i > 0 {
            assert(usize_leq()(a[0], a[i]));
        }
        assert(a[0] == b[0]);
        assert(a.remove(0) =~= a.drop_first());
        assert(b.remove(0) =~= b.drop_first());
        assert forall|x: int, y: int| 0 <= x < y < a.drop_first().len() implies
            #[trigger] usize_leq()(a.drop_first()[x], a.drop_first()[y]) by {
            assert(usize_leq()(a[x + 1], a[y + 1]));
        }
        assert forall|x: int, y: int| 0 <= x < y < b.drop_first().len() implies
            #[trigger] usize_leq()(b.drop_first()[x], b.drop_first()[y]) by {
            assert(usize_leq()(b[x + 1], b[y + 1]));
        }
        lemma_sorted_unique(a.drop_first(), b.drop_first());
        assert forall|i: int| 0 <= i < a.len() implies a[i] == b[i] by {
            if i > 0 {
                assert(a[i] == a.drop_first()[i - 1]);
                assert(b[i] == b.drop_first()[i - 1]);
            }
        }
        assert(a =~= b);
    }
}

/// A copy of `v` sorted in increasing order.
pub fn sorted_copy(v: &Vec<usize>) -> (res: Vec<usize>)
    ensures
        res@ == v@.sort_by(usize_leq()),
{
    let mut rest: Vec<usize> = v.clone();
    let mut out: Vec<usize> = Vec::new();
    assert(rest@ =~= v@);
    while rest.len() > 0
        invariant
            out@.to_multiset().add(rest@.to_multiset()) == v@.to_multiset(),
            sorted_by(out@, usize_leq()),
            forall|i: int, j: int| 0 <= i < out@.len() && 0 <= j < rest@.len() ==> out@[i] <= rest@[j],
        decreases rest@.len(),
    {
        let mut m: usize = 0;
        let mut i: usize = 1;
        while i < rest.len()
            invariant
                0 <= m < rest@.len(),
                1 <= i <= rest@.len(),
                forall|j: int| 0 <= j < i ==> rest@[m as int] <= rest@[j],
            decreases rest@.len() - i,
        {
            if rest[i] < rest[m] {
                m = i;
            }
            i = i + 1;
        }
        let ghost old_rest = rest@;
        let ghost old_out = out@;
        let x = rest.remove(m);
        out.push(x);
        proof {
            old_rest.to_multiset_ensures();
            old_out.to_multiset_ensures();
            assert(old_rest.remove(m as int) =~= rest@);
            assert(out@.to_multiset().add(rest@.to_multiset()) =~= v@.to_multiset());
            assert forall|a: int, b: int| 0 <= a < b < out@.len() implies
                #[trigger] usize_leq()(out@[a], out@[b]) by {
                if b < old_out.len() {
                    assert(usize_leq()(old_out[a], old_out[b]));
                }
            }
            assert forall|a: int, b: int| 0 <= a < out@.len() && 0 <= b < rest@.len() implies out@[a]
                <= rest@[b] by {
                let b2 = if b < m { b } else { b + 1 };
                assert(rest@[b] == old_rest[b2]);
            }
        }
    }
    proof {
        assert(rest@ =~= Seq::<usize>::empty());
        rest@.to_multiset_ensures();
        assert(out@.to_multiset() =~= v@.to_multiset());
        lemma_leq_total();
        v@.lemma_sort_by_ensures(usize_leq());
        lemma_sorted_unique(out@, v@.sort_by(usize_leq()));
    }
    out
}

/// The `k`-th smallest value of `v`.
pub fn kth_smallest_of(v: &Vec<usize>, k: usize) -> (res: usize)
    requires
        k < v@.len(),
    ensures
        res == kth_smallest(v@, k as int),
{
    let sorted = sorted_copy(v);
    proof {
        v@.to_multiset_ensures();
        sorted@.to_multiset_ensures();
        lemma_leq_total();
        v@.lemma_sort_by_ensures(usize_leq());
    }
    sorted[k]
}

/// At least `v.len() - k` values of `v` are at least its `k`-th smallest value:
/// the `k`-th smallest of the match indices is held by all but `k` of them.
pub proof fn lemma_kth_smallest_held_by_rest(v: Seq<usize>, k: int)
    requires
        0 <= k < v.len(),
    ensures
        at_least(v, kth_smallest(v, k)).len() >= v.len() - k,
{
    let s = v.sort_by(usize_leq());
    let x = kth_smallest(v, k);
    lemma_leq_total();
    v.lemma_sort_by_ensures(usize_leq());
    v.to_multiset_ensures();
    s.to_multiset_ensures();
    let pred = |y: usize| y >= x;
    // the filter keeps the same values of a permutation
    lemma_filter_multiset(v, s, pred);
    // in the sorted sequence every value from k on is at least x
    let tail = s.subrange(k, s.len() as int);
    assert forall|i: int| 0 <= i < tail.len() implies pred(#[trigger] tail[i]) by {
        if i > 0 {
            assert(usize_leq()(s[k], s[k + i]));
        }
    }
    assert(s =~= s.subrange(0, k) + tail);
    Seq::filter_distributes_over_add(s.subrange(0, k), tail, pred);
    lemma_filter_all(tail, pred);
}

/// If more than half of the values of `v` are at least `x`, the middle value
/// of `v` in increasing order (at `(v.len() - 1) / 2`) is at least `x`: a value
/// a majority reaches is never above the middle order statistic.
pub proof fn lemma_majority_reaches_middle(v: Seq<usize>, x: usize)
    requires
        at_least(v, x).len() > v.len() / 2,
    ensures
        v.len() > 0,
        kth_smallest(v, (v.len() - 1) / 2) >= x,
{
    let n = v.len() as int;
    let k = (n - 1) / 2;
    let pred = |y: usize| y >= x;
    v.lemma_filter_len(pred);
    assert(n > 0);
    let s = v.sort_by(usize_leq());
    lemma_leq_total();
    v.lemma_sort_by_ensures(usize_leq());
    v.to_multiset_ensures();
    s.to_multiset_ensures();
    assert(s.len() == n);
    lemma_filter_multiset(v, s, pred);
    if s[k] < x {
        let head = s.subrange(0, k + 1);
        let tail = s.subrange(k + 1, n);
        assert forall|i: int| 0 <= i < head.len() implies !pred(#[trigger] head[i]) by {
            if i < k {
                assert(usize_leq()(s[i], s[k]));
            }
        }
        head.lemma_all_neg_filter_empty(pred);
        assert(s =~= head + tail);
        Seq::filter_distributes_over_add(head, tail, pred);
        tail.lemma_filter_len(pred);
        assert(s.filter(pred).len() <= n - k - 1);
        assert(false);
    }
}

proof fn lemma_filter_all(s: Seq<usize>, pred: spec_fn(usize) -> bool)
    requires
        forall|i: int| 0 <= i < s.len() ==> pred(#[trigger] s[i]),
    ensures
        s.filter(pred) == s,
    decreases s.len(),
{
    reveal(Seq::filter);
    if s.len() > 0 {
        lemma_filter_all(s.drop_last(), pred);
        assert(s.drop_last().push(s.last()) =~= s);
    }
}

proof fn lemma_filter_multiset(a: Seq<usize>, b: Seq<usize>, pred: spec_fn(usize) -> bool)
    requires
        a.to_multiset() == b.to_multiset(),
    ensures
        a.filter(pred).len() == b.filter(pred).len(),
    decreases a.len(),
{
    a.to_multiset_ensures();
    b.to_multiset_ensures();
    if a.len() > 0 {
        let x = a.last();
        assert(a.contains(x));
        assert(a.to_multiset().count(x) > 0);
        assert(b.contains(x));
        let j = choose|j: int| 0 <= j < b.len() && b[j] == x;
        assert(a.remove(a.len() - 1) =~= a.drop_last());
        lemma_filter_multiset(a.drop_last(), b.remove(j), pred);
        lemma_filter_remove_len(a, a.len() - 1, pred);
        lemma_filter_remove_len(b, j, pred);
    }
}

proof fn lemma_filter_remove_len(s: Seq<usize>, j: int, pred: spec_fn(usize) -> bool)
    requires
        0 <= j < s.len(),
    ensures
        s.filter(pred).len() == s.remove(j).filter(pred).len() + (if pred(s[j]) { 1int } else { 0 }),
{
    let a = s.subrange(0, j);
    let b = s.subrange(j + 1, s.len() as int);
    assert(s =~= a + seq![s[j]] + b);
    assert(s.remove(j) =~= a + b);
    Seq::filter_distributes_over_add(a + seq![s[j]], b, pred);
    Seq::filter_distributes_over_add(a, seq![s[j]], pred);
    Seq::filter_distributes_over_add(a, b, pred);
    let one = seq![s[j]];
    assert(one.drop_last() =~= Seq::<usize>::empty());
    reveal_with_fuel(Seq::filter, 2);
    assert(one.filter(pred).len() == (if pred(s[j]) { 1int } else { 0 }));
}

} // verus!
