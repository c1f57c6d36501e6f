//! The median of numbers.

use vstd::prelude::*;

verus! {

/// How many of the numbers are less than `x`.
pub open spec fn count_less(s: Seq<u64>, x: int) -> nat
    decreases s.len(),
{
    if s.len() == 0 {
        0
    } else {
        count_less(s.drop_last(), x) + (if s.last() < x {
            1nat
        } else {
            0nat
        })
    }
}

/// `m` is the upper median: with the numbers in order, the one at half their count.
pub open spec fn is_median(s: Seq<u64>, m: u64) -> bool {
    count_less(s, m as int) <= s.len() / 2 < count_less(s, m + 1)
}

pub(crate) proof fn lemma_count_less_monotonic(s: Seq<u64>, x: int, y: int)
    requires
        x <= y,
    ensures
        count_less(s, x) <= count_less(s, y) <= s.len(),
    decreases s.len(),
{
    if s.len() > 0 {
        lemma_count_less_monotonic(s.drop_last(), x, y);
    }
}

/// There is one median.
pub proof fn lemma_median_unique(s: Seq<u64>, a: u64, b: u64)
    requires
        is_median(s, a),
        is_median(s, b),
    ensures
        a == b,
{
    if a < b {
        lemma_count_less_monotonic(s, a + 1, b as int);
    }
    if b < a {
        lemma_count_less_monotonic(s, b + 1, a as int);
    }
}

proof fn lemma_count_less_insert(s: Seq<u64>, p: int, item: u64, x: int)
    requires
        0 <= p <= s.len(),
    ensures
        count_less(s.insert(p, item), x) == count_less(s, x) + (if item < x {
            1nat
        } else {
            0nat
        }),
    decreases s.len(),
{
    let t = s.insert(p, item);
    if p == s.len() {
        assert(t.drop_last() =~= s);
    } else {
        assert(t.drop_last() =~= s.drop_last().insert(p, item));
        assert(t.last() == s.last());
        lemma_count_less_insert(s.drop_last(), p, item, x);
    }
}

proof fn lemma_count_less_sorted(s: Seq<u64>, x: int)
    requires
        forall|i: int, j: int| 0 <= i <= j < s.len() ==> s[i] <= s[j],
    ensures
        forall|i: int| 0 <= i < s.len() ==> (#[trigger] s[i] < x <==> i < count_less(s, x)),
    decreases s.len(),
{
    if s.len() > 0 {
        let t = s.drop_last();
        lemma_count_less_sorted(t, x);
        lemma_count_less_monotonic(t, x, x);
        assert forall|i: int| 0 <= i < s.len() implies (#[trigger] s[i] < x <==> i < count_less(
            s,
            x,
        )) by {
            if i < t.len() {
                assert(t[i] == s[i]);
            }
            if s.last() < x && t.len() > 0 {
                assert(t[t.len() - 1] == s[s.len() - 2]);
                assert(s[s.len() - 2] <= s[s.len() - 1]);
            }
        }
    }
}

/// The upper median of some numbers.
pub(crate) fn upper_median(values: &Vec<u64>) -> (median: Option<u64>)
    ensures
        median is None <==> values@.len() == 0,
        median is Some ==> is_median(values@, median->0) && values@.contains(median->0),
{
    let mut sorted: Vec<u64> = Vec::new();
    let mut i: usize = 0;
    assert(values@.take(0) =~= Seq::empty());
    while i < values.len()
        invariant
            i <= values@.len(),
            sorted@.len() == i,
            forall|x: int| #[trigger]
                count_less(sorted@, x) == count_less(values@.take(i as int), x),
            forall|a: int, b: int| 0 <= a <= b < sorted@.len() ==> sorted@[a] <= sorted@[b],
            forall|a: int| 0 <= a < sorted@.len() ==> values@.contains(#[trigger] sorted@[a]),
        decreases values@.len() - i,
    {
        let ghost head = values@.take(i as int);
        let ghost before = sorted@;
        let value: u64 = values[i];
        let mut p: usize = sorted.len();
        while p > 0 && sorted[p - 1] > value
            invariant
                p <= sorted@.len(),
                forall|j: int| p <= j < sorted@.len() ==> value < sorted@[j],
            decreases p,
        {
            p -= 1;
        }
        sorted.insert(p, value);
        proof {
            assert(values@.take(i + 1).drop_last() =~= head);
            assert forall|x: int| #[trigger]
                count_less(sorted@, x) == count_less(values@.take(i + 1), x) by {
                lemma_count_less_insert(before, p as int, value, x);
                assert(count_less(before, x) == count_less(head, x));
            }
            assert forall|a: int, b: int| 0 <= a <= b < sorted@.len() implies sorted@[a]
                <= sorted@[b] by {
                if b < p {
                    assert(before[a] <= before[b]);
                } else if b == p {
                    if a < p {
                        assert(before[a] <= before[p - 1]);
                    }
                } else if a < p {
                    assert(before[a] <= before[b - 1]);
                } else if a > p {
                    assert(before[a - 1] <= before[b - 1]);
                }
            }
            assert forall|a: int| 0 <= a < sorted@.len() implies values@.contains(
                #[trigger] sorted@[a],
            ) by {
                if a < p {
                    assert(sorted@[a] == before[a]);
                } else if a == p {
                    assert(values@[i as int] == value);
                } else {
                    assert(sorted@[a] == before[a - 1]);
                }
            }
        }
        i += 1;
    }
    assert(values@.take(i as int) =~= values@);
    let n: usize = sorted.len();
    if n == 0 {
        return None;
    }
    let median: u64 = sorted[n / 2];
    proof {
        lemma_count_less_sorted(sorted@, median as int);
        lemma_count_less_sorted(sorted@, median + 1);
        lemma_count_less_monotonic(sorted@, median as int, median as int);
        assert(count_less(sorted@, median as int) == count_less(values@, median as int));
        assert(count_less(sorted@, median + 1) == count_less(values@, median + 1));
        assert(values@.contains(sorted@[n as int / 2]));
    }
    Some(median)
}

/// Counting the lesser numbers is leaving the others out.
pub proof fn lemma_count_less(s: Seq<u64>, x: int)
    ensures
        count_less(s, x) == s.filter(|v: u64| v < x).len(),
    decreases s.len(),
{
    reveal(Seq::filter);
    if s.len() > 0 {
        lemma_count_less(s.drop_last(), x);
    }
}

/// At most half of the numbers are less than the median, more than half are not above it, and
/// it is one of them.
pub proof fn lemma_median_splits(s: Seq<u64>, m: u64)
    requires
        is_median(s, m),
    ensures
        s.contains(m),
        2 * s.filter(|v: u64| v < m as int).len() <= s.len(),
        2 * s.filter(|v: u64| v < m + 1).len() > s.len(),
        s.filter(|v: u64| v < m as int).len() <= s.len() / 2,
        s.filter(|v: u64| v < m + 1).len() > s.len() / 2,
{
    lemma_count_less(s, m as int);
    lemma_count_less(s, m + 1);
    lemma_count_differs(s, m);
}

proof fn lemma_count_differs(s: Seq<u64>, m: u64)
    requires
        count_less(s, m as int) != count_less(s, m + 1),
    ensures
        s.contains(m),
    decreases s.len(),
{
    if s.len() > 0 {
        if s.last() == m {
            assert(s[s.len() - 1] == m);
        } else {
            lemma_count_differs(s.drop_last(), m);
            let i = choose|i: int| 0 <= i < s.drop_last().len() && s.drop_last()[i] == m;
            assert(s[i] == m);
        }
    }
}

proof fn lemma_sorted_count(t: Seq<u64>, k: int, x: int)
    requires
        forall|i: int, j: int| 0 <= i <= j < t.len() ==> t[i] <= t[j],
        0 <= k <= t.len(),
        forall|i: int| 0 <= i < k ==> t[i] < x,
        k < t.len() ==> t[k] >= x,
    ensures
        count_less(t, x) == k,
    decreases t.len(),
{
    if t.len() > 0 {
        let head = t.drop_last();
        if k == t.len() {
            lemma_sorted_count(head, k - 1, x);
            assert(t[k - 1] < x);
        } else {
            assert(t[k] <= t[t.len() - 1]);
            lemma_sorted_count(head, k, x);
        }
    }
}

/// Of numbers in order the median is the one at half their count.
pub proof fn lemma_median_of_sorted(t: Seq<u64>, m: u64)
    requires
        is_median(t, m),
        forall|i: int, j: int| 0 <= i <= j < t.len() ==> t[i] <= t[j],
    ensures
        t.len() > 0,
        m == t[t.len() as int / 2],
{
    lemma_median_splits(t, m);
    let h = t.len() as int / 2;
    let v = t[h];
    lemma_count_at(t, h, v as int);
    lemma_count_at(t, h, v + 1);
    if v < m {
        lemma_count_less_monotonic(t, v + 1, m as int);
    }
    if m < v {
        lemma_count_less_monotonic(t, m + 1, v as int);
    }
}

proof fn lemma_count_at(t: Seq<u64>, h: int, x: int)
    requires
        forall|i: int, j: int| 0 <= i <= j < t.len() ==> t[i] <= t[j],
        0 <= h < t.len(),
    ensures
        t[h] >= x ==> count_less(t, x) <= h,
        t[h] < x ==> count_less(t, x) > h,
    decreases t.len(),
{
    let head = t.drop_last();
    if h < head.len() {
        lemma_count_at(head, h, x);
        if t[h] >= x {
            assert(t[h] <= t[t.len() - 1]);
        }
    } else {
        lemma_count_less_monotonic(head, x, x);
        if t[h] < x {
            assert forall|i: int| 0 <= i < head.len() implies head[i] < x by {
                assert(t[i] <= t[h]);
            }
            lemma_sorted_count(head, head.len() as int, x);
        }
    }
}

/// The order in which the numbers come makes no difference to the median.
pub proof fn lemma_median_of_rearranged(s: Seq<u64>, t: Seq<u64>, m: u64)
    requires
        s.to_multiset() == t.to_multiset(),
    ensures
        is_median(s, m) <==> is_median(t, m),
{
    lemma_count_by_multiset(s, m as int);
    lemma_count_by_multiset(t, m as int);
    lemma_count_by_multiset(s, m + 1);
    lemma_count_by_multiset(t, m + 1);
    broadcast use vstd::seq_lib::group_to_multiset_ensures;
    assert(s.len() == s.to_multiset().len());
    assert(t.len() == t.to_multiset().len());
}

proof fn lemma_count_by_multiset(s: Seq<u64>, x: int)
    ensures
        count_less(s, x) == s.to_multiset().filter(|v: u64| v < x).len(),
    decreases s.len(),
{
    broadcast use vstd::seq_lib::group_to_multiset_ensures;
    broadcast use vstd::multiset::group_multiset_axioms;
    let below = |v: u64| v < x;
    if s.len() == 0 {
        assert(s.to_multiset().filter(below) =~= vstd::multiset::Multiset::empty());
    } else {
        let head = s.drop_last();
        lemma_count_by_multiset(head, x);
        assert(s =~= head.push(s.last()));
        assert(s.to_multiset() =~= head.to_multiset().insert(s.last()));
        if below(s.last()) {
            assert(s.to_multiset().filter(below) =~= head.to_multiset().filter(below).insert(
                s.last(),
            ));
        } else {
            assert(s.to_multiset().filter(below) =~= head.to_multiset().filter(below));
        }
    }
}

} // verus!
