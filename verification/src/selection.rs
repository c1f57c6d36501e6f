//! Selecting items of a list, in order.

use vstd::prelude::*;

verus! {

/// The numbers below `n` with property `p`, in ascending order.
pub open spec fn indices_where(n: nat, p: spec_fn(int) -> bool) -> Seq<usize>
    decreases n,
{
    if n == 0 {
        Seq::empty()
    } else if p(n - 1) {
        indices_where((n - 1) as nat, p).push((n - 1) as usize)
    } else {
        indices_where((n - 1) as nat, p)
    }
}

/// The list depends on the property below `n` alone.
pub proof fn lemma_indices_where_agree(n: nat, p: spec_fn(int) -> bool, q: spec_fn(int) -> bool)
    requires
        forall|i: int| 0 <= i < n ==> #[trigger] p(i) == q(i),
    ensures
        indices_where(n, p) == indices_where(n, q),
    decreases n,
{
    if n > 0 {
        lemma_indices_where_agree((n - 1) as nat, p, q);
        assert(p(n - 1) == q(n - 1));
    }
}

/// `indices_where` lists exactly the numbers with the property, in ascending order.
pub proof fn lemma_indices_where(n: nat, p: spec_fn(int) -> bool)
    requires
        n <= usize::MAX,
    ensures
        forall|i: int, j: int|
            0 <= i < j < indices_where(n, p).len() ==> indices_where(n, p)[i] < indices_where(
                n,
                p,
            )[j],
        forall|i: int|
            0 <= i < indices_where(n, p).len() ==> (#[trigger] indices_where(n, p)[i]) < n && p(
                indices_where(n, p)[i] as int,
            ),
        forall|x: usize| x < n && p(x as int) ==> indices_where(n, p).contains(x),
        indices_where(n, p).len() <= n,
    decreases n,
{
    if n > 0 {
        let m = (n - 1) as nat;
        lemma_indices_where(m, p);
        let head = indices_where(m, p);
        assert forall|x: usize| x < n && p(x as int) implies indices_where(n, p).contains(x) by {
            if x < m {
                assert(head.contains(x));
                let i = choose|i: int| 0 <= i < head.len() && head[i] == x;
                assert(indices_where(n, p)[i] == x);
            } else {
                assert(indices_where(n, p)[head.len() as int] == x);
            }
        }
    }
}

/// The items whose flag is set, in order.
pub open spec fn kept<A>(items: Seq<A>, flags: Seq<bool>) -> Seq<A>
    decreases items.len(),
{
    if items.len() == 0 {
        Seq::empty()
    } else {
        let head = kept(items.drop_last(), flags.drop_last());
        if flags.last() {
            head.push(items.last())
        } else {
            head
        }
    }
}

/// How many flags are set.
pub open spec fn count_set(flags: Seq<bool>) -> nat
    decreases flags.len(),
{
    if flags.len() == 0 {
        0
    } else {
        count_set(flags.drop_last()) + (if flags.last() {
            1nat
        } else {
            0nat
        })
    }
}

/// `flags` is what the test said of each item.
pub open spec fn tested<A, F: Fn(A) -> bool>(test: F, items: Seq<A>, flags: Seq<bool>) -> bool {
    &&& flags.len() == items.len()
    &&& forall|j: int|
        0 <= j < items.len() ==> call_ensures(test, (#[trigger] items[j],), flags[j])
}

/// `chosen` is what the test leaves of the items.
pub open spec fn selects<A, F: Fn(A) -> bool>(test: F, items: Seq<A>, chosen: Seq<A>) -> bool {
    exists|flags: Seq<bool>| #[trigger] tested(test, items, flags) && chosen == kept(items, flags)
}

/// There are as many items left as flags are set.
pub proof fn lemma_kept_len<A>(items: Seq<A>, flags: Seq<bool>)
    requires
        items.len() == flags.len(),
    ensures
        kept(items, flags).len() == count_set(flags),
        count_set(flags) <= flags.len(),
    decreases items.len(),
{
    if items.len() > 0 {
        lemma_kept_len(items.drop_last(), flags.drop_last());
    }
}

/// Where the test can only say one thing of each item, what is selected is what the test
/// is true of, in order.
pub proof fn lemma_selects_exactly<A, F: Fn(A) -> bool>(
    test: F,
    truth: spec_fn(A) -> bool,
    items: Seq<A>,
    chosen: Seq<A>,
)
    requires
        selects(test, items, chosen),
        forall|item: A, said: bool| call_ensures(test, (item,), said) ==> said == truth(item),
    ensures
        chosen == items.filter(truth),
{
    let flags = choose|flags: Seq<bool>| #[trigger]
        tested(test, items, flags) && chosen == kept(items, flags);
    assert forall|j: int| 0 <= j < items.len() implies flags[j] == truth(#[trigger] items[j]) by {
        assert(call_ensures(test, (items[j],), flags[j]));
    }
    lemma_kept_is_filter(truth, items, flags);
}

/// With flags that say what a test is true of, the items left are those that it is true of.
pub proof fn lemma_kept_is_filter<A>(truth: spec_fn(A) -> bool, items: Seq<A>, flags: Seq<bool>)
    requires
        items.len() == flags.len(),
        forall|j: int| 0 <= j < items.len() ==> flags[j] == truth(#[trigger] items[j]),
    ensures
        kept(items, flags) == items.filter(truth),
    decreases items.len(),
{
    reveal(Seq::filter);
    if items.len() > 0 {
        let head = items.drop_last();
        assert forall|j: int| 0 <= j < head.len() implies flags.drop_last()[j] == truth(
            #[trigger] head[j],
        ) by {
            assert(head[j] == items[j]);
        }
        lemma_kept_is_filter(truth, head, flags.drop_last());
        assert(items.last() == items[items.len() - 1]);
    }
}

/// The items that pass the test, in order.
pub fn select<A: Copy, F: Fn(A) -> bool>(items: &[A], test: F) -> (chosen: Vec<A>)
    requires
        forall|i: int| 0 <= i < items@.len() ==> call_requires(test, (#[trigger] items@[i],)),
    ensures
        selects(test, items@, chosen@),
{
    let mut chosen: Vec<A> = Vec::new();
    let ghost mut flags: Seq<bool> = Seq::empty();
    let mut i: usize = 0;
    while i < items.len()
        invariant
            i <= items@.len(),
            forall|i: int| 0 <= i < items@.len() ==> call_requires(test, (#[trigger] items@[i],)),
            tested(test, items@.take(i as int), flags),
            chosen@ == kept(items@.take(i as int), flags),
        decreases items@.len() - i,
    {
        let item: A = items[i];
        let passes = test(item);
        if passes {
            chosen.push(item);
        }
        proof {
            let next = items@.take(i + 1);
            let said = flags.push(passes);
            assert(next.drop_last() =~= items@.take(i as int));
            assert(said.drop_last() =~= flags);
            assert(next.last() == item);
            assert forall|j: int| 0 <= j < next.len() implies call_ensures(
                test,
                (#[trigger] next[j],),
                said[j],
            ) by {
                if j < i {
                    assert(items@.take(i as int)[j] == next[j]);
                }
            }
            flags = said;
        }
        i += 1;
    }
    assert(items@.take(i as int) =~= items@);
    chosen
}

/// With a property of the place that is one of the item there, the items at the places listed
/// are the items with the property, in order, among the first `n`.
pub proof fn lemma_indices_where_picks<A>(
    items: Seq<A>,
    n: nat,
    p: spec_fn(int) -> bool,
    truth: spec_fn(A) -> bool,
)
    requires
        n <= items.len() <= usize::MAX,
        forall|i: int| 0 <= i < n ==> #[trigger] p(i) == truth(items[i]),
    ensures
        indices_where(n, p).len() == items.take(n as int).filter(truth).len(),
        forall|j: int|
            0 <= j < indices_where(n, p).len() ==> items[(#[trigger] indices_where(n, p)[j]) as int]
                == items.take(n as int).filter(truth)[j],
    decreases n,
{
    reveal(Seq::filter);
    if n > 0 {
        let m = (n - 1) as nat;
        lemma_indices_where_picks(items, m, p, truth);
        assert(p(n - 1) == truth(items[n - 1]));
        assert(items.take(n as int).drop_last() =~= items.take(m as int));
        assert(items.take(n as int).last() == items[n - 1]);
        let head = indices_where(m, p);
        assert forall|j: int| 0 <= j < indices_where(n, p).len() implies items[(
        #[trigger] indices_where(n, p)[j]) as int] == items.take(n as int).filter(truth)[j] by {
            if j < head.len() {
                assert(indices_where(n, p)[j] == head[j]);
            }
        }
    }
}

/// How many flags are set is how many of them are true.
pub proof fn lemma_count_set(flags: Seq<bool>)
    ensures
        count_set(flags) == flags.filter(|flag: bool| flag).len(),
        count_set(flags) == 0 <==> forall|i: int| 0 <= i < flags.len() ==> !#[trigger] flags[i],
    decreases flags.len(),
{
    reveal(Seq::filter);
    if flags.len() > 0 {
        lemma_count_set(flags.drop_last());
        if count_set(flags) == 0 {
            assert forall|i: int| 0 <= i < flags.len() implies !#[trigger] flags[i] by {
                if i < flags.len() - 1 {
                    assert(!flags.drop_last()[i]);
                }
            }
        }
        if forall|i: int| 0 <= i < flags.len() ==> !#[trigger] flags[i] {
            assert forall|i: int| 0 <= i < flags.drop_last().len() implies !#[trigger] flags.drop_last()[i] by {
                assert(!flags[i]);
            }
            assert(!flags[flags.len() - 1]);
        }
    }
}

} // verus!
