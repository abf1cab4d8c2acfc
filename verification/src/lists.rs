//! Filters and stable sorting of lists.

use vstd::prelude::*;

verus! {

/// One more element of a list is kept by a filter or not.
pub proof fn lemma_filter_step<A>(list: Seq<A>, i: int, keep: spec_fn(A) -> bool)
    requires
        0 <= i < list.len(),
    ensures
        list.take(i + 1).filter(keep) == (if keep(list[i]) {
            list.take(i).filter(keep).push(list[i])
        } else {
            list.take(i).filter(keep)
        }),
{
    reveal(Seq::filter);
    assert(list.take(i + 1).drop_last() == list.take(i));
}

/// A list that a filter keeps whole.
pub proof fn lemma_filter_keeps_all<A>(list: Seq<A>, keep: spec_fn(A) -> bool)
    requires
        forall|i: int| 0 <= i < list.len() ==> keep(#[trigger] list[i]),
    ensures
        list.filter(keep) == list,
    decreases list.len(),
{
    reveal(Seq::filter);
    if list.len() > 0 {
        assert forall|i: int| 0 <= i < list.len() - 1 implies keep(
            #[trigger] list.drop_last()[i],
        ) by {
            assert(list.drop_last()[i] == list[i]);
        }
        lemma_filter_keeps_all(list.drop_last(), keep);
        assert(list.drop_last().push(list.last()) == list);
    }
}

/// A list with one more element, put in front of those at the end that it must stand before.
pub open spec fn put<A>(list: Seq<A>, x: A, first: spec_fn(A, A) -> bool) -> Seq<A>
    decreases list.len(),
{
    if list.len() > 0 && first(x, list.last()) {
        put(list.drop_last(), x, first).push(list.last())
    } else {
        list.push(x)
    }
}

/// The elements of a list in order. `first` says which of two must stand before the other; of
/// two that may stand either way, the one that came first stays first.
pub open spec fn ordered<A>(list: Seq<A>, first: spec_fn(A, A) -> bool) -> Seq<A>
    decreases list.len(),
{
    if list.len() == 0 {
        Seq::empty()
    } else {
        put(ordered(list.drop_last(), first), list.last(), first)
    }
}

/// Whether `first` is an order: of two elements at most one must stand before the other, and to
/// be allowed to stand behind is passed on.
pub open spec fn is_order<A>(first: spec_fn(A, A) -> bool) -> bool {
    &&& forall|a: A, b: A| #[trigger] first(a, b) ==> !first(b, a)
    &&& forall|a: A, b: A, c: A|
        !(#[trigger] first(a, b)) && !(#[trigger] first(b, c)) ==> !first(a, c)
}

/// Whether no element stands behind one that it must stand before.
pub open spec fn in_order<A>(list: Seq<A>, first: spec_fn(A, A) -> bool) -> bool {
    forall|i: int, j: int|
        0 <= i < j < list.len() ==> !first(#[trigger] list[j], #[trigger] list[i])
}

/// Putting an element in keeps the others.
proof fn lemma_put_multiset<A>(list: Seq<A>, x: A, first: spec_fn(A, A) -> bool)
    ensures
        put(list, x, first).to_multiset() == list.to_multiset().insert(x),
    decreases list.len(),
{
    broadcast use vstd::seq_lib::group_to_multiset_ensures;

    if list.len() > 0 && first(x, list.last()) {
        lemma_put_multiset(list.drop_last(), x, first);
        assert(list == list.drop_last().push(list.last()));
        assert(put(list, x, first).to_multiset() =~= list.to_multiset().insert(x));
    }
}

/// Sorting keeps the elements.
pub proof fn sorting_keeps_the_elements<A>(list: Seq<A>, first: spec_fn(A, A) -> bool)
    ensures
        ordered(list, first).to_multiset() == list.to_multiset(),
    decreases list.len(),
{
    broadcast use vstd::seq_lib::group_to_multiset_ensures;

    if list.len() > 0 {
        sorting_keeps_the_elements(list.drop_last(), first);
        lemma_put_multiset(ordered(list.drop_last(), first), list.last(), first);
        assert(list == list.drop_last().push(list.last()));
    } else {
        assert(ordered(list, first) =~= list);
    }
}

/// An element of a list with one more is that one or one of the list.
proof fn lemma_put_element<A>(list: Seq<A>, x: A, first: spec_fn(A, A) -> bool, i: int)
    requires
        0 <= i < put(list, x, first).len(),
    ensures
        put(list, x, first)[i] == x || exists|k: int|
            0 <= k < list.len() && put(list, x, first)[i] == #[trigger] list[k],
    decreases list.len(),
{
    let all = put(list, x, first);
    if list.len() > 0 && first(x, list.last()) {
        let before = put(list.drop_last(), x, first);
        if i < before.len() {
            lemma_put_element(list.drop_last(), x, first, i);
            if before[i] != x {
                let k = choose|k: int|
                    0 <= k < list.drop_last().len() && before[i] == #[trigger] list.drop_last()[k];
                assert(all[i] == list[k]);
            }
        } else {
            assert(all[i] == list[list.len() - 1]);
        }
    } else if i < list.len() {
        assert(all[i] == list[i]);
    }
}

/// Putting an element in keeps a list in order.
proof fn lemma_put_in_order<A>(list: Seq<A>, x: A, first: spec_fn(A, A) -> bool)
    requires
        is_order(first),
        in_order(list, first),
    ensures
        in_order(put(list, x, first), first),
    decreases list.len(),
{
    let all = put(list, x, first);
    if list.len() > 0 && first(x, list.last()) {
        let rest = list.drop_last();
        assert forall|i: int, j: int| 0 <= i < j < rest.len() implies !first(
            #[trigger] rest[j],
            #[trigger] rest[i],
        ) by {
            assert(rest[j] == list[j] && rest[i] == list[i]);
        }
        lemma_put_in_order(rest, x, first);
        let before = put(rest, x, first);
        assert forall|i: int, j: int| 0 <= i < j < all.len() implies !first(
            #[trigger] all[j],
            #[trigger] all[i],
        ) by {
            if j < before.len() {
                assert(all[j] == before[j] && all[i] == before[i]);
            } else {
                assert(all[j] == list.last() && all[i] == before[i]);
                lemma_put_element(rest, x, first, i);
                if before[i] != x {
                    let k = choose|k: int| 0 <= k < rest.len() && before[i] == #[trigger] rest[k];
                    assert(list[k] == before[i]);
                    assert(!first(list[list.len() - 1], list[k]));
                }
            }
        }
    } else {
        assert forall|i: int, j: int| 0 <= i < j < all.len() implies !first(
            #[trigger] all[j],
            #[trigger] all[i],
        ) by {
            if j < list.len() {
                assert(all[j] == list[j] && all[i] == list[i]);
            } else {
                assert(all[j] == x && all[i] == list[i]);
                assert(!first(x, list.last()));
                if i < list.len() - 1 {
                    assert(!first(list[list.len() - 1], list[i]));
                }
            }
        }
    }
}

/// A sorted list is in order.
pub proof fn sorting_puts_in_order<A>(list: Seq<A>, first: spec_fn(A, A) -> bool)
    requires
        is_order(first),
    ensures
        in_order(ordered(list, first), first),
    decreases list.len(),
{
    if list.len() > 0 {
        sorting_puts_in_order(list.drop_last(), first);
        lemma_put_in_order(ordered(list.drop_last(), first), list.last(), first);
    }
}

/// Among elements that may stand either way, the new one comes last.
proof fn lemma_put_filter<A>(
    list: Seq<A>,
    x: A,
    first: spec_fn(A, A) -> bool,
    keep: spec_fn(A) -> bool,
)
    requires
        forall|a: A, b: A| keep(a) && keep(b) ==> !#[trigger] first(a, b),
    ensures
        put(list, x, first).filter(keep) == (if keep(x) {
            list.filter(keep).push(x)
        } else {
            list.filter(keep)
        }),
    decreases list.len(),
{
    reveal(Seq::filter);
    let all = put(list, x, first);
    if list.len() > 0 && first(x, list.last()) {
        lemma_put_filter(list.drop_last(), x, first, keep);
        assert(all.drop_last() == put(list.drop_last(), x, first));
        assert(all.last() == list.last());
    } else {
        assert(all.drop_last() == list);
    }
}

/// Elements that may stand either way stay in the order in which they came.
pub proof fn sorting_keeps_ties<A>(
    list: Seq<A>,
    first: spec_fn(A, A) -> bool,
    keep: spec_fn(A) -> bool,
)
    requires
        forall|a: A, b: A| keep(a) && keep(b) ==> !#[trigger] first(a, b),
    ensures
        ordered(list, first).filter(keep) == list.filter(keep),
    decreases list.len(),
{
    reveal(Seq::filter);
    if list.len() > 0 {
        sorting_keeps_ties(list.drop_last(), first, keep);
        lemma_put_filter(ordered(list.drop_last(), first), list.last(), first, keep);
    }
}

/// The elements at the end that a new one must stand before stay behind it.
pub proof fn lemma_put_split<A>(list: Seq<A>, x: A, first: spec_fn(A, A) -> bool, k: int)
    requires
        0 <= k <= list.len(),
        forall|i: int| k <= i < list.len() ==> first(x, #[trigger] list[i]),
        k > 0 ==> !first(x, list[k - 1]),
    ensures
        put(list, x, first) == list.insert(k, x),
    decreases list.len() - k,
{
    if k < list.len() {
        let rest = list.drop_last();
        assert(first(x, list[list.len() - 1]));
        assert forall|i: int| k <= i < rest.len() implies first(x, #[trigger] rest[i]) by {
            assert(rest[i] == list[i]);
        }
        lemma_put_split(rest, x, first, k);
        assert(rest.insert(k, x).push(list.last()) == list.insert(k, x));
    } else {
        assert(list.push(x) == list.insert(k, x));
    }
}

} // verus!
