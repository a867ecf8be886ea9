//! Facts about sequences.
use vstd::multiset::*;
use vstd::prelude::*;
use vstd::seq_lib::*;

verus! {

/// Putting an element into a sequence adds it to what the sequence holds.
pub proof fn lemma_insert_multiset<A>(items: Seq<A>, at: int, item: A)
    requires
        0 <= at <= items.len(),
    ensures
        items.insert(at, item).to_multiset() == items.to_multiset().insert(item),
{
    let head = items.take(at);
    let tail = items.skip(at);
    assert(items == head + tail);
    assert(items.insert(at, item) == head.push(item) + tail);
    lemma_multiset_commutative(head, tail);
    lemma_multiset_commutative(head.push(item), tail);
    head.to_multiset_ensures();
    assert(items.insert(at, item).to_multiset() =~= items.to_multiset().insert(item));
}

/// Sequences that hold the same are as long as each other and contain the same.
pub proof fn lemma_same_contents<A>(one: Seq<A>, other: Seq<A>)
    requires
        one.to_multiset() == other.to_multiset(),
    ensures
        one.len() == other.len(),
        forall|item: A| #[trigger] one.contains(item) == other.contains(item),
        forall|item: A| #[trigger] other.contains(item) == one.contains(item),
{
    one.to_multiset_ensures();
    other.to_multiset_ensures();
    assert forall|item: A| #[trigger] one.contains(item) == other.contains(item) by {
        to_multiset_contains(one, item);
        to_multiset_contains(other, item);
    }
}

/// What sequences that hold the same are mapped to holds the same.
pub proof fn lemma_map_multiset<A, B>(one: Seq<A>, other: Seq<A>, f: spec_fn(A) -> B)
    requires
        one.to_multiset() == other.to_multiset(),
    ensures
        one.map_values(f).to_multiset() == other.map_values(f).to_multiset(),
    decreases one.len(),
{
    one.to_multiset_ensures();
    other.to_multiset_ensures();
    if one.len() == 0 {
        assert(other.len() == 0);
        assert(one == other);
    } else {
        let item = one.last();
        assert(one.to_multiset().contains(item)) by {
            assert(one.contains(item));
        }
        assert(other.contains(item));
        let at = other.index_of(item);
        let rest = other.remove(at);
        assert(one == one.drop_last().push(item));
        assert(other == rest.insert(at, item));
        lemma_insert_multiset(rest, at, item);
        lemma_insert_multiset(one.drop_last(), one.len() - 1, item);
        assert(one == one.drop_last().insert(one.len() - 1, item));
        assert(one.drop_last().to_multiset() =~= rest.to_multiset()) by {
            assert(one.to_multiset().remove(item) =~= one.drop_last().to_multiset());
            assert(other.to_multiset().remove(item) =~= rest.to_multiset());
        }
        lemma_map_multiset(one.drop_last(), rest, f);
        lemma_insert_multiset(rest.map_values(f), at, f(item));
        lemma_insert_multiset(one.drop_last().map_values(f), one.len() - 1, f(item));
        assert(one.map_values(f) =~= one.drop_last().map_values(f).insert(one.len() - 1, f(item)));
        assert(other.map_values(f) =~= rest.map_values(f).insert(at, f(item)));
    }
}

/// What is left of a sequence is what of it is wanted.
pub proof fn lemma_filter_contents<A>(items: Seq<A>, keep: spec_fn(A) -> bool)
    ensures
        forall|item: A| #[trigger]
            items.filter(keep).contains(item) <==> items.contains(item) && keep(item),
    decreases items.len(),
{
    reveal(Seq::filter);
    if items.len() > 0 {
        let before = items.drop_last();
        let last = items.last();
        lemma_filter_contents(before, keep);
        assert(items == before.push(last));
        before.lemma_filter_push(last, keep);
        let kept = before.filter(keep);
        assert forall|item: A| #[trigger]
            items.filter(keep).contains(item) <==> items.contains(item) && keep(item) by {
            lemma_push_contents(before, last, item);
            lemma_push_contents(kept, last, item);
            assert(kept.contains(item) <==> before.contains(item) && keep(item));
        }
    }
}

/// A sequence with one more item contains that and what it contained.
proof fn lemma_push_contents<A>(items: Seq<A>, last: A, item: A)
    ensures
        items.push(last).contains(item) <==> items.contains(item) || item == last,
{
    if items.contains(item) {
        let at = items.index_of(item);
        assert(items.push(last)[at] == item);
    }
    if item == last {
        assert(items.push(last)[items.len() as int] == item);
    }
    if items.push(last).contains(item) && item != last {
        let at = items.push(last).index_of(item);
        assert(items[at] == item);
    }
}

/// What holds of any two items of a sequence, the earlier one first, holds of those that are
/// left of it.
pub proof fn lemma_filter_pairs<A>(
    items: Seq<A>,
    keep: spec_fn(A) -> bool,
    holds: spec_fn(A, A) -> bool,
)
    requires
        forall|i: int, j: int|
            0 <= i < j < items.len() ==> holds(#[trigger] items[i], #[trigger] items[j]),
    ensures
        forall|i: int, j: int|
            0 <= i < j < items.filter(keep).len() ==> holds(
                #[trigger] items.filter(keep)[i],
                #[trigger] items.filter(keep)[j],
            ),
    decreases items.len(),
{
    reveal(Seq::filter);
    if items.len() > 0 {
        let before = items.drop_last();
        let last = items.last();
        assert forall|i: int, j: int| 0 <= i < j < before.len() implies holds(
            #[trigger] before[i],
            #[trigger] before[j],
        ) by {
            assert(before[i] == items[i] && before[j] == items[j]);
        }
        lemma_filter_pairs(before, keep, holds);
        lemma_filter_contents(before, keep);
        assert(items == before.push(last));
        before.lemma_filter_push(last, keep);
        let kept = items.filter(keep);
        assert forall|i: int, j: int| 0 <= i < j < kept.len() implies holds(
            #[trigger] kept[i],
            #[trigger] kept[j],
        ) by {
            if keep(last) && j == kept.len() - 1 {
                assert(before.filter(keep)[i] == kept[i]);
                assert(before.filter(keep).contains(kept[i]));
                let at = before.index_of(kept[i]);
                assert(holds(items[at], items[items.len() - 1]));
            } else {
                assert(before.filter(keep)[i] == kept[i] && before.filter(keep)[j] == kept[j]);
            }
        }
    }
}

/// Filtering and changing the items go in either order, where the change leaves what the filter
/// looks at.
pub proof fn lemma_filter_map<A>(
    items: Seq<A>,
    keep: spec_fn(A) -> bool,
    change: spec_fn(A) -> A,
)
    requires
        forall|item: A| keep(#[trigger] change(item)) == keep(item),
    ensures
        items.map_values(change).filter(keep) == items.filter(keep).map_values(change),
    decreases items.len(),
{
    reveal(Seq::filter);
    if items.len() == 0 {
        assert(items.map_values(change).filter(keep) =~= items.filter(keep).map_values(change));
    } else {
        let before = items.drop_last();
        let last = items.last();
        lemma_filter_map(before, keep, change);
        assert(items == before.push(last));
        assert(items.map_values(change) =~= before.map_values(change).push(change(last)));
        before.lemma_filter_push(last, keep);
        before.map_values(change).lemma_filter_push(change(last), keep);
        assert(items.map_values(change).filter(keep) =~= items.filter(keep).map_values(change));
    }
}

/// Nothing is left out of a sequence all of which is wanted.
pub proof fn lemma_filter_all<A>(items: Seq<A>, keep: spec_fn(A) -> bool)
    requires
        forall|i: int| 0 <= i < items.len() ==> keep(#[trigger] items[i]),
    ensures
        items.filter(keep) == items,
    decreases items.len(),
{
    reveal(Seq::filter);
    if items.len() > 0 {
        let before = items.drop_last();
        assert forall|i: int| 0 <= i < before.len() implies keep(#[trigger] before[i]) by {
            assert(before[i] == items[i]);
        }
        lemma_filter_all(before, keep);
        assert(before.push(items.last()) == items);
        assert(keep(items[items.len() - 1]));
        before.lemma_filter_push(items.last(), keep);
    }
}

/// Nothing is left of a sequence none of which is wanted.
pub proof fn lemma_filter_none<A>(items: Seq<A>, keep: spec_fn(A) -> bool)
    requires
        forall|i: int| 0 <= i < items.len() ==> !keep(#[trigger] items[i]),
    ensures
        items.filter(keep) == Seq::<A>::empty(),
{
    lemma_filter_contents(items, keep);
    let kept = items.filter(keep);
    if kept.len() > 0 {
        assert(kept.contains(kept[0]));
        let at = items.index_of(kept[0]);
        assert(keep(items[at]));
    }
}

/// A sequence that holds the same as one in which nothing comes twice has nothing twice.
pub proof fn lemma_same_no_duplicates<A>(one: Seq<A>, other: Seq<A>)
    requires
        one.to_multiset() == other.to_multiset(),
        one.no_duplicates(),
    ensures
        other.no_duplicates(),
{
    one.lemma_multiset_has_no_duplicates();
    other.lemma_multiset_has_no_duplicates_conv();
}

/// Sequences in which nothing comes twice, and which contain the same, hold the same.
pub proof fn lemma_distinct_multisets<A>(one: Seq<A>, other: Seq<A>)
    requires
        one.no_duplicates(),
        other.no_duplicates(),
        forall|item: A| #[trigger] one.contains(item) == other.contains(item),
    ensures
        one.to_multiset() == other.to_multiset(),
{
    one.lemma_multiset_has_no_duplicates();
    other.lemma_multiset_has_no_duplicates();
    assert forall|item: A| #[trigger]
        one.to_multiset().count(item) == other.to_multiset().count(item) by {
        to_multiset_contains(one, item);
        to_multiset_contains(other, item);
        assert(one.contains(item) == other.contains(item));
    }
    assert(one.to_multiset() =~= other.to_multiset());
}

/// Sequences that hold the same in the same order, in which no two different items may each
/// stand before the other, are the same.
pub proof fn lemma_one_order<A>(one: Seq<A>, other: Seq<A>, before: spec_fn(A, A) -> bool)
    requires
        one.to_multiset() == other.to_multiset(),
        forall|i: int, j: int|
            0 <= i < j < one.len() ==> before(#[trigger] one[i], #[trigger] one[j]),
        forall|i: int, j: int|
            0 <= i < j < other.len() ==> before(#[trigger] other[i], #[trigger] other[j]),
        forall|a: A, b: A|
            #![trigger before(a, b), before(b, a)]
            one.contains(a) && one.contains(b) && before(a, b) && before(b, a) ==> a == b,
    ensures
        one == other,
    decreases one.len(),
{
    lemma_same_contents(one, other);
    if one.len() == 0 {
        assert(one =~= other);
    } else {
        let (a, b) = (one[0], other[0]);
        assert(one.contains(a) && other.contains(b));
        assert(other.contains(a) && one.contains(b));
        let (at_a, at_b) = (other.index_of(a), one.index_of(b));
        if at_a > 0 && at_b > 0 {
            assert(before(other[0], other[at_a]));
            assert(before(one[0], one[at_b]));
        }
        assert(a == b);
        let (rest, others) = (one.drop_first(), other.drop_first());
        assert(one == rest.insert(0, a));
        assert(other == others.insert(0, a));
        lemma_insert_multiset(rest, 0, a);
        lemma_insert_multiset(others, 0, a);
        assert(rest.to_multiset() =~= others.to_multiset()) by {
            assert(one.to_multiset().remove(a) =~= rest.to_multiset());
            assert(other.to_multiset().remove(a) =~= others.to_multiset());
        }
        assert forall|i: int, j: int| 0 <= i < j < rest.len() implies before(
            #[trigger] rest[i],
            #[trigger] rest[j],
        ) by {
            assert(before(one[i + 1], one[j + 1]));
        }
        assert forall|i: int, j: int| 0 <= i < j < others.len() implies before(
            #[trigger] others[i],
            #[trigger] others[j],
        ) by {
            assert(before(other[i + 1], other[j + 1]));
        }
        assert forall|x: A, y: A|
            #![trigger before(x, y), before(y, x)]
            rest.contains(x) && rest.contains(y) && before(x, y) && before(y, x) implies x == y by {
            let (at_x, at_y) = (rest.index_of(x), rest.index_of(y));
            assert(one[at_x + 1] == x && one[at_y + 1] == y);
        }
        lemma_one_order(rest, others, before);
    }
}

} // verus!
