//! Putting rows in order.
use crate::sequences::lemma_insert_multiset;
use crate::text::{
    is_no_later, lemma_no_later_antisymmetric, lemma_no_later_total, lemma_no_later_transitive,
    no_later,
};
use vstd::prelude::*;
use vstd::utf8::*;

verus! {

/// Rows that have an order.
pub trait Ranked: Sized {
    /// Whether a row may stand before another.
    spec fn may_precede(self, other: Self) -> bool;

    proof fn total(one: Self, other: Self)
        ensures
            one.may_precede(other) || other.may_precede(one),
    ;

    proof fn transitive(first: Self, second: Self, third: Self)
        requires
            first.may_precede(second),
            second.may_precede(third),
        ensures
            first.may_precede(third),
    ;

    /// Tells whether a row may stand before another.
    fn precedes(&self, other: &Self) -> (may: bool)
        ensures
            may == self.may_precede(*other),
    ;
}

/// Whether every row may stand before those that follow it.
pub open spec fn in_order<R: Ranked>(rows: Seq<R>) -> bool {
    forall|i: int, j: int| 0 <= i < j < rows.len() ==> (#[trigger] rows[i]).may_precede(#[trigger] rows[j])
}

/// What references stand for.
pub open spec fn held<R>(rows: Seq<&R>) -> Seq<R> {
    rows.map_values(|row: &R| *row)
}

/// The place at which a row keeps the order.
fn place<R: Ranked>(rows: &Vec<&R>, row: &R) -> (at: usize)
    requires
        in_order(held(rows@)),
    ensures
        at <= rows.len(),
        forall|i: int| 0 <= i < at ==> (#[trigger] held(rows@)[i]).may_precede(*row),
        forall|i: int| at <= i < rows.len() ==> !(#[trigger] held(rows@)[i]).may_precede(*row),
{
    let ghost all = held(rows@);
    let mut low: usize = 0;
    let mut high: usize = rows.len();
    while low < high
        invariant
            low <= high <= rows.len(),
            all == held(rows@),
            in_order(all),
            forall|i: int| 0 <= i < low ==> (#[trigger] all[i]).may_precede(*row),
            forall|i: int| high <= i < rows.len() ==> !(#[trigger] all[i]).may_precede(*row),
        decreases high - low,
    {
        let middle: usize = low + (high - low) / 2;
        if rows[middle].precedes(row) {
            assert forall|i: int| 0 <= i < middle + 1 implies (#[trigger] all[i]).may_precede(
                *row,
            ) by {
                if i < middle {
                    R::transitive(all[i], all[middle as int], *row);
                }
            }
            low = middle + 1;
        } else {
            assert forall|i: int| middle <= i < rows.len() implies !(
            #[trigger] all[i]).may_precede(*row) by {
                if i > middle && all[i].may_precede(*row) {
                    R::transitive(all[middle as int], all[i], *row);
                }
            }
            high = middle;
        }
    }
    low
}

/// Puts rows in order.
pub fn sort_rows<'a, R: Ranked>(rows: Vec<&'a R>) -> (ordered: Vec<&'a R>)
    ensures
        in_order(held(ordered@)),
        held(ordered@).to_multiset() == held(rows@).to_multiset(),
{
    let mut ordered: Vec<&'a R> = Vec::new();
    assert(held(rows@).take(0) == Seq::<R>::empty());
    assert(held(ordered@) == Seq::<R>::empty());
    for i in 0..rows.len()
        invariant
            in_order(held(ordered@)),
            held(ordered@).to_multiset() == held(rows@).take(i as int).to_multiset(),
    {
        let at = place(&ordered, rows[i]);
        let ghost before = held(ordered@);
        ordered.insert(at, rows[i]);
        proof {
            let row = held(rows@)[i as int];
            assert forall|j: int| at <= j < before.len() implies row.may_precede(
                #[trigger] before[j],
            ) by {
                R::total(row, before[j]);
            }
            assert(held(ordered@) =~= before.insert(at as int, row));
            lemma_insert_multiset(before, at as int, row);
            assert(held(rows@).take(i + 1) == held(rows@).take(i as int).push(row));
            held(rows@).take(i as int).to_multiset_ensures();
        }
    }
    assert(held(rows@).take(rows.len() as int) == held(rows@));
    ordered
}

/// Whether two rows may each stand before the other.
pub open spec fn same_rank<R: Ranked>(one: R, other: R) -> bool {
    one.may_precede(other) && other.may_precede(one)
}

/// Tells whether one of the rows, which are in order, has the rank of another.
pub fn ranks<R: Ranked>(ordered: &Vec<&R>, row: &R) -> (found: bool)
    requires
        in_order(held(ordered@)),
    ensures
        found == exists|i: int|
            0 <= i < ordered.len() && same_rank(#[trigger] held(ordered@)[i], *row),
{
    let at = place(ordered, row);
    let ghost all = held(ordered@);
    if at == 0 {
        return false;
    }
    let found = row.precedes(ordered[at - 1]);
    proof {
        let last = at - 1;
        if found {
            assert(same_rank(all[last], *row));
        }
        assert forall|i: int| 0 <= i < all.len() && same_rank(#[trigger] all[i], *row) implies found by {
            if i < last {
                R::transitive(*row, all[i], all[last]);
            }
        }
    }
    found
}

impl Ranked for i64 {
    open spec fn may_precede(self, other: Self) -> bool {
        self <= other
    }

    proof fn total(one: Self, other: Self) {
    }

    proof fn transitive(first: Self, second: Self, third: Self) {
    }

    fn precedes(&self, other: &Self) -> (may: bool) {
        *self <= *other
    }
}

impl Ranked for String {
    open spec fn may_precede(self, other: Self) -> bool {
        no_later(encode_utf8(self@), encode_utf8(other@))
    }

    proof fn total(one: Self, other: Self) {
        lemma_no_later_total(encode_utf8(one@), encode_utf8(other@));
    }

    proof fn transitive(first: Self, second: Self, third: Self) {
        lemma_no_later_transitive(
            encode_utf8(first@),
            encode_utf8(second@),
            encode_utf8(third@),
        );
    }

    fn precedes(&self, other: &Self) -> (may: bool) {
        is_no_later(self.as_str(), other.as_str())
    }
}

/// Texts of the same rank are the same.
pub proof fn lemma_same_text_rank(one: String, other: String)
    ensures
        same_rank(one, other) == (one@ == other@),
{
    lemma_no_later_total(encode_utf8(one@), encode_utf8(other@));
    if same_rank(one, other) {
        lemma_no_later_antisymmetric(encode_utf8(one@), encode_utf8(other@));
        encode_utf8_decode_utf8(one@);
        encode_utf8_decode_utf8(other@);
    }
}

} // verus!
