//! Seat totals in ascending order.
use vstd::prelude::*;
use vstd::relations::{sorted_by, total_ordering};
use vstd::seq_lib::{lemma_multiset_commutative, lemma_sorted_unique, to_multiset_build};

verus! {

/// The order of seat totals: the smaller comes first.
pub open spec fn seat_order() -> spec_fn(usize, usize) -> bool {
    |a: usize, b: usize| a <= b
}

/// Whether no seat total is followed by a smaller one.
pub open spec fn ascending(seats: Seq<usize>) -> bool {
    sorted_by(seats, seat_order())
}

/// The seat totals in ascending order.
pub open spec fn in_order(seats: Seq<usize>) -> Seq<usize> {
    seats.sort_by(seat_order())
}

/// The order of seat totals is a total order.
pub proof fn lemma_seat_order_is_total()
    ensures
        total_ordering(seat_order()),
{
}

/// Putting seat totals in order changes neither their number nor which
/// totals there are, and what comes out is ascending.
pub proof fn lemma_in_order(seats: Seq<usize>)
    ensures
        ascending(in_order(seats)),
        in_order(seats).to_multiset() == seats.to_multiset(),
        in_order(seats).len() == seats.len(),
{
    lemma_seat_order_is_total();
    seats.lemma_sort_by_ensures(seat_order());
    vstd::seq_lib::to_multiset_len(seats);
    vstd::seq_lib::to_multiset_len(in_order(seats));
}

/// An ascending arrangement of the same totals is the totals in order.
pub proof fn lemma_ascending_is_in_order(seats: Seq<usize>, arranged: Seq<usize>)
    requires
        ascending(arranged),
        arranged.to_multiset() == seats.to_multiset(),
    ensures
        arranged == in_order(seats),
{
    lemma_in_order(seats);
    lemma_seat_order_is_total();
    lemma_sorted_unique(arranged, in_order(seats), seat_order());
}

/// Merges two ascending lists into one.
fn merge(left: &Vec<usize>, right: &Vec<usize>) -> (merged: Vec<usize>)
    requires
        ascending(left@),
        ascending(right@),
    ensures
        ascending(merged@),
        merged@.to_multiset() == left@.to_multiset().add(right@.to_multiset()),
{
    let mut merged: Vec<usize> = Vec::new();
    let mut i: usize = 0;
    let mut j: usize = 0;
    proof {
        assert(left@.take(0) =~= Seq::<usize>::empty());
        assert(right@.take(0) =~= Seq::<usize>::empty());
        assert(merged@.to_multiset() =~= left@.take(0).to_multiset().add(
            right@.take(0).to_multiset(),
        )) by {
            broadcast use vstd::multiset::group_multiset_axioms;
            broadcast use vstd::seq_lib::group_to_multiset_ensures;

        }
    }
    while i < left.len() || j < right.len()
        invariant
            i <= left.len(),
            j <= right.len(),
            ascending(left@),
            ascending(right@),
            ascending(merged@),
            merged@.to_multiset() == left@.take(i as int).to_multiset().add(
                right@.take(j as int).to_multiset(),
            ),
            forall|k: int|
                0 <= k < merged@.len() && i < left.len() ==> #[trigger] merged@[k]
                    <= left@[i as int],
            forall|k: int|
                0 <= k < merged@.len() && j < right.len() ==> #[trigger] merged@[k]
                    <= right@[j as int],
        decreases left.len() - i + right.len() - j,
    {
        let ghost before = merged@;
        if j == right.len() || (i < left.len() && left[i] <= right[j]) {
            let next: usize = left[i];
            merged.push(next);
            proof {
                assert(left@.take(i + 1) =~= left@.take(i as int).push(next));
                to_multiset_build(before, next);
                to_multiset_build(left@.take(i as int), next);
                assert(merged@.to_multiset() =~= left@.take(i + 1).to_multiset().add(
                    right@.take(j as int).to_multiset(),
                )) by {
                    broadcast use vstd::multiset::group_multiset_axioms;

                }
                assert forall|k: int|
                    0 <= k < merged@.len() && i + 1 < left.len() implies #[trigger] merged@[k]
                    <= left@[i + 1] by {
                    assert(seat_order()(left@[i as int], left@[i + 1]));
                }
            }
            i += 1;
        } else {
            let next: usize = right[j];
            merged.push(next);
            proof {
                assert(right@.take(j + 1) =~= right@.take(j as int).push(next));
                to_multiset_build(before, next);
                to_multiset_build(right@.take(j as int), next);
                assert(merged@.to_multiset() =~= left@.take(i as int).to_multiset().add(
                    right@.take(j + 1).to_multiset(),
                )) by {
                    broadcast use vstd::multiset::group_multiset_axioms;

                }
                assert forall|k: int|
                    0 <= k < merged@.len() && j + 1 < right.len() implies #[trigger] merged@[k]
                    <= right@[j + 1] by {
                    assert(seat_order()(right@[j as int], right@[j + 1]));
                }
            }
            j += 1;
        }
    }
    proof {
        assert(left@.take(left.len() as int) =~= left@);
        assert(right@.take(right.len() as int) =~= right@);
    }
    merged
}

/// The seat totals from place `from` up to, not including, place `to`, in
/// ascending order.
fn sort_range(seats: &Vec<usize>, from: usize, to: usize) -> (sorted: Vec<usize>)
    requires
        from <= to <= seats.len(),
    ensures
        ascending(sorted@),
        sorted@.to_multiset() == seats@.subrange(from as int, to as int).to_multiset(),
    decreases to - from,
{
    if to - from == 0 {
        let sorted: Vec<usize> = Vec::new();
        assert(sorted@ =~= seats@.subrange(from as int, to as int));
        sorted
    } else if to - from == 1 {
        let mut sorted: Vec<usize> = Vec::new();
        sorted.push(seats[from]);
        assert(sorted@ =~= seats@.subrange(from as int, to as int));
        sorted
    } else {
        let middle: usize = from + (to - from) / 2;
        let left = sort_range(seats, from, middle);
        let right = sort_range(seats, middle, to);
        proof {
            assert(seats@.subrange(from as int, to as int) =~= seats@.subrange(
                from as int,
                middle as int,
            ) + seats@.subrange(middle as int, to as int));
            lemma_multiset_commutative(
                seats@.subrange(from as int, middle as int),
                seats@.subrange(middle as int, to as int),
            );
        }
        merge(&left, &right)
    }
}

/// The seat totals in ascending order.
pub fn sort_seats(seats: &Vec<usize>) -> (sorted: Vec<usize>)
    ensures
        sorted@ == in_order(seats@),
        sorted@.len() == seats@.len(),
{
    let sorted = sort_range(seats, 0, seats.len());
    proof {
        assert(seats@.subrange(0, seats.len() as int) =~= seats@);
        lemma_ascending_is_in_order(seats@, sorted@);
        lemma_in_order(seats@);
    }
    sorted
}

} // verus!
