//! Tallies: how many seats, or constituencies, each party has.
use crate::party::{PartyId, PartyName};
use vstd::prelude::*;

verus! {

/// A count for each party. A party that was never credited counts zero.
///
/// A tally is seen as the list of the parties that have a count, each with
/// its count. A party that is credited for the first time goes to the end
/// of the list.
pub struct Tally {
    entries: Vec<(PartyName, usize)>,
}

/// The count that a list of entries gives a party: the sum of the entries
/// for it.
pub open spec fn count_in(entries: Seq<(PartyId, int)>, party: PartyId) -> int
    decreases entries.len(),
{
    if entries.len() == 0 {
        0
    } else {
        count_in(entries.drop_last(), party) + if entries.last().0 == party {
            entries.last().1
        } else {
            0
        }
    }
}

/// The sum of all counts in a list of entries.
pub open spec fn total_in(entries: Seq<(PartyId, int)>) -> int
    decreases entries.len(),
{
    if entries.len() == 0 {
        0
    } else {
        total_in(entries.drop_last()) + entries.last().1
    }
}

/// Whether no party has two entries.
pub open spec fn one_entry_each(entries: Seq<(PartyId, int)>) -> bool {
    forall|i: int, j: int|
        0 <= i < j < entries.len() ==> (#[trigger] entries[i]).0 != (#[trigger] entries[j]).0
}

/// Whether every entry counts at least one.
pub open spec fn all_positive(entries: Seq<(PartyId, int)>) -> bool {
    forall|i: int| 0 <= i < entries.len() ==> (#[trigger] entries[i]).1 >= 1
}

/// Whether some entry is for `party`.
pub open spec fn has_entry(entries: Seq<(PartyId, int)>, party: PartyId) -> bool {
    exists|i: int| 0 <= i < entries.len() && (#[trigger] entries[i]).0 == party
}

/// Whether `after` is `before` with one more for `party`: its entry counts
/// one more, or, where it had none, it has a new entry at the end that
/// counts one.
pub open spec fn credited(
    before: Seq<(PartyId, int)>,
    party: PartyId,
    after: Seq<(PartyId, int)>,
) -> bool {
    if has_entry(before, party) {
        exists|at: int|
            0 <= at < before.len() && (#[trigger] before[at]).0 == party && after == before.update(
                at,
                (party, before[at].1 + 1),
            )
    } else {
        after == before.push((party, 1int))
    }
}

/// One more entry adds its count to its party and to the total.
pub proof fn lemma_count_push(entries: Seq<(PartyId, int)>, entry: (PartyId, int), party: PartyId)
    ensures
        count_in(entries.push(entry), party) == count_in(entries, party) + if entry.0 == party {
            entry.1
        } else {
            0
        },
        total_in(entries.push(entry)) == total_in(entries) + entry.1,
{
    assert(entries.push(entry).drop_last() =~= entries);
}

/// A change to the count of one entry changes the count of its party, and
/// the total, by as much.
pub proof fn lemma_count_update(
    entries: Seq<(PartyId, int)>,
    at: int,
    count: int,
    party: PartyId,
)
    requires
        0 <= at < entries.len(),
    ensures
        count_in(entries.update(at, (entries[at].0, count)), party) == count_in(entries, party)
            + if entries[at].0 == party {
            count - entries[at].1
        } else {
            0
        },
        total_in(entries.update(at, (entries[at].0, count))) == total_in(entries) + count
            - entries[at].1,
    decreases entries.len(),
{
    let updated = entries.update(at, (entries[at].0, count));
    if at == entries.len() - 1 {
        assert(updated.drop_last() =~= entries.drop_last());
    } else {
        assert(updated.drop_last() =~= entries.drop_last().update(at, (entries[at].0, count)));
        lemma_count_update(entries.drop_last(), at, count, party);
    }
}

/// A party without an entry counts zero.
pub proof fn lemma_count_absent(entries: Seq<(PartyId, int)>, party: PartyId)
    requires
        !has_entry(entries, party),
    ensures
        count_in(entries, party) == 0,
    decreases entries.len(),
{
    if entries.len() > 0 {
        assert(entries.last() == entries[entries.len() - 1]);
        assert forall|i: int| 0 <= i < entries.drop_last().len() implies (
        #[trigger] entries.drop_last()[i]).0 != party by {
            assert(entries[i].0 != party);
        }
        lemma_count_absent(entries.drop_last(), party);
    }
}

/// Where no party has two entries, a party's count is that of its entry.
pub proof fn lemma_count_present(entries: Seq<(PartyId, int)>, at: int)
    requires
        one_entry_each(entries),
        0 <= at < entries.len(),
    ensures
        count_in(entries, entries[at].0) == entries[at].1,
    decreases entries.len(),
{
    let party = entries[at].0;
    let rest = entries.drop_last();
    if at == entries.len() - 1 {
        assert(!has_entry(rest, party)) by {
            if has_entry(rest, party) {
                let i = choose|i: int| 0 <= i < rest.len() && (#[trigger] rest[i]).0 == party;
                assert(entries[i].0 != entries[at].0);
            }
        }
        lemma_count_absent(rest, party);
    } else {
        assert(entries[at].0 != entries[entries.len() - 1].0);
        assert(rest[at] == entries[at]);
        lemma_count_present(rest, at);
    }
}

/// Where every entry counts at least one, no entry counts more than the
/// total.
pub proof fn lemma_count_within_total(entries: Seq<(PartyId, int)>, at: int)
    requires
        all_positive(entries),
        0 <= at < entries.len(),
    ensures
        entries[at].1 <= total_in(entries),
        total_in(entries) >= 0,
    decreases entries.len(),
{
    lemma_total_not_negative(entries.drop_last());
    if at < entries.len() - 1 {
        assert(entries.drop_last()[at] == entries[at]);
        lemma_count_within_total(entries.drop_last(), at);
    }
}

/// Where every entry counts at least one, the total is not negative.
pub proof fn lemma_total_not_negative(entries: Seq<(PartyId, int)>)
    requires
        all_positive(entries),
    ensures
        total_in(entries) >= 0,
    decreases entries.len(),
{
    if entries.len() > 0 {
        assert forall|i: int| 0 <= i < entries.drop_last().len() implies (
        #[trigger] entries.drop_last()[i]).1 >= 1 by {
            assert(entries[i].1 >= 1);
        }
        lemma_total_not_negative(entries.drop_last());
    }
}

/// Where every entry counts nothing, the total is nothing.
pub proof fn lemma_total_of_nothing(entries: Seq<(PartyId, int)>)
    requires
        forall|i: int| 0 <= i < entries.len() ==> (#[trigger] entries[i]).1 == 0,
    ensures
        total_in(entries) == 0,
    decreases entries.len(),
{
    if entries.len() > 0 {
        assert(entries.last() == entries[entries.len() - 1]);
        assert forall|i: int| 0 <= i < entries.drop_last().len() implies (
        #[trigger] entries.drop_last()[i]).1 == 0 by {
            assert(entries[i].1 == 0);
        }
        lemma_total_of_nothing(entries.drop_last());
    }
}

impl View for Tally {
    type V = Seq<(PartyId, int)>;

    closed spec fn view(&self) -> Seq<(PartyId, int)> {
        self.entries@.map_values(|entry: (PartyName, usize)| (entry.0@, entry.1 as int))
    }
}

impl Tally {
    /// The count of a party; zero for a party that was never credited.
    pub open spec fn count(&self, party: PartyId) -> int {
        count_in(self@, party)
    }

    /// The sum of the counts of all parties.
    pub open spec fn total(&self) -> int {
        total_in(self@)
    }

    /// What holds of every tally that this library makes: each party has one
    /// entry at most, each entry counts at least one, and the total is
    /// within the range of a count.
    pub open spec fn well_formed(&self) -> bool {
        &&& one_entry_each(self@)
        &&& all_positive(self@)
        &&& self.total() <= usize::MAX
    }

    /// A tally in which every party counts zero.
    pub fn new() -> (tally: Tally)
        ensures
            tally.well_formed(),
            tally@ == Seq::<(PartyId, int)>::empty(),
            tally.total() == 0,
            forall|party: PartyId| tally.count(party) == 0,
    {
        let tally = Tally { entries: Vec::new() };
        assert(tally@ =~= Seq::<(PartyId, int)>::empty());
        tally
    }

    /// The place of the entry for `party`, if it has one.
    fn position(&self, party: &PartyName) -> (found: Option<usize>)
        ensures
            match found {
                Some(at) => at < self@.len() && self@[at as int].0 == party@,
                None => !has_entry(self@, party@),
            },
    {
        let mut at: usize = 0;
        while at < self.entries.len()
            invariant
                at <= self.entries.len(),
                self@.len() == self.entries.len(),
                forall|i: int| 0 <= i < at ==> (#[trigger] self@[i]).0 != party@,
            decreases self.entries.len() - at,
        {
            if self.entries[at].0 == *party {
                return Some(at);
            }
            at += 1;
        }
        None
    }

    /// Credits `party` with one more.
    pub fn add(&mut self, party: &PartyName)
        requires
            old(self).well_formed(),
            old(self).total() < usize::MAX,
        ensures
            final(self).well_formed(),
            final(self).total() == old(self).total() + 1,
            forall|other: PartyId|
                final(self).count(other) == old(self).count(other) + if other == party@ {
                    1int
                } else {
                    0int
                },
            credited(old(self)@, party@, final(self)@),
    {
        let ghost before = self@;
        match self.position(party) {
            Some(at) => {
                let entry = self.entries.remove(at);
                proof {
                    lemma_count_within_total(before, at as int);
                }
                self.entries.insert(at, (entry.0, entry.1 + 1));
                proof {
                    let after = self@;
                    let raised = (before[at as int].0, before[at as int].1 + 1);
                    assert(after =~= before.update(at as int, raised));
                    assert forall|other: PartyId|
                        count_in(after, other) == count_in(before, other) + if other == party@ {
                            1int
                        } else {
                            0int
                        } by {
                        lemma_count_update(before, at as int, before[at as int].1 + 1, other);
                    }
                    lemma_count_update(before, at as int, before[at as int].1 + 1, party@);
                }
            },
            None => {
                self.entries.push((party.clone(), 1));
                proof {
                    let after = self@;
                    assert(after =~= before.push((party@, 1int)));
                    assert forall|other: PartyId|
                        count_in(after, other) == count_in(before, other) + if other == party@ {
                            1int
                        } else {
                            0int
                        } by {
                        lemma_count_push(before, (party@, 1int), other);
                    }
                    lemma_count_push(before, (party@, 1int), party@);
                }
            },
        }
    }

    /// The count of `party`.
    pub fn get(&self, party: &PartyName) -> (count: usize)
        requires
            self.well_formed(),
        ensures
            count == self.count(party@),
            0 <= count <= self.total(),
    {
        match self.position(party) {
            Some(at) => {
                proof {
                    lemma_count_present(self@, at as int);
                    lemma_count_within_total(self@, at as int);
                }
                self.entries[at].1
            },
            None => {
                proof {
                    lemma_count_absent(self@, party@);
                    lemma_total_not_negative(self@);
                }
                0
            },
        }
    }

    /// The parties that have a count, each with its count, as the tally
    /// lists them.
    pub fn entries(&self) -> (entries: &Vec<(PartyName, usize)>)
        ensures
            entries@.len() == self@.len(),
            forall|i: int|
                0 <= i < entries@.len() ==> (#[trigger] entries@[i]).0@ == self@[i].0
                    && entries@[i].1 == self@[i].1,
    {
        &self.entries
    }
}

/// In a well-formed tally a party has a count of one or more where it has
/// an entry, which then holds its count, and of zero where it has none.
pub proof fn lemma_tally_counts(tally: &Tally, party: PartyId)
    requires
        tally.well_formed(),
    ensures
        has_entry(tally@, party) <==> tally.count(party) >= 1,
        tally.count(party) >= 0,
        forall|at: int|
            0 <= at < tally@.len() && (#[trigger] tally@[at]).0 == party ==> tally@[at].1
                == tally.count(party),
{
    if has_entry(tally@, party) {
        let at = choose|at: int| 0 <= at < tally@.len() && (#[trigger] tally@[at]).0 == party;
        lemma_count_present(tally@, at);
        assert forall|other: int|
            0 <= other < tally@.len() && (#[trigger] tally@[other]).0
                == party implies tally@[other].1 == tally.count(party) by {
            lemma_count_present(tally@, other);
        }
    } else {
        lemma_count_absent(tally@, party);
    }
}

} // verus!
