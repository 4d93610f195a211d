//! Rankings: putting the entrants of a contest in order, so that the order
//! depends on nothing but the contest.
//!
//! Entrants are known by their positions `0, 1, ..` in some list. A contest
//! says which of two entrants is better on merit; where merit does not
//! decide, the entrant that stands earlier in the list goes first. So every
//! contest has exactly one ranking.
use vstd::prelude::*;

verus! {

/// A list whose entries can be compared on merit.
pub trait Contest {
    /// The number of entrants.
    spec fn entrants(&self) -> usize;

    /// Whether entrant `a` is better than entrant `b` on merit.
    spec fn beats(&self, a: int, b: int) -> bool;

    /// The number of entrants.
    fn size(&self) -> (n: usize)
        ensures
            n == self.entrants(),
    ;

    /// Whether entrant `a` is better than entrant `b` on merit.
    fn decide(&self, a: usize, b: usize) -> (better: bool)
        requires
            a < self.entrants(),
            b < self.entrants(),
        ensures
            better == self.beats(a as int, b as int),
    ;

    /// Merit never puts two entrants each before the other.
    proof fn beats_is_asymmetric(&self, a: int, b: int)
        requires
            0 <= a < self.entrants(),
            0 <= b < self.entrants(),
            self.beats(a, b),
        ensures
            !self.beats(b, a),
    ;

    /// Whoever beats an entrant beats every third one that this entrant does
    /// not lose to.
    proof fn beats_is_negatively_transitive(&self, a: int, b: int, c: int)
        requires
            0 <= a < self.entrants(),
            0 <= b < self.entrants(),
            0 <= c < self.entrants(),
            self.beats(a, b),
        ensures
            self.beats(a, c) || self.beats(c, b),
    ;
}

/// Whether entrant `a` goes before entrant `b`: on merit, or, where merit
/// does not decide between them, because `a` stands earlier in the list.
pub open spec fn outranks<C: Contest>(contest: &C, a: int, b: int) -> bool {
    contest.beats(a, b) || (!contest.beats(b, a) && a < b)
}

/// Whether `entrant` stands somewhere in `order`.
pub open spec fn has_place(order: Seq<usize>, entrant: int) -> bool {
    exists|place: int| 0 <= place < order.len() && #[trigger] order[place] == entrant
}

/// Whether `order` names each of the first `count` entrants of the contest,
/// and no others, each before all those that it outranks.
pub open spec fn ranks_first<C: Contest>(contest: &C, order: Seq<usize>, count: int) -> bool {
    &&& order.len() == count
    &&& forall|place: int| 0 <= place < order.len() ==> #[trigger] order[place] < count
    &&& forall|entrant: int| 0 <= entrant < count ==> #[trigger] has_place(order, entrant)
    &&& forall|first: int, second: int|
        0 <= first < second < order.len() ==> outranks(
            contest,
            #[trigger] order[first] as int,
            #[trigger] order[second] as int,
        )
}

/// Whether `order` names every entrant of the contest, each before all those
/// that it outranks.
pub open spec fn is_ranking<C: Contest>(contest: &C, order: Seq<usize>) -> bool {
    ranks_first(contest, order, contest.entrants() as int)
}

/// The ranking of a contest.
pub open spec fn ranking_of<C: Contest>(contest: &C) -> Seq<usize> {
    choose|order: Seq<usize>| is_ranking(contest, order)
}

/// Of two different entrants one outranks the other, and never both.
pub proof fn lemma_outranks_is_strict<C: Contest>(contest: &C, a: int, b: int)
    requires
        0 <= a < contest.entrants(),
        0 <= b < contest.entrants(),
    ensures
        outranks(contest, a, b) ==> !outranks(contest, b, a),
        a != b ==> outranks(contest, a, b) || outranks(contest, b, a),
        !outranks(contest, a, a),
{
    if contest.beats(a, b) {
        contest.beats_is_asymmetric(a, b);
    }
    if contest.beats(b, a) {
        contest.beats_is_asymmetric(b, a);
    }
    if contest.beats(a, a) {
        contest.beats_is_asymmetric(a, a);
    }
}

/// Two rankings of one contest agree at every place up to `place`.
proof fn lemma_rankings_agree_at<C: Contest>(
    contest: &C,
    x: Seq<usize>,
    y: Seq<usize>,
    place: int,
)
    requires
        is_ranking(contest, x),
        is_ranking(contest, y),
        0 <= place < x.len(),
    ensures
        x[place] == y[place],
    decreases place,
{
    assert forall|earlier: int| 0 <= earlier < place implies x[earlier] == y[earlier] by {
        lemma_rankings_agree_at(contest, x, y, earlier);
    }
    let a = x[place] as int;
    let b = y[place] as int;
    if a != b {
        // `a` has a place in `y`, and it can only be a later one
        assert(has_place(y, a) && has_place(x, b));
        let a_in_y = choose|p: int| 0 <= p < y.len() && y[p] == a;
        if a_in_y < place {
            assert(x[a_in_y] == y[a_in_y]);
            assert(outranks(contest, x[a_in_y] as int, x[place] as int));
            lemma_outranks_is_strict(contest, a, a);
        }
        assert(outranks(contest, y[place] as int, y[a_in_y] as int));
        // and so has `b` in `x`
        let b_in_x = choose|p: int| 0 <= p < x.len() && x[p] == b;
        if b_in_x < place {
            assert(x[b_in_x] == y[b_in_x]);
            assert(outranks(contest, y[b_in_x] as int, y[place] as int));
            lemma_outranks_is_strict(contest, b, b);
        }
        assert(outranks(contest, x[place] as int, x[b_in_x] as int));
        lemma_outranks_is_strict(contest, a, b);
    }
}

/// A contest has one ranking only: whatever puts its entrants in order by
/// these rules arrives at the same order, however often it is done.
pub proof fn lemma_ranking_is_unique<C: Contest>(contest: &C, x: Seq<usize>, y: Seq<usize>)
    requires
        is_ranking(contest, x),
        is_ranking(contest, y),
    ensures
        x == y,
{
    assert forall|place: int| 0 <= place < x.len() implies x[place] == y[place] by {
        lemma_rankings_agree_at(contest, x, y, place);
    }
    assert(x =~= y);
}

/// No entrant has two places in a ranking.
pub proof fn lemma_ranking_has_no_repeats<C: Contest>(
    contest: &C,
    order: Seq<usize>,
    first: int,
    second: int,
)
    requires
        is_ranking(contest, order),
        0 <= first < second < order.len(),
    ensures
        order[first] != order[second],
{
    assert(outranks(contest, order[first] as int, order[second] as int));
    lemma_outranks_is_strict(contest, order[first] as int, order[first] as int);
}

/// The next entrant joins a ranking of those before it: it goes in front of
/// the first one that it beats, or to the end where it beats none.
proof fn lemma_newcomer_joins<C: Contest>(contest: &C, before: Seq<usize>, at: int)
    requires
        ranks_first(contest, before, before.len() as int),
        before.len() < contest.entrants(),
        0 <= at <= before.len(),
        forall|place: int|
            0 <= place < at ==> !contest.beats(
                before.len() as int,
                #[trigger] before[place] as int,
            ),
        at < before.len() ==> contest.beats(before.len() as int, before[at] as int),
    ensures
        ranks_first(contest, before.insert(at, before.len() as usize), (before.len() + 1) as int),
{
    let newcomer = before.len() as int;
    let after = before.insert(at, newcomer as usize);
    assert forall|place: int| at <= place < before.len() implies contest.beats(
        newcomer,
        #[trigger] before[place] as int,
    ) by {
        if place > at {
            let beaten = before[at] as int;
            let later = before[place] as int;
            assert(outranks(contest, beaten, later));
            contest.beats_is_negatively_transitive(newcomer, beaten, later);
            if contest.beats(later, beaten) {
                contest.beats_is_asymmetric(later, beaten);
            }
        }
    }
    assert forall|entrant: int| 0 <= entrant < newcomer + 1 implies #[trigger] has_place(
        after,
        entrant,
    ) by {
        if entrant == newcomer {
            assert(after[at] == entrant);
        } else {
            assert(has_place(before, entrant));
            let old_place = choose|place: int|
                0 <= place < before.len() && before[place] == entrant;
            if old_place < at {
                assert(after[old_place] == entrant);
            } else {
                assert(after[old_place + 1] == entrant);
            }
        }
    }
    assert forall|first: int, second: int| 0 <= first < second < after.len() implies outranks(
        contest,
        #[trigger] after[first] as int,
        #[trigger] after[second] as int,
    ) by {
        if second == at {
            assert(after[first] == before[first]);
        } else if first == at {
            assert(after[second] == before[second - 1]);
        } else {
            let old_first = if first < at {
                first
            } else {
                first - 1
            };
            let old_second = if second < at {
                second
            } else {
                second - 1
            };
            assert(after[first] == before[old_first]);
            assert(after[second] == before[old_second]);
        }
    }
}

/// Where the next entrant joins a ranking of those before it, looking from
/// place `from` on.
proof fn lemma_newcomer_has_a_place<C: Contest>(contest: &C, before: Seq<usize>, from: int) -> (at:
    int)
    requires
        0 <= from <= before.len(),
        forall|place: int|
            0 <= place < from ==> !contest.beats(
                before.len() as int,
                #[trigger] before[place] as int,
            ),
    ensures
        from <= at <= before.len(),
        forall|place: int|
            0 <= place < at ==> !contest.beats(
                before.len() as int,
                #[trigger] before[place] as int,
            ),
        at < before.len() ==> contest.beats(before.len() as int, before[at] as int),
    decreases before.len() - from,
{
    if from == before.len() || contest.beats(before.len() as int, before[from] as int) {
        from
    } else {
        lemma_newcomer_has_a_place(contest, before, from + 1)
    }
}

/// The first `count` entrants of a contest can be ranked.
proof fn lemma_first_can_be_ranked<C: Contest>(contest: &C, count: nat) -> (order: Seq<usize>)
    requires
        count <= contest.entrants(),
    ensures
        ranks_first(contest, order, count as int),
    decreases count,
{
    if count == 0 {
        Seq::empty()
    } else {
        let before = lemma_first_can_be_ranked(contest, (count - 1) as nat);
        let at = lemma_newcomer_has_a_place(contest, before, 0);
        lemma_newcomer_joins(contest, before, at);
        before.insert(at, before.len() as usize)
    }
}

/// Every contest has a ranking, and `ranking_of` names it.
pub proof fn lemma_ranking_exists<C: Contest>(contest: &C)
    ensures
        is_ranking(contest, ranking_of(contest)),
{
    let order = lemma_first_can_be_ranked(contest, contest.entrants() as nat);
    assert(is_ranking(contest, order));
}

/// Puts the entrants of a contest in order: the better on merit first, and
/// of two that merit does not part, the one that stands earlier in the list.
pub fn rank<C: Contest>(contest: &C) -> (order: Vec<usize>)
    ensures
        is_ranking(contest, order@),
        order@ == ranking_of(contest),
{
    let n: usize = contest.size();
    let mut order: Vec<usize> = Vec::new();
    let mut entrant: usize = 0;
    while entrant < n
        invariant
            entrant <= n,
            n == contest.entrants(),
            ranks_first(contest, order@, entrant as int),
        decreases n - entrant,
    {
        let mut at: usize = 0;
        while at < order.len() && !contest.decide(entrant, order[at])
            invariant
                at <= order.len(),
                entrant < n,
                n == contest.entrants(),
                ranks_first(contest, order@, entrant as int),
                forall|place: int|
                    0 <= place < at ==> !contest.beats(
                        entrant as int,
                        #[trigger] order[place] as int,
                    ),
            decreases order.len() - at,
        {
            at += 1;
        }
        proof {
            lemma_newcomer_joins(contest, order@, at as int);
        }
        order.insert(at, entrant);
        entrant += 1;
    }
    proof {
        lemma_ranking_exists(contest);
        lemma_ranking_is_unique(contest, order@, ranking_of(contest));
    }
    order
}

} // verus!
