//! Rank-based selection of a pair of parents.
//!
//! The population is ranked from the best adaptation down. Two positions of
//! that ranking are drawn, the second one again and again until it differs
//! from the first, and the individuals at the two positions are the parents.
//! The draws themselves come from outside, where the positions are weighted
//! so that the chance of a position falls with its rank: [`ParentDraw`]
//! decides what to do with each draw, and [`rand_parents`] turns two
//! accepted positions into the pair.

use crate::datatypes::{Individual, Population};
use itertools::Itertools;
use std::cmp::Ordering;
use vstd::prelude::*;
use vstd::seq_lib::seq_to_set_is_finite;
use vstd::set_lib::{lemma_int_range, lemma_subset_equality, set_int_range};

verus! {

/// The adaptation of each individual, in the order of the population.
pub open spec fn adaptations(population: Seq<Individual>) -> Seq<i32> {
    population.map_values(|individual: Individual| individual.adaptation)
}

/// Position `i` comes before position `j` in the ranking of `scores`: its
/// score is higher, or the same with `i` the earlier position.
pub open spec fn ranks_before(scores: Seq<i32>, i: int, j: int) -> bool {
    scores[i] > scores[j] || (scores[i] == scores[j] && i < j)
}

/// `order` lists every position of `scores` once, from the best score down,
/// positions of equal score in the order in which they stand.
pub open spec fn is_ranking(order: Seq<usize>, scores: Seq<i32>) -> bool {
    &&& order.len() == scores.len()
    &&& forall|a: int| 0 <= a < order.len() ==> (#[trigger] order[a]) < scores.len()
    &&& forall|a: int, b: int|
        0 <= a < b < order.len() ==> ranks_before(
            scores,
            #[trigger] order[a] as int,
            #[trigger] order[b] as int,
        )
}

/// How two individuals compare when the better adapted one is to come first.
pub fn by_adaptation_descending(a: &Individual, b: &Individual) -> (order: Ordering)
    ensures
        order == Ordering::Less <==> a.adaptation > b.adaptation,
        order == Ordering::Equal <==> a.adaptation == b.adaptation,
        order == Ordering::Greater <==> a.adaptation < b.adaptation,
{
    if a.adaptation > b.adaptation {
        Ordering::Less
    } else if a.adaptation < b.adaptation {
        Ordering::Greater
    } else {
        Ordering::Equal
    }
}

/// The positions of the population, ranked from the best adaptation down.
///
/// Calls `Itertools::sorted_by` on the individuals paired with their
/// positions, comparing by [`by_adaptation_descending`], and keeps the
/// positions. The crate documents a stable sort by the comparator, which is
/// what [`is_ranking`] says.
#[verifier::external_body]
pub(crate) fn ranking(population: &Population) -> (order: Vec<usize>)
    ensures
        is_ranking(order@, adaptations(population@)),
{
    population.iter().enumerate().sorted_by(|a, b| by_adaptation_descending(a.1, b.1)).map(
        |entry| entry.0,
    ).collect()
}

/// Two positions of a ranking never name the same individual.
pub proof fn lemma_ranking_is_injective(order: Seq<usize>, scores: Seq<i32>, a: int, b: int)
    requires
        is_ranking(order, scores),
        0 <= a < order.len(),
        0 <= b < order.len(),
        a != b,
    ensures
        order[a] != order[b],
{
    if a < b {
        assert(ranks_before(scores, order[a] as int, order[b] as int));
    } else {
        assert(ranks_before(scores, order[b] as int, order[a] as int));
    }
}

/// Every position of the scores stands somewhere in a ranking of them.
pub proof fn lemma_ranking_holds_every_position(order: Seq<usize>, scores: Seq<i32>, position: int)
    requires
        is_ranking(order, scores),
        0 <= position < scores.len(),
    ensures
        exists|a: int| 0 <= a < order.len() && #[trigger] order[a] == position,
{
    let places = order.map_values(|place: usize| place as int);
    let all = set_int_range(0, scores.len() as int);
    assert forall|a: int, b: int|
        0 <= a < places.len() && 0 <= b < places.len() && a != b implies places[a] != places[b] by {
        lemma_ranking_is_injective(order, scores, a, b);
    }
    places.unique_seq_to_set();
    seq_to_set_is_finite(places);
    lemma_int_range(0, scores.len() as int);
    assert forall|place: int| places.to_set().contains(place) implies all.contains(place) by {
        let a = choose|a: int| 0 <= a < places.len() && places[a] == place;
        assert(order[a] < scores.len());
    }
    lemma_subset_equality(places.to_set(), all);
    assert(all.contains(position));
    assert(places.contains(position));
    let a = choose|a: int| 0 <= a < places.len() && places[a] == position;
    assert(order[a] == position);
}

/// Two rankings of the same scores agree at every place.
proof fn lemma_rankings_agree_at(first: Seq<usize>, second: Seq<usize>, scores: Seq<i32>, a: int)
    requires
        is_ranking(first, scores),
        is_ranking(second, scores),
        0 <= a < scores.len(),
    ensures
        first[a] == second[a],
    decreases a,
{
    assert forall|b: int| 0 <= b < a implies first[b] == second[b] by {
        lemma_rankings_agree_at(first, second, scores, b);
    }
    if first[a] != second[a] {
        lemma_ranking_holds_every_position(second, scores, first[a] as int);
        let c = choose|c: int| 0 <= c < second.len() && #[trigger] second[c] == first[a] as int;
        lemma_ranking_holds_every_position(first, scores, second[a] as int);
        let d = choose|d: int| 0 <= d < first.len() && #[trigger] first[d] == second[a] as int;
        if c < a {
            lemma_ranking_is_injective(first, scores, c, a);
        }
        if d < a {
            lemma_ranking_is_injective(second, scores, d, a);
        }
        assert(ranks_before(scores, second[a] as int, second[c] as int));
        assert(ranks_before(scores, first[a] as int, first[d] as int));
    }
}

/// The scores have one ranking only: the best score comes first, and where
/// scores are equal, the earlier position.
pub proof fn lemma_ranking_is_unique(first: Seq<usize>, second: Seq<usize>, scores: Seq<i32>)
    requires
        is_ranking(first, scores),
        is_ranking(second, scores),
    ensures
        first == second,
{
    assert forall|a: int| 0 <= a < first.len() implies first[a] == second[a] by {
        lemma_rankings_agree_at(first, second, scores, a);
    }
    assert(first =~= second);
}

/// The parents at two different positions of the ranking.
///
/// The pair holds the individuals that stand at positions `first` and
/// `second` once the population is ranked from the best adaptation down;
/// being at different positions, they are different members of the
/// population.
pub fn rand_parents<'a>(parents: &'a Population, first: usize, second: usize) -> (pair: (
    &'a Individual,
    &'a Individual,
))
    requires
        parents@.len() > 1,
        first < parents@.len(),
        second < parents@.len(),
        first != second,
    ensures
        exists|order: Seq<usize>|
            {
                &&& #[trigger] is_ranking(order, adaptations(parents@))
                &&& order[first as int] != order[second as int]
                &&& *pair.0 == parents@[order[first as int] as int]
                &&& *pair.1 == parents@[order[second as int] as int]
            },
{
    let order = ranking(parents);
    proof {
        lemma_ranking_is_injective(order@, adaptations(parents@), first as int, second as int);
    }
    (&parents[order[first]], &parents[order[second]])
}

/// Where the choice of a pair of ranking positions stands.
#[derive(Debug, Clone, Copy, PartialEq, Eq, Structural)]
pub enum ParentDraw {
    /// No position has been drawn yet.
    First,
    /// The first position is fixed; the second is still to come.
    Second { first: usize },
    /// Both positions are fixed.
    Done { first: usize, second: usize },
}

impl ParentDraw {
    /// A finished choice names two different positions.
    pub open spec fn is_valid(&self) -> bool {
        match *self {
            ParentDraw::Done { first, second } => first != second,
            _ => true,
        }
    }

    /// The state after one more draw: the first draw is kept as it comes, a
    /// later one only if it differs from the first, and a finished choice
    /// stays as it is.
    pub open spec fn after(&self, index: usize) -> ParentDraw {
        match *self {
            ParentDraw::First => ParentDraw::Second { first: index },
            ParentDraw::Second { first } => if index != first {
                ParentDraw::Done { first, second: index }
            } else {
                ParentDraw::Second { first }
            },
            ParentDraw::Done { first, second } => ParentDraw::Done { first, second },
        }
    }

    /// The state after a whole run of draws, starting from nothing drawn.
    pub open spec fn after_all(draws: Seq<usize>) -> ParentDraw
        decreases draws.len(),
    {
        if draws.len() == 0 {
            ParentDraw::First
        } else {
            Self::after_all(draws.drop_last()).after(draws.last())
        }
    }

    /// The state in which nothing has been drawn.
    pub fn start() -> (state: Self)
        ensures
            state == ParentDraw::First,
    {
        ParentDraw::First
    }

    /// Takes one more draw into account.
    pub fn offer(self, index: usize) -> (next: Self)
        ensures
            next == self.after(index),
            self.is_valid() ==> next.is_valid(),
    {
        match self {
            ParentDraw::First => ParentDraw::Second { first: index },
            ParentDraw::Second { first } => if index != first {
                ParentDraw::Done { first, second: index }
            } else {
                ParentDraw::Second { first }
            },
            ParentDraw::Done { first, second } => ParentDraw::Done { first, second },
        }
    }

    /// The two positions, once both are fixed.
    pub fn chosen(&self) -> (pair: Option<(usize, usize)>)
        ensures
            pair == match *self {
                ParentDraw::Done { first, second } => Some((first, second)),
                _ => None::<(usize, usize)>,
            },
    {
        match *self {
            ParentDraw::Done { first, second } => Some((first, second)),
            _ => None,
        }
    }

    /// Whatever is drawn, and however often, a finished choice names two
    /// different positions: the same position is never chosen twice.
    pub proof fn lemma_chosen_positions_differ(draws: Seq<usize>)
        ensures
            Self::after_all(draws).is_valid(),
        decreases draws.len(),
    {
        if draws.len() > 0 {
            Self::lemma_chosen_positions_differ(draws.drop_last());
        }
    }
}

} // verus!
