//! Mutation: now and then a class moves to another period.

use crate::config::{AlgorithmConfig, Fraction};
use crate::datatypes::{Gene, Individual};
use crate::random::{get_random_generator, random_below, random_choice, random_ratio};
use crate::rows::{lemma_bag_push, lemma_bag_remove};
use vstd::prelude::*;

verus! {

/// The periods after the gene at `gene_index` of the period at `from` has
/// gone to the end of the period at `to`.
pub open spec fn rows_after_move(rows: Seq<Seq<Gene>>, from: int, gene_index: int, to: int) -> Seq<
    Seq<Gene>,
> {
    rows.update(from, rows[from].remove(gene_index)).update(
        to,
        rows[to].push(rows[from][gene_index]),
    )
}

/// The periods after the first `upto` periods have had their turn: a period
/// whose move is `None` gives nothing, one whose move is `Some((i, to))`
/// gives the gene at `i` to the period at `to`.
pub open spec fn rows_after_moves(
    rows: Seq<Seq<Gene>>,
    moves: Seq<Option<(usize, usize)>>,
    upto: nat,
) -> Seq<Seq<Gene>>
    decreases upto,
{
    if upto == 0 {
        rows
    } else {
        let before = rows_after_moves(rows, moves, (upto - 1) as nat);
        match moves[upto - 1] {
            None => before,
            Some((gene_index, to)) => rows_after_move(
                before,
                upto - 1,
                gene_index as int,
                to as int,
            ),
        }
    }
}

/// The move of the period at `c` is one that the probability allows and
/// that can be made when its turn comes: a period moves a gene it holds to
/// another period, and only if the probability is not zero; it stays as it
/// is only if it is empty or the probability is not one.
pub open spec fn move_fits(
    rows: Seq<Seq<Gene>>,
    moves: Seq<Option<(usize, usize)>>,
    probability: Fraction,
    c: int,
) -> bool {
    let held = rows_after_moves(rows, moves, c as nat)[c].len();
    match moves[c] {
        None => held == 0 || probability.numerator < probability.denominator,
        Some((gene_index, to)) => {
            &&& !probability.is_zero()
            &&& gene_index < held
            &&& to < rows.len()
            &&& to != c
        },
    }
}

/// There is a fitting move for every period.
pub open spec fn moves_fit(
    rows: Seq<Seq<Gene>>,
    moves: Seq<Option<(usize, usize)>>,
    probability: Fraction,
) -> bool {
    &&& moves.len() == rows.len()
    &&& forall|c: int| 0 <= c < rows.len() ==> #[trigger] move_fits(rows, moves, probability, c)
}

/// What the first periods do does not depend on the moves of the later ones.
proof fn lemma_later_moves_do_not_matter(
    rows: Seq<Seq<Gene>>,
    moves: Seq<Option<(usize, usize)>>,
    longer: Seq<Option<(usize, usize)>>,
    upto: nat,
)
    requires
        upto <= moves.len() <= longer.len(),
        forall|c: int| 0 <= c < moves.len() ==> moves[c] == longer[c],
    ensures
        rows_after_moves(rows, moves, upto) == rows_after_moves(rows, longer, upto),
    decreases upto,
{
    if upto > 0 {
        lemma_later_moves_do_not_matter(rows, moves, longer, (upto - 1) as nat);
    }
}

impl Individual {
    /// The positions of the periods whose id is not `period_id`, in order.
    pub open spec fn positions_besides(&self, period_id: i32) -> Seq<usize> {
        Seq::new(self.chromosomes@.len(), |i: int| i as usize).filter(
            |i: usize| self.chromosomes@[i as int].id != period_id,
        )
    }

    /// The positions of the periods whose id is not `period_id`, in order.
    pub fn other_periods(&self, period_id: i32) -> (others: Vec<usize>)
        ensures
            others@ == self.positions_besides(period_id),
    {
        let ghost positions = Seq::new(self.chromosomes@.len(), |i: int| i as usize);
        let ghost is_other = |i: usize| self.chromosomes@[i as int].id != period_id;
        let mut others: Vec<usize> = Vec::new();
        let count = self.chromosomes.len();
        assert(positions.take(0) =~= Seq::<usize>::empty());
        for c in 0..count
            invariant
                count == self.chromosomes@.len(),
                positions == Seq::new(self.chromosomes@.len(), |i: int| i as usize),
                is_other == |i: usize| self.chromosomes@[i as int].id != period_id,
                others@ == positions.take(c as int).filter(is_other),
        {
            proof {
                assert(positions.take(c + 1) =~= positions.take(c as int).push(c));
                positions.take(c as int).lemma_filter_push(c, is_other);
            }
            if self.chromosomes[c].id != period_id {
                others.push(c);
            }
        }
        assert(positions.take(count as int) =~= positions);
        others
    }

    /// Moves the gene at `gene_index` of the period at `from` to the end of
    /// the period at `to`.
    ///
    /// Nothing else changes, so the timetable schedules the same genes as
    /// often as before.
    pub fn move_gene(&mut self, from: usize, gene_index: usize, to: usize)
        requires
            from < old(self).chromosomes@.len(),
            to < old(self).chromosomes@.len(),
            from != to,
            gene_index < old(self).chromosomes@[from as int].genes@.len(),
        ensures
            final(self).adaptation == old(self).adaptation,
            final(self).chromosomes@.len() == old(self).chromosomes@.len(),
            forall|c: int|
                0 <= c < old(self).chromosomes@.len() ==> (#[trigger] final(self).chromosomes@[c]).id
                    == old(self).chromosomes@[c].id,
            final(self).chromosomes@[from as int].genes@ == old(self).chromosomes@[from as int].genes@.remove(
                gene_index as int,
            ),
            final(self).chromosomes@[to as int].genes@ == old(self).chromosomes@[to as int].genes@.push(
                old(self).chromosomes@[from as int].genes@[gene_index as int],
            ),
            forall|c: int|
                0 <= c < old(self).chromosomes@.len() && c != from && c != to ==> (
                #[trigger] final(self).chromosomes@[c]) == old(self).chromosomes@[c],
            final(self).rows() == rows_after_move(
                old(self).rows(),
                from as int,
                gene_index as int,
                to as int,
            ),
            final(self).gene_bag() == old(self).gene_bag(),
    {
        broadcast use vstd::multiset::group_multiset_axioms;

        let ghost before = self.rows();
        let gene = self.chromosomes[from].genes.remove(gene_index);
        let ghost between = self.rows();
        self.chromosomes[to].genes.push(gene);
        proof {
            lemma_bag_remove(before, from as int, gene_index as int);
            assert(between =~= before.update(
                from as int,
                before[from as int].remove(gene_index as int),
            ));
            lemma_bag_push(between, to as int, gene);
            assert(self.rows() =~= between.update(to as int, between[to as int].push(gene)));
            assert(self.gene_bag() =~= old(self).gene_bag());
            assert(self.rows() =~= rows_after_move(
                before,
                from as int,
                gene_index as int,
                to as int,
            ));
        }
    }
}

/// Mutates the individual.
///
/// Each period mutates on its own, with the probability
/// `config.mutation_probability`: a period that mutates and is not empty
/// gives one of its genes, drawn at random, to another period, drawn at
/// random. So the timetable is what [`rows_after_moves`] gives for some
/// fitting moves; it keeps its shape and schedules the same genes as often
/// as before; and with a probability of zero nothing changes at all.
pub fn mutate(config: &AlgorithmConfig, individual: &mut Individual)
    requires
        old(individual).has_shape(config.number_of_periods as nat),
        config.mutation_probability.is_valid(),
        config.number_of_periods == 1 ==> config.mutation_probability.is_zero() || old(
            individual,
        ).chromosomes@[0].genes@.len() == 0,
    ensures
        final(individual).has_shape(config.number_of_periods as nat),
        final(individual).adaptation == old(individual).adaptation,
        final(individual).gene_bag() == old(individual).gene_bag(),
        config.mutation_probability.is_zero() ==> *final(individual) == *old(individual),
        exists|moves: Seq<Option<(usize, usize)>>|
            {
                &&& #[trigger] moves_fit(old(individual).rows(), moves, config.mutation_probability)
                &&& final(individual).rows() == rows_after_moves(
                    old(individual).rows(),
                    moves,
                    config.number_of_periods as nat,
                )
            },
{
    let probability = config.mutation_probability;
    let periods = config.number_of_periods;
    let ghost start = individual.rows();
    let mut moves: Ghost<Seq<Option<(usize, usize)>>> = Ghost(Seq::empty());
    let mut rng = get_random_generator();
    let mut c: usize = 0;
    while c < periods
        invariant
            c <= periods,
            periods == config.number_of_periods,
            probability == config.mutation_probability,
            probability.is_valid(),
            start == old(individual).rows(),
            start.len() == periods,
            individual.has_shape(periods as nat),
            individual.adaptation == old(individual).adaptation,
            individual.gene_bag() == old(individual).gene_bag(),
            probability.is_zero() ==> *individual == *old(individual),
            periods == 1 ==> probability.is_zero() || individual.chromosomes@[0].genes@.len() == 0,
            moves@.len() == c,
            individual.rows() == rows_after_moves(start, moves@, c as nat),
            forall|i: int| 0 <= i < c ==> #[trigger] move_fits(start, moves@, probability, i),
        decreases periods - c,
    {
        let ghost earlier = moves@;
        let ghost before = individual.rows();
        let mut made: Ghost<Option<(usize, usize)>> = Ghost(None);
        let hit = random_ratio(&mut rng, probability.numerator, probability.denominator);
        if hit {
            let gene_count = individual.chromosomes[c].genes.len();
            if gene_count != 0 {
                let gene_index = random_below(&mut rng, gene_count);
                let others = individual.other_periods(c as i32);
                proof {
                    let positions = Seq::new(periods as nat, |i: int| i as usize);
                    let is_other = |i: usize| individual.chromosomes@[i as int].id != c as i32;
                    let other: int = if c == 0 {
                        1
                    } else {
                        0
                    };
                    assert(is_other(positions[other]));
                    positions.lemma_filter_contains(is_other, other);
                }
                match random_choice(&mut rng, &others) {
                    Some(target) => {
                        proof {
                            let positions = Seq::new(periods as nat, |i: int| i as usize);
                            let is_other = |i: usize|
                                individual.chromosomes@[i as int].id != c as i32;
                            positions.lemma_filter_contains_rev(is_other, target);
                            let at = others@.index_of(target);
                            positions.lemma_filter_pred(is_other, at);
                        }
                        individual.move_gene(c, gene_index, target);
                        made = Ghost(Some((gene_index, target)));
                    },
                    None => {
                        proof {
                            let positions = Seq::new(periods as nat, |i: int| i as usize);
                            let is_other = |i: usize|
                                individual.chromosomes@[i as int].id != c as i32;
                            assert(positions.filter(is_other).len() > 0);
                        }
                    },
                }
            }
        }
        moves = Ghost(earlier.push(made@));
        proof {
            lemma_later_moves_do_not_matter(start, earlier, moves@, c as nat);
            assert(rows_after_moves(start, moves@, c as nat) == before);
            assert(before[c as int].len() > 0 && hit ==> made@.is_some());
            assert(move_fits(start, moves@, probability, c as int));
            assert forall|i: int| 0 <= i < c + 1 implies #[trigger] move_fits(
                start,
                moves@,
                probability,
                i,
            ) by {
                lemma_later_moves_do_not_matter(start, earlier, moves@, i as nat);
                if i < c {
                    assert(move_fits(start, earlier, probability, i));
                }
            }
        }
        c = c + 1;
    }
    proof {
        assert(moves_fit(start, moves@, probability));
    }
}

} // verus!
