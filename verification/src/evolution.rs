//! One generation after the other: what the generational loop decides.
//!
//! The loop itself moves data between the workers and is not part of the
//! library. It asks the library how large the population must be, breeds
//! each offspring with [`offspring`], and closes every generation with
//! [`close_generation`], which ranks the population and says whether to stop.

use crate::config::AlgorithmConfig;
use crate::crossover::{crossover, is_offspring};
use crate::datatypes::{
    population_has_shape, population_is_complete, Gene, Individual, Population, Tuple,
};
use crate::fitness::{
    checked_fitness, covers, fitness_of, knows, lemma_fitness_in_range, FitnessError, PENALTY_LIMIT,
};
use crate::mutation::mutate;
use crate::rows::lemma_flatten_contains;
use crate::selection::{adaptations, by_adaptation_descending, is_ranking, ranks_before};
use vstd::prelude::*;

verus! {

/// The least multiple of `workers` that is not below `population_size`.
pub open spec fn rounded_up(population_size: int, workers: int) -> int {
    if population_size % workers == 0 {
        population_size
    } else {
        population_size + workers - population_size % workers
    }
}

/// If the population size is not divisible by the number of workers,
/// increases it to the next size that is.
pub fn adapt_population_size_to_worker_number(population_size: usize, workers: usize) -> (adapted:
    usize)
    requires
        workers > 0,
        rounded_up(population_size as int, workers as int) <= usize::MAX,
    ensures
        adapted == rounded_up(population_size as int, workers as int),
        adapted % workers == 0,
        population_size <= adapted < population_size + workers,
{
    let rest = population_size % workers;
    proof {
        lemma_rounded_up_is_multiple(population_size as int, workers as int);
    }
    if rest != 0 {
        population_size + (workers - rest)
    } else {
        population_size
    }
}

/// The rounded size is a multiple of the number of workers, is not below the
/// size, and is less than one more share above it.
pub proof fn lemma_rounded_up_is_multiple(population_size: int, workers: int)
    requires
        0 <= population_size,
        0 < workers,
    ensures
        rounded_up(population_size, workers) % workers == 0,
        population_size <= rounded_up(population_size, workers) < population_size + workers,
{
    let rest = population_size % workers;
    if rest != 0 {
        vstd::arithmetic::div_mod::lemma_fundamental_div_mod(population_size, workers);
        let quotient = population_size / workers;
        assert(population_size + workers - rest == workers * (quotient + 1)) by (nonlinear_arith)
            requires
                population_size == workers * quotient + rest,
        ;
        vstd::arithmetic::div_mod::lemma_mod_multiples_basic(quotient + 1, workers);
        assert(workers * (quotient + 1) == (quotient + 1) * workers) by (nonlinear_arith);
    }
}

/// The population in the order that `order` gives: first the individual at
/// position `order[0]`, then the one at `order[1]`, and so on.
pub open spec fn ranked(population: Seq<Individual>, order: Seq<usize>) -> Seq<Individual> {
    order.map_values(|position: usize| population[position as int])
}

/// Sorts the population from the best adaptation down.
///
/// Calls the slice's `sort_by` of std with [`by_adaptation_descending`] as
/// the comparator. Std documents a stable sort in place: afterwards the
/// population holds its individuals in the order of their ranking.
#[verifier::external_body]
fn sort_population(population: &mut Population)
    ensures
        exists|order: Seq<usize>|
            {
                &&& #[trigger] is_ranking(order, adaptations(old(population)@))
                &&& final(population)@ == ranked(old(population)@, order)
            },
{
    population.sort_by(|a, b| by_adaptation_descending(a, b));
}

/// Closes a generation: ranks the population from the best adaptation down
/// and says whether the run is over.
///
/// `generation` counts the generations that were closed before this one. The
/// run is over when this was the last of `config.max_generations`
/// generations, or when the best individual has no conflict left.
pub fn close_generation(
    config: &AlgorithmConfig,
    generation: usize,
    population: &mut Population,
) -> (over: bool)
    ensures
        exists|order: Seq<usize>|
            {
                &&& #[trigger] is_ranking(order, adaptations(old(population)@))
                &&& final(population)@ == ranked(old(population)@, order)
            },
        forall|i: int|
            0 <= i < final(population)@.len() ==> final(population)@[0].adaptation >= (
            #[trigger] final(population)@[i]).adaptation,
        over == (generation + 1 >= config.max_generations || (final(population)@.len() > 0
            && final(population)@[0].adaptation == 0)),
{
    sort_population(population);
    proof {
        let scores = adaptations(old(population)@);
        let order = choose|order: Seq<usize>|
            {
                &&& #[trigger] is_ranking(order, scores)
                &&& population@ == ranked(old(population)@, order)
            };
        assert forall|i: int| 0 <= i < population@.len() implies population@[0].adaptation >= (
        #[trigger] population@[i]).adaptation by {
            if i > 0 {
                assert(ranks_before(scores, order[0] as int, order[i] as int));
            }
        }
    }
    let last = config.max_generations == 0 || generation >= config.max_generations - 1;
    let solved = population.len() > 0 && population[0].adaptation == 0;
    last || solved
}

/// What holds of a timetable bred from the population and rated under the
/// catalog: it has the shape of its parents, schedules no gene twice, and
/// its adaptation is what its conflicts cost.
pub open spec fn is_rated_offspring(
    child: Individual,
    population: Seq<Individual>,
    tuples: Seq<Tuple>,
    periods: nat,
) -> bool {
    &&& child.has_shape(periods)
    &&& child.is_duplicate_free()
    &&& child.adaptation == fitness_of(child, tuples)
    &&& forall|universe: Set<Gene>|
        population_is_complete(population, universe) ==> #[trigger] child.is_complete(universe)
}

/// The first period of every member of the population is empty.
pub open spec fn first_periods_are_empty(population: Seq<Individual>) -> bool {
    forall|i: int|
        0 <= i < population.len() ==> (#[trigger] population[i]).chromosomes@[0].genes@.len() == 0
}

/// The catalog has an entry for every gene of every member of the population.
pub open spec fn population_is_covered(population: Seq<Individual>, tuples: Seq<Tuple>) -> bool {
    forall|i: int| 0 <= i < population.len() ==> covers(tuples, #[trigger] population[i])
}

/// Some member of the population schedules the gene.
pub open spec fn population_has_gene(population: Seq<Individual>, gene: Gene) -> bool {
    exists|i: int| 0 <= i < population.len() && (#[trigger] population[i]).has_gene(gene)
}

/// Breeds one member of the next generation: crosses the parents at two
/// different positions of the ranking, repairs and mutates the child, and
/// rates it.
///
/// Whatever is drawn on the way, a child that could be rated is a rated
/// offspring in the sense of [`is_rated_offspring`]. A child is turned away
/// for an unknown gene only if some member of the population schedules a
/// gene that the catalog does not know. Where the catalog knows every gene
/// of the population, and 40 times the square of its size does not exceed
/// 2^31, the child is rated.
pub fn offspring(
    config: &AlgorithmConfig,
    population: &Population,
    tuples: &Vec<Tuple>,
    first: usize,
    second: usize,
) -> (bred: Result<Individual, FitnessError>)
    requires
        population@.len() > 1,
        first < population@.len(),
        second < population@.len(),
        first != second,
        population_has_shape(population@, config.number_of_periods as nat),
        config.mutation_probability.is_valid(),
        config.number_of_periods == 1 ==> config.mutation_probability.is_zero()
            || first_periods_are_empty(population@),
    ensures
        bred.is_ok() ==> is_rated_offspring(
            bred.unwrap(),
            population@,
            tuples@,
            config.number_of_periods as nat,
        ),
        forall|gene: Gene|
            bred == Err::<Individual, FitnessError>(FitnessError::UnknownGene(gene)) ==> !knows(
                tuples@,
                gene,
            ) && population_has_gene(population@, gene),
        population_is_covered(population@, tuples@) ==> !(bred matches Err(
            FitnessError::UnknownGene(_),
        )),
        population_is_covered(population@, tuples@) && 40 * tuples@.len() * tuples@.len()
            <= PENALTY_LIMIT ==> bred.is_ok(),
{
    let mut child = crossover(config, population, first, second);
    let ghost crossed = child;
    let ghost order = choose|order: Seq<usize>|
        {
            &&& #[trigger] is_ranking(order, adaptations(population@))
            &&& order[first as int] != order[second as int]
            &&& is_offspring(
                crossed,
                population@[order[first as int] as int],
                population@[order[second as int] as int],
                config.number_of_periods as nat,
            )
        };
    let ghost mother = population@[order[first as int] as int];
    let ghost father = population@[order[second as int] as int];
    proof {
        if config.number_of_periods == 1 && !config.mutation_probability.is_zero() {
            assert(child.rows()[0].len() == 0) by {
                if child.rows()[0].len() > 0 {
                    let gene = child.rows()[0][0];
                    assert(child.rows()[0].contains(gene));
                    lemma_flatten_contains(child.rows(), gene);
                    assert(child.has_gene(gene));
                    lemma_no_gene_without_periods(mother, gene);
                    lemma_no_gene_without_periods(father, gene);
                }
            }
        }
    }
    mutate(config, &mut child);
    let ghost mutated = child;
    proof {
        if population_is_covered(population@, tuples@) {
            assert(covers(tuples@, mother));
            assert(covers(tuples@, father));
            assert forall|gene: Gene| #[trigger] mutated.has_gene(gene) implies knows(
                tuples@,
                gene,
            ) by {
                assert(crossed.has_gene(gene));
                assert(mother.has_gene(gene) || father.has_gene(gene));
            }
            assert(mutated.is_duplicate_free()) by {
                assert(crossed.is_duplicate_free());
            }
            if 40 * tuples@.len() * tuples@.len() <= PENALTY_LIMIT {
                lemma_fitness_in_range(mutated, tuples@);
            }
        }
    }
    match checked_fitness(&child, tuples) {
        Ok(fitness) => {
            let rated = Individual { adaptation: fitness, chromosomes: child.chromosomes };
            proof {
                assert(rated.rows() =~= mutated.rows());
                assert(rated.gene_bag() == crossed.gene_bag());
                assert forall|universe: Set<Gene>|
                    population_is_complete(population@, universe) implies #[trigger] rated.is_complete(
                    universe,
                ) by {
                    assert(crossed.is_complete(universe));
                }
            }
            Ok(rated)
        },
        Err(error) => {
            proof {
                if error is UnknownGene {
                    let gene = error->UnknownGene_0;
                    assert(mutated.has_gene(gene));
                    assert(crossed.has_gene(gene));
                    assert(mother.has_gene(gene) || father.has_gene(gene));
                    if population_is_covered(population@, tuples@) {
                        assert(covers(tuples@, mother));
                        assert(covers(tuples@, father));
                    }
                }
            }
            Err(error)
        },
    }
}

/// A timetable whose only period is empty holds no gene.
proof fn lemma_no_gene_without_periods(individual: Individual, gene: Gene)
    requires
        individual.chromosomes@.len() == 1,
        individual.chromosomes@[0].genes@.len() == 0,
    ensures
        !individual.has_gene(gene),
{
    lemma_flatten_contains(individual.rows(), gene);
    assert forall|c: int| 0 <= c < individual.rows().len() implies !(
    #[trigger] individual.rows()[c]).contains(gene) by {
        assert(c == 0);
    }
}

} // verus!
