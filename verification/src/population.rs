//! The first population: every class in a period drawn at random.

use crate::config::AlgorithmConfig;
use crate::datatypes::{
    ids_of, population_has_shape, population_is_complete, Chromosome, Gene, Individual, Population,
    Tuple, MAX_PERIODS, UNRATED,
};
use crate::placement::{assigned, random_slots, slots_fit};
use crate::random::get_random_generator;
use vstd::multiset::Multiset;
use vstd::prelude::*;

verus! {

/// The timetable is unrated, has `periods` well numbered periods, and holds
/// in each period, in order, the genes that `slots` sends there.
pub open spec fn is_placement(
    individual: Individual,
    genes: Seq<Gene>,
    slots: Seq<usize>,
    periods: nat,
) -> bool {
    &&& individual.adaptation == UNRATED
    &&& individual.has_shape(periods)
    &&& forall|c: int|
        0 <= c < periods ==> (#[trigger] individual.chromosomes@[c]).genes@ == assigned(
            genes,
            slots,
            c,
            genes.len(),
        )
}

/// The timetable is some placement of the genes into `periods` periods, and
/// schedules each of them exactly as often as it is listed.
pub open spec fn is_initial(individual: Individual, genes: Seq<Gene>, periods: nat) -> bool {
    &&& individual.gene_bag() == genes.to_multiset()
    &&& exists|slots: Seq<usize>|
        {
            &&& slots.len() == genes.len()
            &&& slots_fit(slots, periods)
            &&& #[trigger] is_placement(individual, genes, slots, periods)
        }
}

/// The ids of the catalog, entry by entry.
pub fn tuple_ids(tuples: &[Tuple]) -> (ids: Vec<Gene>)
    ensures
        ids@ == ids_of(tuples@),
{
    let count = tuples.len();
    let mut ids: Vec<Gene> = Vec::with_capacity(count);
    for k in 0..count
        invariant
            count == tuples@.len(),
            ids@ == ids_of(tuples@).take(k as int),
    {
        ids.push(tuples[k].id);
        assert(ids@ =~= ids_of(tuples@).take(k + 1));
    }
    assert(ids_of(tuples@).take(count as int) =~= ids_of(tuples@));
    ids
}

/// An unrated timetable of `periods` periods that holds each gene in the
/// period that its slot names.
pub fn create_individual(periods: usize, genes: &Vec<Gene>, slots: &Vec<usize>) -> (individual:
    Individual)
    requires
        periods <= MAX_PERIODS,
        genes@.len() == slots@.len(),
        slots_fit(slots@, periods as nat),
    ensures
        is_placement(individual, genes@, slots@, periods as nat),
        individual.gene_bag() == genes@.to_multiset(),
{
    let mut individual = Individual::new(periods);
    for period_id in 0..periods
        invariant
            periods <= MAX_PERIODS,
            individual.adaptation == UNRATED,
            individual.chromosomes@.len() == period_id,
            forall|c: int|
                0 <= c < period_id ==> {
                    &&& (#[trigger] individual.chromosomes@[c]).id == c
                    &&& individual.chromosomes@[c].genes@ == Seq::<Gene>::empty()
                },
    {
        let period = Chromosome::new(period_id as i32);
        individual.chromosomes.push(period);
    }
    proof {
        lemma_empty_periods_hold_nothing(individual.rows());
        broadcast use {
            vstd::seq_lib::group_to_multiset_ensures,
            vstd::multiset::group_multiset_axioms,
        };

        assert(individual.gene_bag() =~= Multiset::<Gene>::empty());
    }
    individual.place_genes(genes, slots);
    proof {
        broadcast use vstd::multiset::group_multiset_axioms;

        assert(individual.gene_bag() =~= genes@.to_multiset());
        assert forall|c: int| 0 <= c < periods implies (#[trigger] individual.chromosomes@[c]).genes@
            == assigned(genes@, slots@, c, genes@.len()) by {
            assert(Seq::<Gene>::empty() + assigned(genes@, slots@, c, genes@.len()) =~= assigned(
                genes@,
                slots@,
                c,
                genes@.len(),
            ));
        }
    }
    individual
}

/// Periods that are all empty hold no gene between them.
proof fn lemma_empty_periods_hold_nothing(rows: Seq<Seq<Gene>>)
    requires
        forall|c: int| 0 <= c < rows.len() ==> (#[trigger] rows[c]).len() == 0,
    ensures
        rows.flatten() == Seq::<Gene>::empty(),
    decreases rows.len(),
{
    if rows.len() > 0 {
        lemma_empty_periods_hold_nothing(rows.drop_first());
        assert(rows.first() =~= Seq::<Gene>::empty());
        assert(rows.flatten() =~= Seq::<Gene>::empty());
    }
}

/// A timetable that schedules each id of a duplicate-free list exactly as
/// often as it is listed is complete for the ids of the list.
pub proof fn lemma_initial_is_complete(individual: Individual, ids: Seq<Gene>)
    requires
        individual.gene_bag() == ids.to_multiset(),
        ids.no_duplicates(),
    ensures
        individual.is_complete(ids.to_set()),
{
    broadcast use vstd::seq_lib::group_to_multiset_ensures;

    ids.lemma_multiset_has_no_duplicates();
    assert forall|gene: Gene|
        individual.gene_bag().count(gene) == if ids.to_set().contains(gene) {
            1nat
        } else {
            0nat
        } by {
        if ids.contains(gene) {
            assert(ids.to_multiset().contains(gene));
        }
    }
}

/// Creates a first population.
///
/// The population has `config.population_size` individuals of
/// `config.number_of_periods` periods each, numbered from zero. Every class
/// of the catalog is assigned to one period of each individual, drawn at
/// random; so each individual schedules every class exactly as often as the
/// catalog lists it, and where no id is listed twice, every individual is
/// complete for the ids of the catalog.
pub fn create_first_population(config: &AlgorithmConfig, tuples: &[Tuple]) -> (population:
    Population)
    requires
        config.population_size > 0 ==> config.number_of_periods <= MAX_PERIODS,
        config.population_size > 0 && tuples@.len() > 0 ==> config.number_of_periods > 0,
    ensures
        population@.len() == config.population_size,
        population_has_shape(population@, config.number_of_periods as nat),
        forall|i: int|
            0 <= i < population@.len() ==> is_initial(
                #[trigger] population@[i],
                ids_of(tuples@),
                config.number_of_periods as nat,
            ),
        ids_of(tuples@).no_duplicates() ==> population_is_complete(
            population@,
            ids_of(tuples@).to_set(),
        ),
{
    let population_size = config.population_size;
    let number_of_periods = config.number_of_periods;
    let mut population: Population = Vec::with_capacity(population_size);
    let mut rng = get_random_generator();
    let ids = tuple_ids(tuples);
    for i in 0..population_size
        invariant
            population_size == config.population_size,
            number_of_periods == config.number_of_periods,
            population_size > 0 ==> number_of_periods <= MAX_PERIODS,
            population_size > 0 && tuples@.len() > 0 ==> number_of_periods > 0,
            ids@ == ids_of(tuples@),
            population@.len() == i,
            population_has_shape(population@, number_of_periods as nat),
            forall|k: int|
                0 <= k < population@.len() ==> is_initial(
                    #[trigger] population@[k],
                    ids_of(tuples@),
                    number_of_periods as nat,
                ),
            ids_of(tuples@).no_duplicates() ==> population_is_complete(
                population@,
                ids_of(tuples@).to_set(),
            ),
    {
        let slots = random_slots(&mut rng, ids.len(), number_of_periods);
        let individual = create_individual(number_of_periods, &ids, &slots);
        proof {
            assert(is_placement(individual, ids@, slots@, number_of_periods as nat));
            if ids@.no_duplicates() {
                lemma_initial_is_complete(individual, ids@);
            }
        }
        population.push(individual);
    }
    population
}

} // verus!
