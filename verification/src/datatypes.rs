//! The value types of the algorithm and their mathematical model.

use vstd::multiset::Multiset;
use vstd::prelude::*;

verus! {

/// A gene is the `id` of a [`Tuple`]: the operators move ids, never whole tuples.
pub type Gene = i32;

/// A population is a list of timetables.
pub type Population = Vec<Individual>;

/// The adaptation of an individual that has not been rated yet.
pub const UNRATED: i32 = -1000;

/// The number of periods above which a period index no longer fits a chromosome id.
pub const MAX_PERIODS: usize = 0x8000_0000;

/// One class to be scheduled: a teacher who teaches a subject in a room.
#[derive(Debug, Clone)]
pub struct Tuple {
    pub id: i32,
    pub label: String,
    pub room: String,
    pub teacher: String,
}

/// One period of the timetable, with the classes held in it.
#[derive(Debug, Clone)]
pub struct Chromosome {
    pub id: i32,
    pub genes: Vec<Gene>,
}

/// A timetable: its periods in order, and how well it is adapted.
#[derive(Debug, Clone)]
pub struct Individual {
    pub adaptation: i32,
    pub chromosomes: Vec<Chromosome>,
}

impl Chromosome {
    /// An empty period with the given id.
    pub fn new(id: i32) -> (chromosome: Self)
        ensures
            chromosome.id == id,
            chromosome.genes@ == Seq::<Gene>::empty(),
    {
        Chromosome { id, genes: Vec::new() }
    }
}

impl Default for Chromosome {
    fn default() -> (chromosome: Self)
        ensures
            chromosome.id == 0,
            chromosome.genes@ == Seq::<Gene>::empty(),
    {
        Chromosome { id: 0, genes: Vec::new() }
    }
}

impl Individual {
    /// The genes of each period, period by period.
    pub open spec fn rows(&self) -> Seq<Seq<Gene>> {
        Seq::new(self.chromosomes@.len(), |c: int| self.chromosomes@[c].genes@)
    }

    /// All genes of the timetable, in period order.
    pub open spec fn all_genes(&self) -> Seq<Gene> {
        self.rows().flatten()
    }

    /// The genes of the timetable, each as often as it is scheduled.
    pub open spec fn gene_bag(&self) -> Multiset<Gene> {
        self.all_genes().to_multiset()
    }

    /// Whether some period holds the gene.
    pub open spec fn has_gene(&self, gene: Gene) -> bool {
        self.gene_bag().count(gene) > 0
    }

    /// The timetable has exactly `periods` chromosomes, and the one at index
    /// `c` has id `c`.
    pub open spec fn has_shape(&self, periods: nat) -> bool {
        &&& self.chromosomes@.len() == periods
        &&& forall|c: int| 0 <= c < periods ==> (#[trigger] self.chromosomes@[c]).id == c
    }

    /// No gene is scheduled twice.
    pub open spec fn is_duplicate_free(&self) -> bool {
        forall|gene: Gene| self.gene_bag().count(gene) <= 1
    }

    /// Every id of `universe` is scheduled exactly once, and nothing else is.
    pub open spec fn is_complete(&self, universe: Set<Gene>) -> bool {
        forall|gene: Gene|
            self.gene_bag().count(gene) == if universe.contains(gene) {
                1nat
            } else {
                0nat
            }
    }

    /// An unrated timetable without periods, with room reserved for
    /// `num_chromosomes` of them.
    pub fn new(num_chromosomes: usize) -> (individual: Self)
        ensures
            individual.adaptation == UNRATED,
            individual.chromosomes@ == Seq::<Chromosome>::empty(),
    {
        Individual { adaptation: UNRATED, chromosomes: Vec::with_capacity(num_chromosomes) }
    }

    /// An unrated timetable made of the given periods.
    pub fn with_chromosomes(chromosomes: Vec<Chromosome>) -> (individual: Self)
        ensures
            individual.adaptation == UNRATED,
            individual.chromosomes == chromosomes,
    {
        Individual { adaptation: UNRATED, chromosomes }
    }
}

impl Default for Individual {
    fn default() -> (individual: Self)
        ensures
            individual.adaptation == UNRATED,
            individual.chromosomes@ == Seq::<Chromosome>::empty(),
    {
        Individual { adaptation: UNRATED, chromosomes: Vec::new() }
    }
}

/// The ids of the catalog, entry by entry.
pub open spec fn ids_of(tuples: Seq<Tuple>) -> Seq<Gene> {
    tuples.map_values(|tuple: Tuple| tuple.id)
}

/// Every member of the population has `periods` well numbered periods.
pub open spec fn population_has_shape(population: Seq<Individual>, periods: nat) -> bool {
    forall|i: int| 0 <= i < population.len() ==> (#[trigger] population[i]).has_shape(periods)
}

/// Every member of the population schedules each id of `universe` exactly
/// once, and nothing else.
pub open spec fn population_is_complete(population: Seq<Individual>, universe: Set<Gene>) -> bool {
    forall|i: int| 0 <= i < population.len() ==> (#[trigger] population[i]).is_complete(universe)
}

} // verus!
