//! Crossover of two parents, and the repair of the child.
//!
//! Period by period the child takes the head of the mother's genes and the
//! tail of the father's. What either parent holds and the child lacks is
//! then put back into periods drawn at random, and of a gene that the child
//! holds more than once only the first occurrence stays.

use crate::config::AlgorithmConfig;
use crate::datatypes::{
    population_has_shape, population_is_complete, Chromosome, Gene, Individual, Population, UNRATED,
};
use crate::placement::{assigned, random_slots, slots_fit};
use crate::random::{get_random_generator, random_up_to};
use crate::rows::lemma_flatten_contains;
use crate::selection::{adaptations, is_ranking, rand_parents};
use std::collections::HashSet;
use vstd::multiset::Multiset;
use vstd::prelude::*;

verus! {

impl Chromosome {
    /// Whether the period holds the gene.
    pub fn contains_gene(&self, gene: Gene) -> (found: bool)
        ensures
            found == self.genes@.contains(gene),
    {
        let count = self.genes.len();
        for j in 0..count
            invariant
                count == self.genes@.len(),
                forall|i: int| 0 <= i < j ==> self.genes@[i] != gene,
        {
            if self.genes[j] == gene {
                return true;
            }
        }
        false
    }
}

impl Individual {
    /// Whether some period of the timetable holds the gene.
    pub fn contains_gene(&self, gene: Gene) -> (found: bool)
        ensures
            found == self.has_gene(gene),
    {
        let count = self.chromosomes.len();
        for c in 0..count
            invariant
                count == self.chromosomes@.len(),
                forall|i: int| 0 <= i < c ==> !(#[trigger] self.rows()[i]).contains(gene),
        {
            if self.chromosomes[c].contains_gene(gene) {
                proof {
                    assert(self.rows()[c as int].contains(gene));
                    lemma_flatten_contains(self.rows(), gene);
                }
                return true;
            }
        }
        proof {
            lemma_flatten_contains(self.rows(), gene);
        }
        false
    }
}

/// The child of two periods: the mother's genes before the mating point,
/// then the father's genes from the mating point on.
pub fn mate(mother: &Chromosome, father: &Chromosome, mating_point: usize) -> (child: Chromosome)
    requires
        mother.id == father.id,
        mating_point <= mother.genes@.len(),
        mating_point <= father.genes@.len(),
    ensures
        child.id == mother.id,
        child.genes@ == mother.genes@.take(mating_point as int) + father.genes@.skip(
            mating_point as int,
        ),
{
    let mut genes: Vec<Gene> = Vec::new();
    for j in 0..mating_point
        invariant
            mating_point <= mother.genes@.len(),
            genes@ == mother.genes@.take(j as int),
    {
        genes.push(mother.genes[j]);
    }
    let end = father.genes.len();
    for j in mating_point..end
        invariant
            mating_point <= end,
            end == father.genes@.len(),
            genes@ == mother.genes@.take(mating_point as int) + father.genes@.subrange(
                mating_point as int,
                j as int,
            ),
    {
        genes.push(father.genes[j]);
    }
    Chromosome { id: mother.id, genes }
}

/// Whether the periods `rows` lack a gene.
pub open spec fn lacks(rows: Seq<Seq<Gene>>) -> spec_fn(Gene) -> bool {
    |gene: Gene| !rows.flatten().contains(gene)
}

/// The genes of a parent that no period of the child holds, in the order in
/// which the parent holds them.
pub fn lost_genes(parent: &Individual, child: &Individual) -> (lost: Vec<Gene>)
    ensures
        lost@ == parent.all_genes().filter(lacks(child.rows())),
{
    let ghost is_lost = lacks(child.rows());
    let mut lost: Vec<Gene> = Vec::new();
    let count = parent.chromosomes.len();
    for c in 0..count
        invariant
            count == parent.chromosomes@.len(),
            is_lost == lacks(child.rows()),
            lost@ == parent.rows().take(c as int).flatten().filter(is_lost),
    {
        let genes = &parent.chromosomes[c].genes;
        let ghost done = parent.rows().take(c as int).flatten();
        let row_len = genes.len();
        for j in 0..row_len
            invariant
                row_len == genes@.len(),
                is_lost == lacks(child.rows()),
                lost@ == (done + genes@.take(j as int)).filter(is_lost),
        {
            let gene = genes[j];
            proof {
                assert(done + genes@.take(j + 1) =~= (done + genes@.take(j as int)).push(gene));
                (done + genes@.take(j as int)).lemma_filter_push(gene, is_lost);
                lemma_flatten_contains(child.rows(), gene);
            }
            if !child.contains_gene(gene) {
                lost.push(gene);
            }
        }
        proof {
            assert(genes@.take(row_len as int) =~= genes@);
            assert(parent.rows().take(c + 1) =~= parent.rows().take(c as int).push(genes@));
            parent.rows().take(c as int).lemma_flatten_push(genes@);
        }
    }
    assert(parent.rows().take(count as int) =~= parent.rows());
    lost
}

/// The genes of `row` that occur neither in `seen` nor earlier in the row,
/// in the order of the row.
pub open spec fn first_occurrences(row: Seq<Gene>, seen: Set<Gene>) -> Seq<Gene>
    decreases row.len(),
{
    if row.len() == 0 {
        Seq::empty()
    } else {
        let before = first_occurrences(row.drop_last(), seen);
        let gene = row.last();
        if seen.contains(gene) || row.drop_last().contains(gene) {
            before
        } else {
            before.push(gene)
        }
    }
}

/// What [`first_occurrences`] keeps holds a gene once if the row holds it
/// and it was not seen before, and not at all otherwise.
pub proof fn lemma_first_occurrences_count(row: Seq<Gene>, seen: Set<Gene>, gene: Gene)
    ensures
        first_occurrences(row, seen).to_multiset().count(gene) == if !seen.contains(gene)
            && row.contains(gene) {
            1nat
        } else {
            0nat
        },
    decreases row.len(),
{
    broadcast use {
        vstd::seq_lib::group_to_multiset_ensures,
        vstd::multiset::group_multiset_axioms,
        vstd::seq_lib::group_seq_properties,
    };

    if row.len() > 0 {
        let head = row.drop_last();
        lemma_first_occurrences_count(head, seen, gene);
        assert(row =~= head.push(row.last()));
        if head.contains(gene) {
            assert(row.contains(gene));
        }
    } else {
        assert(!row.contains(gene));
    }
}

/// The bag holds once each gene that occurs in `source`, and nothing else.
spec fn holds_each_once(bag: Multiset<Gene>, source: Seq<Gene>) -> bool {
    forall|gene: Gene| #[trigger]
        bag.count(gene) == if source.contains(gene) {
            1nat
        } else {
            0nat
        }
}

impl Individual {
    /// The genes that the periods before period `c` hold.
    pub open spec fn genes_before(&self, c: int) -> Set<Gene> {
        self.rows().take(c).flatten().to_set()
    }

    /// Keeps of every gene its first occurrence only, going through the
    /// periods in order and through each period from its start.
    ///
    /// Afterwards no gene is scheduled twice, and the genes that are
    /// scheduled at all are the same as before.
    pub fn remove_duplicates(&mut self)
        ensures
            final(self).adaptation == old(self).adaptation,
            final(self).chromosomes@.len() == old(self).chromosomes@.len(),
            forall|c: int|
                0 <= c < old(self).chromosomes@.len() ==> {
                    &&& (#[trigger] final(self).chromosomes@[c]).id == old(self).chromosomes@[c].id
                    &&& final(self).chromosomes@[c].genes@ == first_occurrences(
                        old(self).chromosomes@[c].genes@,
                        old(self).genes_before(c),
                    )
                },
            final(self).is_duplicate_free(),
            forall|gene: Gene| final(self).has_gene(gene) <==> old(self).has_gene(gene),
    {
        broadcast use {
            vstd::std_specs::hash::group_hash_axioms,
            vstd::seq_lib::group_to_multiset_ensures,
            vstd::multiset::group_multiset_axioms,
            vstd::seq_lib::group_seq_properties,
        };

        let ghost old_rows = old(self).rows();
        let mut seen: HashSet<Gene> = HashSet::new();
        let count = self.chromosomes.len();
        assert(old_rows.take(0) =~= Seq::<Seq<Gene>>::empty());
        assert(self.rows().take(0) =~= Seq::<Seq<Gene>>::empty());
        for c in 0..count
            invariant
                count == old(self).chromosomes@.len(),
                old_rows == old(self).rows(),
                self.adaptation == old(self).adaptation,
                self.chromosomes@.len() == count,
                seen@ == old(self).genes_before(c as int),
                forall|i: int|
                    0 <= i < c ==> {
                        &&& (#[trigger] self.chromosomes@[i]).id == old(self).chromosomes@[i].id
                        &&& self.chromosomes@[i].genes@ == first_occurrences(
                            old(self).chromosomes@[i].genes@,
                            old(self).genes_before(i),
                        )
                    },
                forall|i: int|
                    c <= i < count ==> (#[trigger] self.chromosomes@[i]) == old(self).chromosomes@[i],
                holds_each_once(
                    self.rows().take(c as int).flatten().to_multiset(),
                    old_rows.take(c as int).flatten(),
                ),
        {
            let ghost seen_before = seen@;
            let ghost row = self.chromosomes@[c as int].genes@;
            let ghost rows_before = self.rows();
            let row_len = self.chromosomes[c].genes.len();
            let mut kept: Vec<Gene> = Vec::new();
            assert(row.take(0) =~= Seq::<Gene>::empty());
            for j in 0..row_len
                invariant
                    c < self.chromosomes@.len(),
                    row == self.chromosomes@[c as int].genes@,
                    row_len == row.len(),
                    seen@ =~= seen_before.union(row.take(j as int).to_set()),
                    kept@ == first_occurrences(row.take(j as int), seen_before),
            {
                let gene = self.chromosomes[c].genes[j];
                proof {
                    assert(row.take(j + 1).drop_last() =~= row.take(j as int));
                    assert(row.take(j + 1).last() == gene);
                    assert(row.take(j + 1) =~= row.take(j as int).push(gene));
                }
                let fresh = seen.insert(gene);
                if fresh {
                    kept.push(gene);
                }
                assert(kept@ == first_occurrences(row.take(j + 1), seen_before));
            }
            self.chromosomes[c].genes = kept;
            proof {
                assert(row.take(row_len as int) =~= row);
                assert(row == old_rows[c as int]);
                // what the periods up to this one held before
                assert(old_rows.take(c + 1) =~= old_rows.take(c as int).push(row));
                old_rows.take(c as int).lemma_flatten_push(row);
                vstd::seq_lib::seq_to_set_distributes_over_add(
                    old_rows.take(c as int).flatten(),
                    row,
                );
                // what they hold now
                let now = self.rows();
                assert(now.take(c as int) =~= rows_before.take(c as int));
                assert(now.take(c + 1) =~= now.take(c as int).push(kept@));
                now.take(c as int).lemma_flatten_push(kept@);
                vstd::seq_lib::lemma_multiset_commutative(now.take(c as int).flatten(), kept@);
                let old_bag = now.take(c as int).flatten().to_multiset();
                let new_bag = now.take(c + 1).flatten().to_multiset();
                let old_source = old_rows.take(c as int).flatten();
                let new_source = old_rows.take(c + 1).flatten();
                assert(new_bag =~= old_bag.add(kept@.to_multiset()));
                assert(new_source == old_source + row);
                assert forall|gene: Gene| #[trigger]
                    new_bag.count(gene) == if new_source.contains(gene) {
                        1nat
                    } else {
                        0nat
                    } by {
                    lemma_first_occurrences_count(row, seen_before, gene);
                    assert(new_bag.count(gene) == old_bag.count(gene) + kept@.to_multiset().count(
                        gene,
                    ));
                    assert(seen_before.contains(gene) <==> old_source.contains(gene));
                    vstd::seq_lib::lemma_seq_concat_contains_all_elements(old_source, row, gene);
                }
            }
        }
        proof {
            assert(old_rows.take(count as int) =~= old_rows);
            assert(self.rows().take(count as int) =~= self.rows());
            assert forall|gene: Gene| self.has_gene(gene) <==> old(self).has_gene(gene) by {
                lemma_flatten_contains(old_rows, gene);
                assert(self.gene_bag().count(gene) == if old_rows.flatten().contains(gene) {
                    1nat
                } else {
                    0nat
                });
            }
            assert forall|gene: Gene| self.gene_bag().count(gene) <= 1 by {
                assert(self.gene_bag().count(gene) == if old_rows.flatten().contains(gene) {
                    1nat
                } else {
                    0nat
                });
            }
        }
    }
}

/// The periods of two parents, mated period by period at the given points.
pub open spec fn mated_rows(
    mother: Seq<Seq<Gene>>,
    father: Seq<Seq<Gene>>,
    points: Seq<usize>,
) -> Seq<Seq<Gene>> {
    Seq::new(
        mother.len(),
        |c: int| mother[c].take(points[c] as int) + father[c].skip(points[c] as int),
    )
}

/// The genes of the parents that the periods `rows` lack: those of the
/// mother first, then those of the father.
pub open spec fn lost_from(
    mother: Seq<Seq<Gene>>,
    father: Seq<Seq<Gene>>,
    rows: Seq<Seq<Gene>>,
) -> Seq<Gene> {
    mother.flatten().filter(lacks(rows)) + father.flatten().filter(lacks(rows))
}

/// The periods `rows`, each followed by the genes that `slots` sends to it.
pub open spec fn rows_with(rows: Seq<Seq<Gene>>, genes: Seq<Gene>, slots: Seq<usize>) -> Seq<
    Seq<Gene>,
> {
    Seq::new(rows.len(), |c: int| rows[c] + assigned(genes, slots, c, genes.len()))
}

/// The periods `rows` with only the first occurrence of every gene.
pub open spec fn rows_without_duplicates(rows: Seq<Seq<Gene>>) -> Seq<Seq<Gene>> {
    Seq::new(
        rows.len(),
        |c: int| first_occurrences(rows[c], rows.take(c).flatten().to_set()),
    )
}

/// The mating points lie within both periods, and there is a slot for every
/// lost gene.
pub open spec fn draws_fit(
    mother: Seq<Seq<Gene>>,
    father: Seq<Seq<Gene>>,
    points: Seq<usize>,
    slots: Seq<usize>,
) -> bool {
    &&& points.len() == mother.len()
    &&& forall|c: int|
        0 <= c < mother.len() ==> (#[trigger] points[c]) <= mother[c].len() && points[c]
            <= father[c].len()
    &&& slots.len() == lost_from(mother, father, mated_rows(mother, father, points)).len()
    &&& slots_fit(slots, mother.len())
}

/// The periods of the child that these mating points and slots give: the
/// parents are mated, the lost genes are put into their slots, and
/// duplicates are removed.
pub open spec fn child_rows(
    mother: Seq<Seq<Gene>>,
    father: Seq<Seq<Gene>>,
    points: Seq<usize>,
    slots: Seq<usize>,
) -> Seq<Seq<Gene>> {
    let mated = mated_rows(mother, father, points);
    rows_without_duplicates(rows_with(mated, lost_from(mother, father, mated), slots))
}

/// What holds of every child of `mother` and `father` in a timetable of
/// `periods` periods: it is unrated and well shaped, it schedules no gene
/// twice, and it schedules exactly the genes that one of its parents does.
pub open spec fn is_offspring(
    child: Individual,
    mother: Individual,
    father: Individual,
    periods: nat,
) -> bool {
    &&& child.adaptation == UNRATED
    &&& child.has_shape(periods)
    &&& child.is_duplicate_free()
    &&& forall|gene: Gene|
        mother.has_gene(gene) || father.has_gene(gene) ==> #[trigger] child.has_gene(gene)
    &&& forall|gene: Gene| #[trigger]
        child.has_gene(gene) ==> mother.has_gene(gene) || father.has_gene(gene)
}

/// The child of two complete parents is complete: it schedules every id of
/// the universe exactly once, with no duplicates and no omissions.
pub proof fn lemma_offspring_is_complete(
    child: Individual,
    mother: Individual,
    father: Individual,
    periods: nat,
    universe: Set<Gene>,
)
    requires
        is_offspring(child, mother, father, periods),
        mother.is_complete(universe),
        father.is_complete(universe),
    ensures
        child.is_complete(universe),
{
    assert forall|gene: Gene|
        child.gene_bag().count(gene) == if universe.contains(gene) {
            1nat
        } else {
            0nat
        } by {
        if universe.contains(gene) {
            assert(mother.has_gene(gene));
            assert(child.has_gene(gene));
        } else {
            assert(!mother.has_gene(gene) && !father.has_gene(gene));
            assert(!child.has_gene(gene));
        }
    }
}

/// The genes of a mated period come from the two periods it was mated from.
proof fn lemma_mated_genes(mother: Seq<Gene>, father: Seq<Gene>, point: int, gene: Gene)
    requires
        0 <= point <= mother.len(),
        point <= father.len(),
        (mother.take(point) + father.skip(point)).contains(gene),
    ensures
        mother.contains(gene) || father.contains(gene),
{
    broadcast use vstd::seq_lib::group_seq_properties;

}

/// Crosses two parents of `config.number_of_periods` periods each and
/// repairs the child.
///
/// The mating point of each period is drawn between zero and the length of
/// the shorter of the two periods. Each gene that a parent holds and the
/// mated periods lack goes to a period drawn at random, the mother's lost
/// genes first, and then duplicates are removed. So the child is what
/// [`child_rows`] gives for some mating points and slots; and whatever is
/// drawn, it is an offspring of the two in the sense of [`is_offspring`].
pub fn recombine(config: &AlgorithmConfig, mother: &Individual, father: &Individual) -> (child:
    Individual)
    requires
        mother.has_shape(config.number_of_periods as nat),
        father.has_shape(config.number_of_periods as nat),
    ensures
        is_offspring(child, *mother, *father, config.number_of_periods as nat),
        exists|points: Seq<usize>, slots: Seq<usize>|
            {
                &&& #[trigger] draws_fit(mother.rows(), father.rows(), points, slots)
                &&& child.rows() == child_rows(mother.rows(), father.rows(), points, slots)
            },
{
    let periods = config.number_of_periods;
    let mut chromosomes: Vec<Chromosome> = Vec::with_capacity(periods);
    let mut points: Ghost<Seq<usize>> = Ghost(Seq::empty());
    let mut c: usize = 0;
    while c < periods
        invariant
            c <= periods,
            periods == config.number_of_periods,
            mother.has_shape(periods as nat),
            father.has_shape(periods as nat),
            chromosomes@.len() == c,
            points@.len() == c,
            forall|i: int|
                0 <= i < c ==> {
                    &&& (#[trigger] chromosomes@[i]).id == i
                    &&& points@[i] <= mother.rows()[i].len()
                    &&& points@[i] <= father.rows()[i].len()
                    &&& chromosomes@[i].genes@ == mother.rows()[i].take(points@[i] as int)
                        + father.rows()[i].skip(points@[i] as int)
                },
        decreases periods - c,
    {
        let mut rng = get_random_generator();
        let mother_chromosome = &mother.chromosomes[c];
        let father_chromosome = &father.chromosomes[c];
        let mother_len = mother_chromosome.genes.len();
        let father_len = father_chromosome.genes.len();
        let bound = if mother_len < father_len {
            mother_len
        } else {
            father_len
        };
        let mating_point = random_up_to(&mut rng, bound);
        let mated = mate(mother_chromosome, father_chromosome, mating_point);
        chromosomes.push(mated);
        points = Ghost(points@.push(mating_point));
        proof {
            assert(mother.rows()[c as int] == mother_chromosome.genes@);
            assert(father.rows()[c as int] == father_chromosome.genes@);
            assert(chromosomes@[c as int].id == c);
            assert(points@[c as int] == mating_point);
            assert(points@[c as int] <= mother.rows()[c as int].len());
            assert(points@[c as int] <= father.rows()[c as int].len());
            assert(chromosomes@[c as int].genes@ == mother.rows()[c as int].take(
                points@[c as int] as int,
            ) + father.rows()[c as int].skip(points@[c as int] as int));
        }
        c = c + 1;
    }
    let mut child = Individual::with_chromosomes(chromosomes);
    let ghost mated = child;
    let ghost is_lost = lacks(mated.rows());
    let mut lost = lost_genes(mother, &child);
    let mut lost_of_father = lost_genes(father, &child);
    let ghost lost_of_mother = lost@;
    proof {
        lost_genes_exist_only_with_periods(mother, child, lost@);
        lost_genes_exist_only_with_periods(father, child, lost_of_father@);
    }
    lost.append(&mut lost_of_father);
    let mut rng = get_random_generator();
    let slots = random_slots(&mut rng, lost.len(), periods);
    child.place_genes(&lost, &slots);
    let ghost placed = child;
    child.remove_duplicates();
    proof {
        broadcast use {
            vstd::seq_lib::group_to_multiset_ensures,
            vstd::multiset::group_multiset_axioms,
        };

        // the child is what the draws give
        assert(mated.rows() =~= mated_rows(mother.rows(), father.rows(), points@));
        assert(lost@ == lost_from(mother.rows(), father.rows(), mated.rows()));
        assert(placed.rows() =~= rows_with(mated.rows(), lost@, slots@));
        assert(child.rows() =~= rows_without_duplicates(placed.rows()));
        assert forall|c: int| 0 <= c < periods implies (#[trigger] points@[c])
            <= mother.rows()[c].len() && points@[c] <= father.rows()[c].len() by {
            assert(mated.chromosomes@[c].id == c);
        }
        assert(draws_fit(mother.rows(), father.rows(), points@, slots@));
        // it schedules what its parents schedule
        assert forall|gene: Gene|
            mother.has_gene(gene) || father.has_gene(gene) implies #[trigger] child.has_gene(
            gene,
        ) by {
            lemma_flatten_contains(mother.rows(), gene);
            lemma_flatten_contains(father.rows(), gene);
            lemma_flatten_contains(mated.rows(), gene);
            if !mated.has_gene(gene) {
                if mother.has_gene(gene) {
                    let at = mother.all_genes().index_of(gene);
                    assert(is_lost(mother.all_genes()[at]));
                    mother.all_genes().lemma_filter_contains(is_lost, at);
                } else {
                    let at = father.all_genes().index_of(gene);
                    assert(is_lost(father.all_genes()[at]));
                    father.all_genes().lemma_filter_contains(is_lost, at);
                }
                vstd::seq_lib::lemma_seq_concat_contains_all_elements(
                    lost_of_mother,
                    father.all_genes().filter(is_lost),
                    gene,
                );
                assert(lost@.contains(gene));
            }
            assert(placed.has_gene(gene));
        }
        assert forall|gene: Gene| #[trigger] child.has_gene(gene) implies mother.has_gene(gene)
            || father.has_gene(gene) by {
            assert(placed.has_gene(gene));
            lemma_flatten_contains(mother.rows(), gene);
            lemma_flatten_contains(father.rows(), gene);
            lemma_flatten_contains(mated.rows(), gene);
            if mated.has_gene(gene) {
                let c = choose|c: int|
                    0 <= c < mated.rows().len() && (#[trigger] mated.rows()[c]).contains(gene);
                lemma_mated_genes(mother.rows()[c], father.rows()[c], points@[c] as int, gene);
            } else {
                assert(lost@.contains(gene));
                vstd::seq_lib::lemma_seq_concat_contains_all_elements(
                    lost_of_mother,
                    father.all_genes().filter(is_lost),
                    gene,
                );
                if lost_of_mother.contains(gene) {
                    mother.all_genes().lemma_filter_contains_rev(is_lost, gene);
                } else {
                    father.all_genes().lemma_filter_contains_rev(is_lost, gene);
                }
            }
        }
    }
    child
}

/// A gene can only be lost if the parent has a period to hold it.
proof fn lost_genes_exist_only_with_periods(parent: &Individual, child: Individual, lost: Seq<Gene>)
    requires
        lost == parent.all_genes().filter(lacks(child.rows())),
    ensures
        lost.len() > 0 ==> parent.chromosomes@.len() > 0,
{
    parent.all_genes().lemma_filter_len(lacks(child.rows()));
}

/// The periods `rows` are those of the child that the parents at the
/// positions `first` and `second` of the ranking `order` have for the mating
/// points `points` and the slots `slots`.
pub open spec fn is_cross_of(
    rows: Seq<Seq<Gene>>,
    population: Seq<Individual>,
    order: Seq<usize>,
    first: int,
    second: int,
    points: Seq<usize>,
    slots: Seq<usize>,
) -> bool {
    let mother = population[order[first] as int].rows();
    let father = population[order[second] as int].rows();
    &&& is_ranking(order, adaptations(population))
    &&& draws_fit(mother, father, points, slots)
    &&& rows == child_rows(mother, father, points, slots)
}

/// Crosses the parents at two different positions of the ranking of the
/// population, and repairs the child.
///
/// The mother is the individual at position `first` once the population is
/// ranked from the best adaptation down, the father the one at position
/// `second`. The child is what [`recombine`] makes of these two: an
/// offspring of theirs, with the periods that some mating points and slots
/// give. So if every member of the population schedules each id of a
/// universe exactly once, the child does too.
pub fn crossover(
    config: &AlgorithmConfig,
    population: &Population,
    first: usize,
    second: usize,
) -> (child: Individual)
    requires
        population@.len() > 1,
        first < population@.len(),
        second < population@.len(),
        first != second,
        population_has_shape(population@, config.number_of_periods as nat),
    ensures
        exists|order: Seq<usize>|
            {
                &&& #[trigger] is_ranking(order, adaptations(population@))
                &&& order[first as int] != order[second as int]
                &&& is_offspring(
                    child,
                    population@[order[first as int] as int],
                    population@[order[second as int] as int],
                    config.number_of_periods as nat,
                )
            },
        exists|order: Seq<usize>, points: Seq<usize>, slots: Seq<usize>| #[trigger]
            is_cross_of(
                child.rows(),
                population@,
                order,
                first as int,
                second as int,
                points,
                slots,
            ),
        forall|universe: Set<Gene>|
            population_is_complete(population@, universe) ==> #[trigger] child.is_complete(
                universe,
            ),
{
    let (mother, father) = rand_parents(population, first, second);
    let child = recombine(config, mother, father);
    proof {
        let order = choose|order: Seq<usize>|
            {
                &&& #[trigger] is_ranking(order, adaptations(population@))
                &&& order[first as int] != order[second as int]
                &&& *mother == population@[order[first as int] as int]
                &&& *father == population@[order[second as int] as int]
            };
        let (points, slots) = choose|points: Seq<usize>, slots: Seq<usize>|
            {
                &&& #[trigger] draws_fit(mother.rows(), father.rows(), points, slots)
                &&& child.rows() == child_rows(mother.rows(), father.rows(), points, slots)
            };
        assert(is_cross_of(
            child.rows(),
            population@,
            order,
            first as int,
            second as int,
            points,
            slots,
        ));
        assert forall|universe: Set<Gene>|
            population_is_complete(population@, universe) implies #[trigger] child.is_complete(
            universe,
        ) by {
            lemma_offspring_is_complete(
                child,
                *mother,
                *father,
                config.number_of_periods as nat,
                universe,
            );
        }
    }
    child
}

} // verus!
