//! How well a timetable is adapted: the conflicts it holds, counted against it.
//!
//! Within one period every scheduled class is held against every other class
//! of the catalog that the period schedules too. Sharing a room costs 10 when
//! the teacher is the same and 20 when it is not; sharing a teacher costs 10
//! when the subject is the same and 20 when it is not. Each of two conflicting
//! classes counts the other, so a conflict weighs twice. The adaptation is the
//! sum of all costs, negated: zero is best.

use crate::datatypes::{ids_of, Chromosome, Gene, Individual, Tuple};
use crate::rows::lemma_flatten_contains;
use vstd::prelude::*;

verus! {

/// The sum of `term(0)`, ..., `term(len - 1)`.
pub open spec fn total(len: nat, term: spec_fn(int) -> int) -> int
    decreases len,
{
    if len == 0 {
        0
    } else {
        total((len - 1) as nat, term) + term(len - 1)
    }
}

/// A sum of terms between zero and `bound` lies between zero and `bound`
/// times the number of terms.
pub proof fn lemma_total_bounds(len: nat, term: spec_fn(int) -> int, bound: int)
    requires
        forall|k: int| 0 <= k < len ==> 0 <= #[trigger] term(k) <= bound,
    ensures
        0 <= total(len, term) <= bound * len,
    decreases len,
{
    if len > 0 {
        lemma_total_bounds((len - 1) as nat, term, bound);
        assert(bound * len == bound * (len - 1) + bound) by (nonlinear_arith);
    } else {
        assert(bound * len == 0) by (nonlinear_arith)
            requires
                len == 0,
        ;
    }
}

/// A sum of terms that are not negative is zero exactly when every term is.
pub proof fn lemma_total_is_zero(len: nat, term: spec_fn(int) -> int)
    requires
        forall|k: int| 0 <= k < len ==> 0 <= #[trigger] term(k),
    ensures
        0 <= total(len, term),
        total(len, term) == 0 <==> forall|k: int| 0 <= k < len ==> #[trigger] term(k) == 0,
    decreases len,
{
    if len > 0 {
        lemma_total_is_zero((len - 1) as nat, term);
        if total(len, term) == 0 {
            assert forall|k: int| 0 <= k < len implies #[trigger] term(k) == 0 by {
                if k < len - 1 {
                } else {
                    assert(k == len - 1);
                }
            }
        }
    }
}

/// Some entry of the catalog has the id `gene`.
pub open spec fn knows(tuples: Seq<Tuple>, gene: Gene) -> bool {
    exists|k: int| 0 <= k < tuples.len() && (#[trigger] tuples[k]).id == gene
}

/// The entry at `k` is the first of the catalog with the id `gene`.
pub open spec fn is_first_entry(tuples: Seq<Tuple>, gene: Gene, k: int) -> bool {
    &&& 0 <= k < tuples.len()
    &&& tuples[k].id == gene
    &&& forall|j: int| 0 <= j < k ==> (#[trigger] tuples[j]).id != gene
}

/// The first entry of the catalog with the id `gene`.
pub open spec fn entry_of(tuples: Seq<Tuple>, gene: Gene) -> Tuple {
    tuples[choose|k: int| is_first_entry(tuples, gene, k)]
}

/// The catalog has an entry for every gene of the timetable.
pub open spec fn covers(tuples: Seq<Tuple>, individual: Individual) -> bool {
    forall|gene: Gene| #[trigger] individual.has_gene(gene) ==> knows(tuples, gene)
}

/// What two classes held at the same time cost for the room they share.
pub open spec fn room_conflict(a: Tuple, b: Tuple) -> int {
    if a.room@ != b.room@ {
        0
    } else if a.teacher@ == b.teacher@ {
        10
    } else {
        20
    }
}

/// What two classes held at the same time cost for the teacher they share.
pub open spec fn teacher_conflict(a: Tuple, b: Tuple) -> int {
    if a.teacher@ != b.teacher@ {
        0
    } else if a.label@ == b.label@ {
        10
    } else {
        20
    }
}

/// What two classes held at the same time cost.
pub open spec fn conflict(a: Tuple, b: Tuple) -> int {
    room_conflict(a, b) + teacher_conflict(a, b)
}

/// `other` is a class of another id that the period with these genes holds.
pub open spec fn is_rival(genes: Seq<Gene>, tuple: Tuple, other: Tuple) -> bool {
    genes.contains(other.id) && other.id != tuple.id
}

/// What the catalog entry at `k` costs the class `tuple` in a period with
/// these genes.
pub open spec fn rival_cost(genes: Seq<Gene>, tuple: Tuple, tuples: Seq<Tuple>) -> spec_fn(
    int,
) -> int {
    |k: int|
        if is_rival(genes, tuple, tuples[k]) {
            conflict(tuple, tuples[k])
        } else {
            0
        }
}

/// What one class costs in a period with these genes: its conflicts with
/// every rival in the catalog.
pub open spec fn gene_penalty(genes: Seq<Gene>, tuple: Tuple, tuples: Seq<Tuple>) -> int {
    total(tuples.len(), rival_cost(genes, tuple, tuples))
}

/// What the gene at `j` of a period costs.
pub open spec fn gene_cost(genes: Seq<Gene>, tuples: Seq<Tuple>) -> spec_fn(int) -> int {
    |j: int| gene_penalty(genes, entry_of(tuples, genes[j]), tuples)
}

/// What one period costs: the sum over its genes.
pub open spec fn period_penalty(genes: Seq<Gene>, tuples: Seq<Tuple>) -> int {
    total(genes.len(), gene_cost(genes, tuples))
}

/// What the period at `c` costs.
pub open spec fn period_cost(rows: Seq<Seq<Gene>>, tuples: Seq<Tuple>) -> spec_fn(int) -> int {
    |c: int| period_penalty(rows[c], tuples)
}

/// What a whole timetable costs: the sum over its periods.
pub open spec fn penalty(rows: Seq<Seq<Gene>>, tuples: Seq<Tuple>) -> int {
    total(rows.len(), period_cost(rows, tuples))
}

/// The adaptation of a timetable under a catalog.
pub open spec fn fitness_of(individual: Individual, tuples: Seq<Tuple>) -> int {
    -penalty(individual.rows(), tuples)
}

/// The highest cost whose negation is still an `i32`.
pub const PENALTY_LIMIT: u128 = 0x8000_0000;

/// Why a timetable could not be rated.
#[derive(Debug, Clone, Copy, PartialEq, Eq, Structural)]
pub enum FitnessError {
    /// The timetable schedules this gene, and the catalog has no such id.
    UnknownGene(Gene),
    /// The conflicts cost more than an `i32` can say.
    OutOfRange,
}

/// One class never costs more than 40 times the size of the catalog.
pub proof fn lemma_gene_penalty_bounds(genes: Seq<Gene>, tuple: Tuple, tuples: Seq<Tuple>)
    ensures
        0 <= gene_penalty(genes, tuple, tuples) <= 40 * tuples.len(),
{
    lemma_total_bounds(tuples.len(), rival_cost(genes, tuple, tuples), 40);
}

/// No period costs less than nothing.
pub proof fn lemma_period_penalty_bounds(genes: Seq<Gene>, tuples: Seq<Tuple>)
    ensures
        0 <= period_penalty(genes, tuples),
{
    assert forall|j: int| 0 <= j < genes.len() implies 0 <= #[trigger] gene_cost(genes, tuples)(
        j,
    ) by {
        lemma_gene_penalty_bounds(genes, entry_of(tuples, genes[j]), tuples);
    }
    lemma_total_is_zero(genes.len(), gene_cost(genes, tuples));
}

/// What two classes held at the same time cost.
pub fn conflict_between(a: &Tuple, b: &Tuple) -> (cost: u8)
    ensures
        cost == conflict(*a, *b),
{
    let same_teacher = a.teacher == b.teacher;
    let mut cost: u8 = 0;
    if a.room == b.room {
        if same_teacher {
            cost = cost + 10;
        } else {
            cost = cost + 20;
        }
    }
    if same_teacher {
        if a.label == b.label {
            cost = cost + 10;
        } else {
            cost = cost + 20;
        }
    }
    cost
}

/// The position of the first entry of the catalog with the id `gene`.
pub fn find_tuple(tuples: &Vec<Tuple>, gene: Gene) -> (found: Option<usize>)
    ensures
        found.is_some() <==> knows(tuples@, gene),
        found.is_some() ==> is_first_entry(tuples@, gene, found.unwrap() as int),
        found.is_some() ==> tuples@[found.unwrap() as int] == entry_of(tuples@, gene),
{
    let count = tuples.len();
    for k in 0..count
        invariant
            count == tuples@.len(),
            forall|j: int| 0 <= j < k ==> (#[trigger] tuples@[j]).id != gene,
    {
        if tuples[k].id == gene {
            proof {
                let first = choose|i: int| is_first_entry(tuples@, gene, i);
                assert(is_first_entry(tuples@, gene, k as int));
                assert(first == k) by {
                    if first < k {
                        assert(tuples@[first].id != gene);
                    } else if k < first {
                        assert(tuples@[k as int].id != gene);
                    }
                }
            }
            return Some(k);
        }
    }
    None
}

/// What one class costs in a period: its conflicts with every rival in the
/// catalog.
pub fn penalty_of_gene(period: &Chromosome, tuple: &Tuple, tuples: &Vec<Tuple>) -> (cost: u128)
    ensures
        cost == gene_penalty(period.genes@, *tuple, tuples@),
{
    let ghost cost_at = rival_cost(period.genes@, *tuple, tuples@);
    let mut cost: u128 = 0;
    let count = tuples.len();
    for k in 0..count
        invariant
            count == tuples@.len(),
            cost_at == rival_cost(period.genes@, *tuple, tuples@),
            cost == total(k as nat, cost_at),
            cost <= 40 * k,
    {
        let other = &tuples[k];
        if other.id != tuple.id && period.contains_gene(other.id) {
            let between = conflict_between(tuple, other);
            cost = cost + between as u128;
        }
    }
    cost
}

/// The adaptation of a timetable, or why it has none.
///
/// The timetable is rated when the catalog has an entry for each of its
/// genes and the result fits an `i32`; a gene without an entry is reported
/// before a cost that is out of range.
pub fn checked_fitness(individual: &Individual, tuples: &Vec<Tuple>) -> (rated: Result<
    i32,
    FitnessError,
>)
    ensures
        rated.is_ok() <==> covers(tuples@, *individual) && fitness_of(*individual, tuples@)
            >= i32::MIN,
        rated.is_ok() ==> rated.unwrap() == fitness_of(*individual, tuples@),
        rated == Err::<i32, FitnessError>(FitnessError::OutOfRange) <==> covers(
            tuples@,
            *individual,
        ) && fitness_of(*individual, tuples@) < i32::MIN,
        forall|gene: Gene|
            rated == Err::<i32, FitnessError>(FitnessError::UnknownGene(gene))
                ==> individual.has_gene(gene) && !knows(tuples@, gene),
{
    let ghost rows = individual.rows();
    let ghost cost_of_period = period_cost(rows, tuples@);
    let mut cost: u128 = 0;
    let mut exceeded = false;
    let periods = individual.chromosomes.len();
    for c in 0..periods
        invariant
            periods == individual.chromosomes@.len(),
            rows == individual.rows(),
            cost_of_period == period_cost(rows, tuples@),
            !exceeded ==> cost == total(c as nat, cost_of_period) && cost <= PENALTY_LIMIT,
            exceeded ==> total(c as nat, cost_of_period) > PENALTY_LIMIT,
            forall|i: int, gene: Gene|
                0 <= i < c && (#[trigger] rows[i].contains(gene)) ==> knows(tuples@, gene),
    {
        let period = &individual.chromosomes[c];
        let ghost genes = period.genes@;
        let ghost cost_of_gene = gene_cost(genes, tuples@);
        let ghost before = total(c as nat, cost_of_period);
        let count = period.genes.len();
        for j in 0..count
            invariant
                count == genes.len(),
                genes == period.genes@,
                genes == rows[c as int],
                0 <= c < rows.len(),
                rows == individual.rows(),
                cost_of_gene == gene_cost(genes, tuples@),
                0 <= before,
                !exceeded ==> cost == before + total(j as nat, cost_of_gene) && cost
                    <= PENALTY_LIMIT,
                exceeded ==> before + total(j as nat, cost_of_gene) > PENALTY_LIMIT,
                0 <= total(j as nat, cost_of_gene),
                forall|i: int| 0 <= i < j ==> knows(tuples@, #[trigger] genes[i]),
        {
            let gene = period.genes[j];
            match find_tuple(tuples, gene) {
                None => {
                    proof {
                        assert(rows[c as int].contains(gene));
                        lemma_flatten_contains(rows, gene);
                        assert(individual.has_gene(gene));
                    }
                    return Err(FitnessError::UnknownGene(gene));
                },
                Some(k) => {
                    let gene_cost = penalty_of_gene(period, &tuples[k], tuples);
                    proof {
                        lemma_gene_penalty_bounds(genes, tuples@[k as int], tuples@);
                        assert(cost_of_gene(j as int) == gene_cost);
                        assert(tuples@.len() == tuples.len());
                    }
                    if !exceeded {
                        cost = cost + gene_cost;
                        if cost > PENALTY_LIMIT {
                            exceeded = true;
                        }
                    }
                },
            }
        }
        proof {
            assert(cost_of_period(c as int) == total(count as nat, cost_of_gene));
            assert forall|gene: Gene| #[trigger] rows[c as int].contains(gene) implies knows(
                tuples@,
                gene,
            ) by {
                let i = rows[c as int].index_of(gene);
                assert(knows(tuples@, genes[i]));
            }
        }
    }
    proof {
        assert forall|gene: Gene| #[trigger] individual.has_gene(gene) implies knows(
            tuples@,
            gene,
        ) by {
            lemma_flatten_contains(rows, gene);
            let i = choose|i: int| 0 <= i < rows.len() && (#[trigger] rows[i]).contains(gene);
            assert(rows[i].contains(gene));
        }
    }
    if exceeded {
        Err(FitnessError::OutOfRange)
    } else {
        Ok((0 - cost as i64) as i32)
    }
}

/// Calculates the adaptation of the individual.
///
/// For every period, every scheduled class is held against every other
/// class of the catalog that the period schedules too, and the costs of
/// their conflicts are counted against the timetable.
pub fn calculate_fitness(individual: &Individual, tuples: &Vec<Tuple>) -> (fitness: i32)
    requires
        covers(tuples@, *individual),
        fitness_of(*individual, tuples@) >= i32::MIN,
    ensures
        fitness == fitness_of(*individual, tuples@),
{
    match checked_fitness(individual, tuples) {
        Ok(fitness) => fitness,
        Err(_) => 0,
    }
}

/// The class scheduled at `j` of period `c` and the catalog entry at `k`
/// are rivals that share a room or a teacher.
pub open spec fn clash_at(rows: Seq<Seq<Gene>>, tuples: Seq<Tuple>, c: int, j: int, k: int) -> bool {
    let tuple = entry_of(tuples, rows[c][j]);
    let other = tuples[k];
    is_rival(rows[c], tuple, other) && (tuple.room@ == other.room@ || tuple.teacher@
        == other.teacher@)
}

/// No two different classes held in one period share a room or a teacher.
pub open spec fn is_conflict_free(rows: Seq<Seq<Gene>>, tuples: Seq<Tuple>) -> bool {
    forall|c: int, j: int, k: int|
        0 <= c < rows.len() && 0 <= j < rows[c].len() && 0 <= k < tuples.len() ==> !#[trigger] clash_at(
            rows,
            tuples,
            c,
            j,
            k,
        )
}

/// A class costs nothing in a period exactly when no rival shares its room
/// or its teacher.
proof fn lemma_gene_penalty_is_zero(rows: Seq<Seq<Gene>>, tuples: Seq<Tuple>, c: int, j: int)
    requires
        0 <= c < rows.len(),
        0 <= j < rows[c].len(),
    ensures
        gene_cost(rows[c], tuples)(j) == 0 <==> forall|k: int|
            0 <= k < tuples.len() ==> !#[trigger] clash_at(rows, tuples, c, j, k),
{
    let tuple = entry_of(tuples, rows[c][j]);
    let cost_at = rival_cost(rows[c], tuple, tuples);
    assert forall|k: int| 0 <= k < tuples.len() implies 0 <= #[trigger] cost_at(k) by {}
    lemma_total_is_zero(tuples.len(), cost_at);
    if gene_cost(rows[c], tuples)(j) == 0 {
        assert forall|k: int| 0 <= k < tuples.len() implies !#[trigger] clash_at(
            rows,
            tuples,
            c,
            j,
            k,
        ) by {
            assert(cost_at(k) == 0);
        }
    }
    if forall|k: int| 0 <= k < tuples.len() ==> !#[trigger] clash_at(rows, tuples, c, j, k) {
        assert forall|k: int| 0 <= k < tuples.len() implies #[trigger] cost_at(k) == 0 by {
            assert(!clash_at(rows, tuples, c, j, k));
        }
    }
}

/// A period costs nothing exactly when none of its classes does.
proof fn lemma_period_penalty_is_zero(rows: Seq<Seq<Gene>>, tuples: Seq<Tuple>, c: int)
    requires
        0 <= c < rows.len(),
    ensures
        period_cost(rows, tuples)(c) == 0 <==> forall|j: int, k: int|
            0 <= j < rows[c].len() && 0 <= k < tuples.len() ==> !#[trigger] clash_at(
                rows,
                tuples,
                c,
                j,
                k,
            ),
{
    let cost_at = gene_cost(rows[c], tuples);
    assert forall|j: int| 0 <= j < rows[c].len() implies 0 <= #[trigger] cost_at(j) by {
        lemma_gene_penalty_bounds(rows[c], entry_of(tuples, rows[c][j]), tuples);
    }
    lemma_total_is_zero(rows[c].len(), cost_at);
    if period_cost(rows, tuples)(c) == 0 {
        assert forall|j: int, k: int|
            0 <= j < rows[c].len() && 0 <= k < tuples.len() implies !#[trigger] clash_at(
            rows,
            tuples,
            c,
            j,
            k,
        ) by {
            assert(cost_at(j) == 0);
            lemma_gene_penalty_is_zero(rows, tuples, c, j);
        }
    }
    if forall|j: int, k: int|
        0 <= j < rows[c].len() && 0 <= k < tuples.len() ==> !#[trigger] clash_at(
            rows,
            tuples,
            c,
            j,
            k,
        ) {
        assert forall|j: int| 0 <= j < rows[c].len() implies #[trigger] cost_at(j) == 0 by {
            lemma_gene_penalty_is_zero(rows, tuples, c, j);
        }
    }
}

/// A timetable has the best adaptation, zero, exactly when no two different
/// classes held in one period share a room or a teacher; and no timetable
/// has an adaptation above zero.
pub proof fn lemma_fitness_is_zero(individual: Individual, tuples: Seq<Tuple>)
    ensures
        fitness_of(individual, tuples) <= 0,
        fitness_of(individual, tuples) == 0 <==> is_conflict_free(individual.rows(), tuples),
{
    let rows = individual.rows();
    let cost_at = period_cost(rows, tuples);
    assert forall|c: int| 0 <= c < rows.len() implies 0 <= #[trigger] cost_at(c) by {
        lemma_period_penalty_bounds(rows[c], tuples);
    }
    lemma_total_is_zero(rows.len(), cost_at);
    if fitness_of(individual, tuples) == 0 {
        assert forall|c: int, j: int, k: int|
            0 <= c < rows.len() && 0 <= j < rows[c].len() && 0 <= k < tuples.len() implies !#[trigger] clash_at(
            rows,
            tuples,
            c,
            j,
            k,
        ) by {
            assert(cost_at(c) == 0);
            lemma_period_penalty_is_zero(rows, tuples, c);
        }
    }
    if is_conflict_free(rows, tuples) {
        assert forall|c: int| 0 <= c < rows.len() implies #[trigger] cost_at(c) == 0 by {
            lemma_period_penalty_is_zero(rows, tuples, c);
        }
    }
}

/// Sums of terms that agree place by place are equal.
proof fn lemma_total_of_equal_terms(len: nat, left: spec_fn(int) -> int, right: spec_fn(int) -> int)
    requires
        forall|k: int| 0 <= k < len ==> #[trigger] left(k) == right(k),
    ensures
        total(len, left) == total(len, right),
    decreases len,
{
    if len > 0 {
        lemma_total_of_equal_terms((len - 1) as nat, left, right);
        assert(left(len - 1) == right(len - 1));
    }
}

/// Periods never cost more than 40 for each pair of a scheduled gene and an
/// entry of the catalog.
proof fn lemma_rows_penalty_bounds(rows: Seq<Seq<Gene>>, tuples: Seq<Tuple>)
    ensures
        0 <= penalty(rows, tuples) <= 40 * tuples.len() * rows.flatten().len(),
    decreases rows.len(),
{
    if rows.len() == 0 {
        assert(40 * tuples.len() * rows.flatten().len() == 0) by (nonlinear_arith)
            requires
                rows.flatten().len() == 0,
        ;
    } else {
        let head = rows.drop_last();
        let genes = rows.last();
        lemma_rows_penalty_bounds(head, tuples);
        assert forall|c: int| 0 <= c < head.len() implies #[trigger] period_cost(rows, tuples)(c)
            == period_cost(head, tuples)(c) by {
            assert(head[c] == rows[c]);
        }
        lemma_total_of_equal_terms(
            head.len(),
            period_cost(rows, tuples),
            period_cost(head, tuples),
        );
        assert forall|j: int| 0 <= j < genes.len() implies 0 <= #[trigger] gene_cost(genes, tuples)(
            j,
        ) <= 40 * tuples.len() by {
            lemma_gene_penalty_bounds(genes, entry_of(tuples, genes[j]), tuples);
        }
        lemma_total_bounds(genes.len(), gene_cost(genes, tuples), (40 * tuples.len()) as int);
        assert(rows =~= head.push(genes));
        head.lemma_flatten_push(genes);
        assert(40 * tuples.len() * (head.flatten().len() + genes.len()) == 40 * tuples.len()
            * head.flatten().len() + 40 * tuples.len() * genes.len()) by (nonlinear_arith);
    }
}

/// A timetable never costs more than 40 for each pair of a scheduled gene
/// and an entry of the catalog.
pub proof fn lemma_penalty_bounds(individual: Individual, tuples: Seq<Tuple>)
    ensures
        0 <= penalty(individual.rows(), tuples) <= 40 * tuples.len() * individual.all_genes().len(),
{
    lemma_rows_penalty_bounds(individual.rows(), tuples);
}

/// A timetable that schedules no gene twice, and only genes that the
/// catalog knows, schedules no more genes than the catalog has entries.
pub proof fn lemma_gene_count_bound(individual: Individual, tuples: Seq<Tuple>)
    requires
        individual.is_duplicate_free(),
        covers(tuples, individual),
    ensures
        individual.all_genes().len() <= tuples.len(),
{
    broadcast use vstd::seq_lib::group_to_multiset_ensures;

    let genes = individual.all_genes();
    let ids = ids_of(tuples);
    assert forall|gene: Gene| genes.to_multiset().contains(gene) implies genes.to_multiset().count(
        gene,
    ) == 1 by {
        assert(individual.gene_bag().count(gene) <= 1);
    }
    genes.lemma_multiset_has_no_duplicates_conv();
    genes.unique_seq_to_set();
    ids.lemma_cardinality_of_set();
    vstd::seq_lib::seq_to_set_is_finite(ids);
    assert forall|gene: Gene| genes.to_set().contains(gene) implies ids.to_set().contains(gene) by {
        assert(individual.has_gene(gene));
        let k = choose|k: int| 0 <= k < tuples.len() && (#[trigger] tuples[k]).id == gene;
        assert(ids[k] == gene);
    }
    vstd::set_lib::lemma_len_subset(genes.to_set(), ids.to_set());
}

/// A timetable that schedules no gene twice, and only genes that the
/// catalog knows, has an adaptation within the range of `i32` as long as 40
/// times the square of the size of the catalog does not exceed 2^31.
pub proof fn lemma_fitness_in_range(individual: Individual, tuples: Seq<Tuple>)
    requires
        individual.is_duplicate_free(),
        covers(tuples, individual),
        40 * tuples.len() * tuples.len() <= PENALTY_LIMIT,
    ensures
        fitness_of(individual, tuples) >= i32::MIN,
{
    lemma_penalty_bounds(individual, tuples);
    lemma_gene_count_bound(individual, tuples);
    assert(40 * tuples.len() * individual.all_genes().len() <= 40 * tuples.len() * tuples.len())
        by (nonlinear_arith)
        requires
            individual.all_genes().len() <= tuples.len(),
    ;
}

} // verus!
