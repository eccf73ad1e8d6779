use timetable_ga::config::{AlgorithmConfig, Fraction};
use timetable_ga::datatypes::{Chromosome, Individual};
use timetable_ga::mutation::mutate;

fn timetable(rows: Vec<Vec<i32>>) -> Individual {
    let mut chromosomes = Vec::new();
    for (id, genes) in rows.into_iter().enumerate() {
        chromosomes.push(Chromosome { id: id as i32, genes });
    }
    Individual { adaptation: -70, chromosomes }
}

fn rows_of(individual: &Individual) -> Vec<Vec<i32>> {
    individual.chromosomes.iter().map(|c| c.genes.clone()).collect()
}

fn sorted_genes(individual: &Individual) -> Vec<i32> {
    let mut genes: Vec<i32> = rows_of(individual).concat();
    genes.sort();
    genes
}

fn config(number_of_periods: usize, numerator: u32, denominator: u32) -> AlgorithmConfig {
    let mut config = AlgorithmConfig::default();
    config.number_of_periods = number_of_periods;
    config.mutation_probability = Fraction { numerator, denominator };
    config
}

#[test]
fn without_probability_nothing_mutates() {
    let rows = vec![vec![1, 2, 3], vec![], vec![4, 5], vec![6]];
    for _ in 0..100 {
        let mut individual = timetable(rows.clone());
        mutate(&config(4, 0, 100), &mut individual);
        assert_eq!(rows_of(&individual), rows);
        assert_eq!(individual.adaptation, -70);
    }
}

#[test]
fn without_probability_a_single_period_is_left_alone() {
    let mut individual = timetable(vec![vec![1, 2, 3]]);
    mutate(&config(1, 0, 1), &mut individual);
    assert_eq!(rows_of(&individual), vec![vec![1, 2, 3]]);
}

#[test]
fn mutation_keeps_every_gene() {
    for _ in 0..200 {
        let mut individual = timetable(vec![vec![1, 2, 3], vec![], vec![4, 5], vec![6, 6]]);
        mutate(&config(4, 1, 2), &mut individual);
        assert_eq!(sorted_genes(&individual), vec![1, 2, 3, 4, 5, 6, 6]);
        assert_eq!(individual.adaptation, -70);
        assert_eq!(individual.chromosomes.len(), 4);
        for (position, chromosome) in individual.chromosomes.iter().enumerate() {
            assert_eq!(chromosome.id, position as i32);
        }
    }
}

#[test]
fn a_certain_mutation_moves_one_gene_of_every_period_that_has_one() {
    for _ in 0..100 {
        let mut individual = timetable(vec![vec![1, 2, 3, 4], vec![]]);
        mutate(&config(2, 7, 7), &mut individual);
        // the first period gives one gene to the second, which then gives
        // its only gene back
        assert_eq!(sorted_genes(&individual), vec![1, 2, 3, 4]);
        assert_eq!(individual.chromosomes[0].genes.len(), 4);
        assert!(individual.chromosomes[1].genes.is_empty());
    }
}

#[test]
fn a_certain_mutation_changes_the_timetable() {
    let rows = vec![vec![1, 2, 3, 4], vec![], vec![]];
    let mut changed = false;
    for _ in 0..100 {
        let mut individual = timetable(rows.clone());
        mutate(&config(3, 1, 1), &mut individual);
        assert_eq!(sorted_genes(&individual), vec![1, 2, 3, 4]);
        if rows_of(&individual) != rows {
            changed = true;
        }
    }
    assert!(changed);
}

#[test]
fn move_gene_takes_from_one_period_and_appends_to_another() {
    let mut individual = timetable(vec![vec![1, 2, 3], vec![4], vec![5]]);
    individual.move_gene(0, 1, 2);
    assert_eq!(rows_of(&individual), vec![vec![1, 3], vec![4], vec![5, 2]]);
    individual.move_gene(2, 0, 1);
    assert_eq!(rows_of(&individual), vec![vec![1, 3], vec![4, 5], vec![2]]);
    assert_eq!(individual.adaptation, -70);
}

#[test]
fn other_periods_leave_out_the_one_named() {
    let individual = timetable(vec![vec![], vec![], vec![], vec![]]);
    assert_eq!(individual.other_periods(2), vec![0, 1, 3]);
    assert_eq!(individual.other_periods(0), vec![1, 2, 3]);
    assert_eq!(individual.other_periods(9), vec![0, 1, 2, 3]);
    assert_eq!(timetable(vec![vec![1]]).other_periods(0), Vec::<usize>::new());
}
