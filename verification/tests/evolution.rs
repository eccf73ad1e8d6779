use timetable_ga::config::{AlgorithmConfig, Fraction};
use timetable_ga::datatypes::{Chromosome, Individual, Tuple};
use timetable_ga::evolution::{adapt_population_size_to_worker_number, close_generation, offspring};
use timetable_ga::fitness::{calculate_fitness, FitnessError};

fn marked(adaptation: i32, mark: i32) -> Individual {
    Individual {
        adaptation,
        chromosomes: vec![Chromosome { id: 0, genes: vec![mark] }],
    }
}

fn marks(population: &Vec<Individual>) -> Vec<i32> {
    population.iter().map(|individual| individual.chromosomes[0].genes[0]).collect()
}

fn config(max_generations: usize) -> AlgorithmConfig {
    let mut config = AlgorithmConfig::default();
    config.max_generations = max_generations;
    config
}

#[test]
fn population_size_grows_to_a_multiple_of_the_workers() {
    assert_eq!(adapt_population_size_to_worker_number(100, 8), 104);
    assert_eq!(adapt_population_size_to_worker_number(100, 3), 102);
    assert_eq!(adapt_population_size_to_worker_number(1, 4), 4);
    assert_eq!(adapt_population_size_to_worker_number(5, 4), 8);
}

#[test]
fn a_population_size_that_divides_stays() {
    assert_eq!(adapt_population_size_to_worker_number(100, 4), 100);
    assert_eq!(adapt_population_size_to_worker_number(100, 1), 100);
    assert_eq!(adapt_population_size_to_worker_number(0, 4), 0);
    assert_eq!(adapt_population_size_to_worker_number(usize::MAX, 1), usize::MAX);
}

#[test]
fn closing_a_generation_ranks_the_population() {
    let mut population = vec![marked(-30, 0), marked(-10, 1), marked(-50, 2), marked(-10, 3)];
    let over = close_generation(&config(100), 0, &mut population);
    assert!(!over);
    assert_eq!(marks(&population), vec![1, 3, 0, 2]);
    let adaptations: Vec<i32> = population.iter().map(|i| i.adaptation).collect();
    assert_eq!(adaptations, vec![-10, -10, -30, -50]);
}

#[test]
fn the_run_is_over_after_the_last_generation() {
    let mut population = vec![marked(-30, 0), marked(-10, 1)];
    assert!(!close_generation(&config(3), 0, &mut population));
    assert!(!close_generation(&config(3), 1, &mut population));
    assert!(close_generation(&config(3), 2, &mut population));
    assert!(close_generation(&config(3), 7, &mut population));
    assert!(close_generation(&config(1), 0, &mut population));
    assert!(close_generation(&config(0), 0, &mut population));
    assert!(close_generation(&config(3), usize::MAX, &mut population));
}

#[test]
fn the_run_is_over_when_the_best_has_no_conflict() {
    let mut population = vec![marked(-30, 0), marked(0, 1), marked(-10, 2)];
    assert!(close_generation(&config(100), 0, &mut population));
    assert_eq!(marks(&population), vec![1, 2, 0]);
}

#[test]
fn an_empty_population_only_ends_with_the_generations() {
    let mut population: Vec<Individual> = Vec::new();
    assert!(!close_generation(&config(100), 0, &mut population));
    assert!(close_generation(&config(100), 99, &mut population));
}

fn catalog() -> Vec<Tuple> {
    let entry = |id: i32, teacher: &str, room: &str, label: &str| Tuple {
        id,
        label: label.to_string(),
        room: room.to_string(),
        teacher: teacher.to_string(),
    };
    vec![
        entry(1, "A", "101", "Math"),
        entry(2, "A", "102", "Art"),
        entry(3, "B", "101", "Math"),
        entry(4, "C", "103", "Music"),
        entry(5, "C", "103", "Music"),
        entry(6, "D", "104", "Sport"),
    ]
}

fn timetable(rows: Vec<Vec<i32>>) -> Individual {
    let mut chromosomes = Vec::new();
    for (id, genes) in rows.into_iter().enumerate() {
        chromosomes.push(Chromosome { id: id as i32, genes });
    }
    Individual { adaptation: -1000, chromosomes }
}

#[test]
fn offspring_are_complete_and_rated() {
    let tuples = catalog();
    let mut config = AlgorithmConfig::default();
    config.number_of_periods = 3;
    config.mutation_probability = Fraction { numerator: 1, denominator: 3 };
    let population = vec![
        timetable(vec![vec![1, 2], vec![3], vec![4, 5, 6]]),
        timetable(vec![vec![6, 5, 4, 3, 2, 1], vec![], vec![]]),
        timetable(vec![vec![], vec![2, 4, 6], vec![1, 3, 5]]),
    ];
    for _ in 0..100 {
        let child = offspring(&config, &population, &tuples, 0, 2).unwrap();
        assert_eq!(child.chromosomes.len(), 3);
        let mut genes: Vec<i32> = Vec::new();
        for chromosome in &child.chromosomes {
            genes.extend(chromosome.genes.iter());
        }
        genes.sort();
        assert_eq!(genes, vec![1, 2, 3, 4, 5, 6]);
        assert_eq!(child.adaptation, calculate_fitness(&child, &tuples));
        assert!(child.adaptation <= 0);
    }
}

#[test]
fn offspring_with_an_unknown_gene_are_turned_away() {
    let tuples = catalog();
    let mut config = AlgorithmConfig::default();
    config.number_of_periods = 2;
    let population = vec![timetable(vec![vec![1, 77], vec![2]]), timetable(vec![vec![2], vec![1, 77]])];
    let bred = offspring(&config, &population, &tuples, 0, 1);
    assert_eq!(bred.err(), Some(FitnessError::UnknownGene(77)));
}
