use timetable_ga::config::AlgorithmConfig;
use timetable_ga::datatypes::{Individual, Tuple};
use timetable_ga::placement::random_slots;
use timetable_ga::population::{create_first_population, create_individual, tuple_ids};
use timetable_ga::random::get_random_generator;

fn catalog(count: i32) -> Vec<Tuple> {
    (0..count)
        .map(|id| Tuple {
            id: 100 + id,
            label: format!("subject {}", id % 3),
            room: format!("room {}", id % 4),
            teacher: format!("teacher {}", id % 5),
        })
        .collect()
}

fn config(population_size: usize, number_of_periods: usize) -> AlgorithmConfig {
    let mut config = AlgorithmConfig::default();
    config.population_size = population_size;
    config.number_of_periods = number_of_periods;
    config
}

#[test]
fn the_first_population_has_the_configured_shape() {
    let tuples = catalog(25);
    let population = create_first_population(&config(12, 7), &tuples);
    assert_eq!(population.len(), 12);
    for individual in &population {
        assert_eq!(individual.adaptation, -1000);
        assert_eq!(individual.chromosomes.len(), 7);
        for (position, chromosome) in individual.chromosomes.iter().enumerate() {
            assert_eq!(chromosome.id, position as i32);
        }
    }
}

#[test]
fn the_default_configuration_gives_a_hundred_timetables_of_ten_periods() {
    let population = create_first_population(&AlgorithmConfig::default(), &catalog(40));
    assert_eq!(population.len(), 100);
    for individual in &population {
        assert_eq!(individual.chromosomes.len(), 10);
    }
}

#[test]
fn every_class_is_placed_exactly_once() {
    let tuples = catalog(25);
    let expected: Vec<i32> = (100..125).collect();
    for individual in create_first_population(&config(20, 4), &tuples) {
        let mut genes: Vec<i32> = Vec::new();
        for chromosome in &individual.chromosomes {
            // within a period the classes keep the order of the catalog
            for pair in chromosome.genes.windows(2) {
                assert!(pair[0] < pair[1]);
            }
            genes.extend(chromosome.genes.iter());
        }
        genes.sort();
        assert_eq!(genes, expected);
    }
}

#[test]
fn placements_differ_between_individuals() {
    let tuples = catalog(30);
    let population = create_first_population(&config(10, 5), &tuples);
    let rows = |individual: &Individual| -> Vec<Vec<i32>> {
        individual.chromosomes.iter().map(|c| c.genes.clone()).collect()
    };
    let first = rows(&population[0]);
    assert!(population.iter().any(|individual| rows(individual) != first));
}

#[test]
fn an_empty_catalog_gives_empty_periods() {
    let population = create_first_population(&config(3, 2), &[]);
    assert_eq!(population.len(), 3);
    for individual in &population {
        assert_eq!(individual.chromosomes.len(), 2);
        assert!(individual.chromosomes.iter().all(|c| c.genes.is_empty()));
    }
}

#[test]
fn no_periods_and_no_classes_give_empty_timetables() {
    let population = create_first_population(&config(2, 0), &[]);
    assert_eq!(population.len(), 2);
    assert!(population.iter().all(|individual| individual.chromosomes.is_empty()));
}

#[test]
fn a_population_of_size_zero_is_empty() {
    assert!(create_first_population(&config(0, 5), &catalog(3)).is_empty());
    assert!(create_first_population(&config(0, 0), &catalog(3)).is_empty());
}

#[test]
fn tuple_ids_follow_the_catalog() {
    assert_eq!(tuple_ids(&catalog(4)), vec![100, 101, 102, 103]);
    assert_eq!(tuple_ids(&[]), Vec::<i32>::new());
}

#[test]
fn create_individual_follows_the_slots() {
    let individual = create_individual(3, &vec![10, 11, 12, 13, 14], &vec![2, 0, 2, 1, 0]);
    assert_eq!(individual.adaptation, -1000);
    assert_eq!(individual.chromosomes.len(), 3);
    assert_eq!(individual.chromosomes[0].genes, vec![11, 14]);
    assert_eq!(individual.chromosomes[1].genes, vec![13]);
    assert_eq!(individual.chromosomes[2].genes, vec![10, 12]);
}

#[test]
fn place_genes_appends_to_what_is_there() {
    let mut individual = create_individual(2, &vec![1, 2, 3], &vec![0, 1, 0]);
    individual.adaptation = -5;
    individual.place_genes(&vec![7, 8, 9], &vec![1, 1, 0]);
    assert_eq!(individual.chromosomes[0].genes, vec![1, 3, 9]);
    assert_eq!(individual.chromosomes[1].genes, vec![2, 7, 8]);
    assert_eq!(individual.adaptation, -5);
}

#[test]
fn random_slots_name_existing_periods() {
    let mut rng = get_random_generator();
    let slots = random_slots(&mut rng, 1000, 3);
    assert_eq!(slots.len(), 1000);
    assert!(slots.iter().all(|slot| *slot < 3));
    for period in 0..3 {
        assert!(slots.contains(&period));
    }
    assert!(random_slots(&mut rng, 0, 0).is_empty());
    assert_eq!(random_slots(&mut rng, 4, 1), vec![0, 0, 0, 0]);
}
