use timetable_ga::config::{AlgorithmConfig, Fraction};
use timetable_ga::datatypes::{Chromosome, Individual, UNRATED};

#[test]
fn test_default_value_of_individuals() {
    let invidual = Individual::default();
    assert_eq!(invidual.adaptation, -1000);
    assert_eq!(invidual.chromosomes.len(), 0);
}

#[test]
fn test_individual_with_chromosomes() {
    let chromosomes = vec![Chromosome {
        id: 1,
        genes: vec![1, 2, 3],
    }];
    let individual = Individual::with_chromosomes(chromosomes);
    assert_eq!(individual.adaptation, -1000);
    assert_eq!(individual.chromosomes.len(), 1);
}

#[test]
fn with_chromosomes_keeps_the_periods_as_given() {
    let individual = Individual::with_chromosomes(vec![
        Chromosome { id: 0, genes: vec![7, 8] },
        Chromosome { id: 1, genes: vec![] },
    ]);
    assert_eq!(individual.chromosomes[0].id, 0);
    assert_eq!(individual.chromosomes[0].genes, vec![7, 8]);
    assert_eq!(individual.chromosomes[1].id, 1);
    assert!(individual.chromosomes[1].genes.is_empty());
}

#[test]
fn new_individual_is_unrated_and_empty() {
    let individual = Individual::new(10);
    assert_eq!(individual.adaptation, UNRATED);
    assert_eq!(UNRATED, -1000);
    assert!(individual.chromosomes.is_empty());
}

#[test]
fn new_chromosome_is_empty() {
    let chromosome = Chromosome::new(4);
    assert_eq!(chromosome.id, 4);
    assert!(chromosome.genes.is_empty());
    let default = Chromosome::default();
    assert_eq!(default.id, 0);
    assert!(default.genes.is_empty());
}

#[test]
fn contains_gene_looks_into_every_period() {
    let individual = Individual::with_chromosomes(vec![
        Chromosome { id: 0, genes: vec![1, 2] },
        Chromosome { id: 1, genes: vec![] },
        Chromosome { id: 2, genes: vec![3] },
    ]);
    assert!(individual.contains_gene(1));
    assert!(individual.contains_gene(3));
    assert!(!individual.contains_gene(4));
    assert!(individual.chromosomes[0].contains_gene(2));
    assert!(!individual.chromosomes[0].contains_gene(3));
}

#[test]
fn default_configuration() {
    let config = AlgorithmConfig::default();
    assert_eq!(config.max_generations, 100);
    assert_eq!(config.population_size, 100);
    assert_eq!(config.number_of_periods, 10);
    assert_eq!(config.crossover_probability, Fraction { numerator: 6, denominator: 10 });
    assert_eq!(config.mutation_probability, Fraction { numerator: 1, denominator: 100 });
    assert_eq!(config.dead_threshold, Fraction { numerator: 1, denominator: 10 });
}

#[test]
fn fractions_lie_between_zero_and_one() {
    assert_eq!(Fraction::new(1, 4), Some(Fraction { numerator: 1, denominator: 4 }));
    assert_eq!(Fraction::new(0, 1), Some(Fraction { numerator: 0, denominator: 1 }));
    assert_eq!(Fraction::new(3, 3), Some(Fraction { numerator: 3, denominator: 3 }));
    assert_eq!(Fraction::new(1, 0), None);
    assert_eq!(Fraction::new(5, 4), None);
}
