//! The parameters of a run.

use vstd::prelude::*;

verus! {

/// A share of a whole, written as `numerator / denominator`.
///
/// Probabilities and thresholds are kept as exact fractions, so that a zero
/// and a one are told apart from what lies between them.
#[derive(Debug, Clone, Copy, PartialEq, Eq, Structural)]
pub struct Fraction {
    pub numerator: u32,
    pub denominator: u32,
}

impl Fraction {
    /// The fraction lies between zero and one, both included.
    pub open spec fn is_valid(&self) -> bool {
        0 < self.denominator && self.numerator <= self.denominator
    }

    /// The fraction is zero.
    pub open spec fn is_zero(&self) -> bool {
        self.numerator == 0
    }

    /// The fraction `numerator / denominator`, if it lies between zero and one.
    pub fn new(numerator: u32, denominator: u32) -> (fraction: Option<Self>)
        ensures
            fraction.is_some() <==> 0 < denominator && numerator <= denominator,
            fraction.is_some() ==> fraction.unwrap() == (Fraction { numerator, denominator }),
    {
        if 0 < denominator && numerator <= denominator {
            Some(Fraction { numerator, denominator })
        } else {
            None
        }
    }
}

/// Configuration of the genetic algorithm.
#[derive(Debug, Clone, Copy, PartialEq, Eq, Structural)]
pub struct AlgorithmConfig {
    /// How many generations to run at most.
    pub max_generations: usize,
    /// How many individuals the population has.
    pub population_size: usize,
    /// How many periods (chromosomes) each individual has.
    pub number_of_periods: usize,
    /// The probability of crossover occurring.
    pub crossover_probability: Fraction,
    /// The probability that a chromosome mutates.
    pub mutation_probability: Fraction,
    /// A child whose adaptation is worse than this threshold is dead.
    pub dead_threshold: Fraction,
}

impl AlgorithmConfig {
    /// The three fractions of the configuration are valid.
    pub open spec fn is_valid(&self) -> bool {
        &&& self.crossover_probability.is_valid()
        &&& self.mutation_probability.is_valid()
        &&& self.dead_threshold.is_valid()
    }
}

impl Default for AlgorithmConfig {
    /// A hundred generations of a hundred individuals with ten periods;
    /// crossover at 6/10, mutation at 1/100, the dead threshold at 1/10.
    fn default() -> (config: Self)
        ensures
            config == (AlgorithmConfig {
                max_generations: 100,
                population_size: 100,
                number_of_periods: 10,
                crossover_probability: Fraction { numerator: 6, denominator: 10 },
                mutation_probability: Fraction { numerator: 1, denominator: 100 },
                dead_threshold: Fraction { numerator: 1, denominator: 10 },
            }),
            config.is_valid(),
    {
        AlgorithmConfig {
            max_generations: 100,
            population_size: 100,
            number_of_periods: 10,
            crossover_probability: Fraction { numerator: 6, denominator: 10 },
            mutation_probability: Fraction { numerator: 1, denominator: 100 },
            dead_threshold: Fraction { numerator: 1, denominator: 10 },
        }
    }
}

} // verus!
