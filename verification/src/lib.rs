//! A genetic algorithm for school timetabling.
//!
//! A timetable assigns every class (a [`datatypes::Tuple`] of teacher, room and
//! subject) to one of a fixed number of periods. The library holds the genetic
//! operators that evolve a population of timetables, and the byte framing that
//! a fleet of workers uses to share that population.

pub mod collective;
pub mod config;
pub mod crossover;
pub mod datatypes;
pub mod evolution;
pub mod fitness;
pub mod mutation;
pub mod placement;
pub mod population;
pub mod random;
pub mod selection;
pub mod rows;
