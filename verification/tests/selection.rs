use std::cmp::Ordering;
use timetable_ga::datatypes::{Chromosome, Individual};
use timetable_ga::selection::{by_adaptation_descending, rand_parents, ParentDraw};

fn marked(adaptation: i32, mark: i32) -> Individual {
    Individual {
        adaptation,
        chromosomes: vec![Chromosome { id: 0, genes: vec![mark] }],
    }
}

fn mark_of(individual: &Individual) -> i32 {
    individual.chromosomes[0].genes[0]
}

#[test]
fn the_better_adapted_comes_first() {
    let good = marked(-10, 0);
    let bad = marked(-30, 1);
    assert_eq!(by_adaptation_descending(&good, &bad), Ordering::Less);
    assert_eq!(by_adaptation_descending(&bad, &good), Ordering::Greater);
    assert_eq!(by_adaptation_descending(&good, &good), Ordering::Equal);
}

#[test]
fn parents_are_taken_by_rank() {
    let population = vec![marked(-30, 0), marked(-10, 1), marked(-50, 2), marked(0, 3)];
    let (mother, father) = rand_parents(&population, 0, 1);
    assert_eq!((mark_of(mother), mark_of(father)), (3, 1));
    let (mother, father) = rand_parents(&population, 3, 2);
    assert_eq!((mark_of(mother), mark_of(father)), (2, 0));
    let (mother, father) = rand_parents(&population, 1, 0);
    assert_eq!((mark_of(mother), mark_of(father)), (1, 3));
}

#[test]
fn equal_adaptations_keep_their_order() {
    let population = vec![marked(-30, 0), marked(-10, 1), marked(-10, 2), marked(-30, 3)];
    let (mother, father) = rand_parents(&population, 0, 1);
    assert_eq!((mark_of(mother), mark_of(father)), (1, 2));
    let (mother, father) = rand_parents(&population, 2, 3);
    assert_eq!((mark_of(mother), mark_of(father)), (0, 3));
}

#[test]
fn unrated_population_is_ranked_as_it_stands() {
    let population = vec![marked(-1000, 0), marked(-1000, 1), marked(-1000, 2)];
    let (mother, father) = rand_parents(&population, 2, 0);
    assert_eq!((mark_of(mother), mark_of(father)), (2, 0));
}

#[test]
fn the_second_draw_is_repeated_until_it_differs() {
    let mut state = ParentDraw::start();
    assert_eq!(state, ParentDraw::First);
    assert_eq!(state.chosen(), None);
    state = state.offer(3);
    assert_eq!(state, ParentDraw::Second { first: 3 });
    assert_eq!(state.chosen(), None);
    state = state.offer(3);
    assert_eq!(state, ParentDraw::Second { first: 3 });
    state = state.offer(3);
    assert_eq!(state.chosen(), None);
    state = state.offer(5);
    assert_eq!(state, ParentDraw::Done { first: 3, second: 5 });
    assert_eq!(state.chosen(), Some((3, 5)));
}

#[test]
fn a_finished_choice_ignores_further_draws() {
    let state = ParentDraw::start().offer(1).offer(0);
    assert_eq!(state.chosen(), Some((1, 0)));
    assert_eq!(state.offer(7).chosen(), Some((1, 0)));
    assert_eq!(state.offer(1).chosen(), Some((1, 0)));
}

#[test]
fn chosen_positions_always_differ() {
    let draws: [usize; 8] = [2, 2, 2, 2, 0, 2, 1, 0];
    for start in 0..draws.len() {
        let mut state = ParentDraw::start();
        for draw in &draws[start..] {
            state = state.offer(*draw);
        }
        if let Some((first, second)) = state.chosen() {
            assert_ne!(first, second);
        }
    }
}
