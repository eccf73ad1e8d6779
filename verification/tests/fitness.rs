use timetable_ga::datatypes::{Chromosome, Individual, Tuple};
use timetable_ga::fitness::{
    calculate_fitness, checked_fitness, conflict_between, find_tuple, penalty_of_gene,
    FitnessError,
};

fn tuple(id: i32, teacher: &str, room: &str, label: &str) -> Tuple {
    Tuple {
        id,
        label: label.to_string(),
        room: room.to_string(),
        teacher: teacher.to_string(),
    }
}

fn one_period(genes: Vec<i32>) -> Individual {
    Individual::with_chromosomes(vec![Chromosome { id: 0, genes }])
}

#[test]
fn two_identical_classes_in_one_period() {
    let tuples = vec![tuple(1, "A", "101", "Math"), tuple(2, "A", "101", "Math")];
    // each of the two counts the other: 10 for the room, 10 for the teacher
    assert_eq!(conflict_between(&tuples[0], &tuples[1]), 20);
    assert_eq!(conflict_between(&tuples[1], &tuples[0]), 20);
    let individual = one_period(vec![1, 2]);
    assert_eq!(penalty_of_gene(&individual.chromosomes[0], &tuples[0], &tuples), 20);
    assert_eq!(calculate_fitness(&individual, &tuples), -40);
    assert_eq!(checked_fitness(&individual, &tuples), Ok(-40));
}

#[test]
fn identical_classes_in_different_periods_cost_nothing() {
    let tuples = vec![tuple(1, "A", "101", "Math"), tuple(2, "A", "101", "Math")];
    let individual = Individual::with_chromosomes(vec![
        Chromosome { id: 0, genes: vec![1] },
        Chromosome { id: 1, genes: vec![2] },
    ]);
    assert_eq!(calculate_fitness(&individual, &tuples), 0);
}

#[test]
fn classes_without_a_shared_room_or_teacher_score_zero() {
    let tuples = vec![
        tuple(1, "A", "101", "Math"),
        tuple(2, "B", "102", "Math"),
        tuple(3, "C", "103", "Art"),
        tuple(4, "A", "102", "Art"),
    ];
    let individual = Individual::with_chromosomes(vec![
        Chromosome { id: 0, genes: vec![1, 2, 3] },
        Chromosome { id: 1, genes: vec![4] },
        Chromosome { id: 2, genes: vec![] },
    ]);
    assert_eq!(calculate_fitness(&individual, &tuples), 0);
}

#[test]
fn an_empty_timetable_scores_zero() {
    let tuples = vec![tuple(1, "A", "101", "Math")];
    assert_eq!(calculate_fitness(&Individual::default(), &tuples), 0);
    assert_eq!(calculate_fitness(&one_period(vec![]), &tuples), 0);
    assert_eq!(calculate_fitness(&one_period(vec![1]), &tuples), 0);
}

#[test]
fn a_shared_room_with_different_teachers_costs_twenty() {
    let a = tuple(1, "A", "101", "Math");
    let b = tuple(2, "B", "101", "Math");
    assert_eq!(conflict_between(&a, &b), 20);
    assert_eq!(calculate_fitness(&one_period(vec![1, 2]), &vec![a, b]), -40);
}

#[test]
fn a_shared_teacher_with_different_subjects_costs_twenty() {
    let a = tuple(1, "A", "101", "Math");
    let b = tuple(2, "A", "102", "Art");
    assert_eq!(conflict_between(&a, &b), 20);
    assert_eq!(calculate_fitness(&one_period(vec![1, 2]), &vec![a, b]), -40);
}

#[test]
fn a_shared_teacher_with_the_same_subject_costs_ten() {
    let a = tuple(1, "A", "101", "Math");
    let b = tuple(2, "A", "102", "Math");
    assert_eq!(conflict_between(&a, &b), 10);
    assert_eq!(calculate_fitness(&one_period(vec![1, 2]), &vec![a, b]), -20);
}

#[test]
fn a_shared_room_and_teacher_with_different_subjects_costs_thirty() {
    let a = tuple(1, "A", "101", "Math");
    let b = tuple(2, "A", "101", "Art");
    assert_eq!(conflict_between(&a, &b), 30);
    assert_eq!(calculate_fitness(&one_period(vec![1, 2]), &vec![a, b]), -60);
}

#[test]
fn classes_that_share_nothing_cost_nothing() {
    let a = tuple(1, "A", "101", "Math");
    let b = tuple(2, "B", "102", "Math");
    assert_eq!(conflict_between(&a, &b), 0);
}

#[test]
fn three_classes_in_one_room() {
    let tuples = vec![
        tuple(1, "A", "101", "Math"),
        tuple(2, "B", "101", "Art"),
        tuple(3, "C", "101", "Music"),
        tuple(4, "D", "101", "Sport"),
    ];
    // the three scheduled classes count two rivals each, at 20; the fourth
    // class is not scheduled and counts for nothing
    assert_eq!(calculate_fitness(&one_period(vec![1, 2, 3]), &tuples), -120);
}

#[test]
fn a_class_is_no_rival_of_itself() {
    let tuples = vec![tuple(1, "A", "101", "Math"), tuple(2, "B", "102", "Art")];
    // the same class scheduled twice in one period meets no other id
    assert_eq!(calculate_fitness(&one_period(vec![1, 1]), &tuples), 0);
}

#[test]
fn periods_add_up() {
    let tuples = vec![
        tuple(1, "A", "101", "Math"),
        tuple(2, "A", "101", "Math"),
        tuple(3, "B", "102", "Art"),
        tuple(4, "C", "102", "Art"),
    ];
    let individual = Individual::with_chromosomes(vec![
        Chromosome { id: 0, genes: vec![1, 2] },
        Chromosome { id: 1, genes: vec![3, 4] },
    ]);
    assert_eq!(calculate_fitness(&individual, &tuples), -80);
}

#[test]
fn find_tuple_gives_the_first_entry_with_the_id() {
    let tuples = vec![
        tuple(5, "A", "101", "Math"),
        tuple(7, "B", "102", "Art"),
        tuple(7, "C", "103", "Music"),
    ];
    assert_eq!(find_tuple(&tuples, 5), Some(0));
    assert_eq!(find_tuple(&tuples, 7), Some(1));
    assert_eq!(find_tuple(&tuples, 6), None);
}

#[test]
fn an_unknown_gene_is_reported() {
    let tuples = vec![tuple(1, "A", "101", "Math")];
    let individual = one_period(vec![1, 9]);
    assert_eq!(checked_fitness(&individual, &tuples), Err(FitnessError::UnknownGene(9)));
}

#[test]
fn a_cost_beyond_the_range_is_reported() {
    // every copy of class 1 counts class 2 at 30, and class 2 counts class 1 once
    let tuples = vec![tuple(1, "A", "101", "Math"), tuple(2, "A", "101", "Art")];
    let copies: usize = 71_582_789;
    let mut genes = vec![1; copies + 1];
    genes[0] = 2;
    let individual = one_period(genes);
    assert_eq!(checked_fitness(&individual, &tuples), Err(FitnessError::OutOfRange));
}
