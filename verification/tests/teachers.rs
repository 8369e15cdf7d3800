use timetable::grid::{Day, DAYS, DAY_LENGTH};
use timetable::teacher::{registry_is_valid, select_teacher, Teacher};

fn free_grid() -> Vec<Day> {
    vec![vec![0; DAY_LENGTH]; DAYS]
}

fn teacher(id: usize, subjects: Vec<usize>, occupied: usize) -> Teacher {
    let mut timetable = free_grid();
    for slot in 0..occupied {
        timetable[slot / DAY_LENGTH][slot % DAY_LENGTH] = 1;
    }
    Teacher { id, subjects, timetable }
}

#[test]
fn blocked_percentage_rounds_down() {
    let mut timetable = free_grid();
    timetable[0][0] = 1;
    timetable[4][9] = 2;
    timetable[2][3] = 1;
    let teacher = Teacher { id: 1, subjects: vec![1], timetable };
    assert_eq!(teacher.blocked_percentage(), 6);
    let third = Teacher { id: 1, subjects: vec![], timetable: vec![vec![1, 0, 0]] };
    assert_eq!(third.blocked_percentage(), 33);
    let two_thirds = Teacher { id: 1, subjects: vec![], timetable: vec![vec![1], vec![0, 9]] };
    assert_eq!(two_thirds.blocked_percentage(), 66);
}

#[test]
fn blocked_percentage_of_free_and_full_timetables() {
    assert_eq!(teacher(1, vec![], 0).blocked_percentage(), 0);
    assert_eq!(teacher(1, vec![], 1).blocked_percentage(), 2);
    assert_eq!(teacher(1, vec![], 25).blocked_percentage(), 50);
    assert_eq!(teacher(1, vec![], 49).blocked_percentage(), 98);
    assert_eq!(teacher(1, vec![], 50).blocked_percentage(), 100);
}

#[test]
fn blocked_percentage_without_slots_is_zero() {
    let none = Teacher { id: 1, subjects: vec![], timetable: vec![] };
    assert_eq!(none.blocked_percentage(), 0);
    let empty_days = Teacher { id: 1, subjects: vec![], timetable: vec![vec![], vec![]] };
    assert_eq!(empty_days.blocked_percentage(), 0);
}

#[test]
fn teaches_looks_through_the_subjects() {
    let teacher = teacher(1, vec![3, 1, 4], 0);
    assert!(teacher.teaches(3));
    assert!(teacher.teaches(1));
    assert!(teacher.teaches(4));
    assert!(!teacher.teaches(2));
    assert!(!teacher.teaches(0));
    assert!(!Teacher { id: 1, subjects: vec![], timetable: free_grid() }.teaches(1));
}

#[test]
fn select_teacher_finds_nobody() {
    assert_eq!(select_teacher(&vec![], 1), None);
    let registry = vec![teacher(1, vec![2], 0), teacher(2, vec![3, 4], 0)];
    assert_eq!(select_teacher(&registry, 1), None);
}

#[test]
fn select_teacher_takes_the_least_loaded() {
    let registry = vec![
        teacher(1, vec![1], 10),
        teacher(2, vec![2], 0),
        teacher(3, vec![1, 2], 4),
        teacher(4, vec![1], 7),
    ];
    assert_eq!(select_teacher(&registry, 1), Some(2));
    assert_eq!(select_teacher(&registry, 2), Some(1));
}

#[test]
fn select_teacher_takes_the_first_of_equals() {
    let registry = vec![
        teacher(1, vec![1], 10),
        teacher(2, vec![1], 4),
        teacher(3, vec![1], 4),
        teacher(4, vec![1], 10),
    ];
    assert_eq!(select_teacher(&registry, 1), Some(1));
}

#[test]
fn select_teacher_accepts_a_full_timetable() {
    let registry = vec![teacher(1, vec![2], 0), teacher(2, vec![1], 50)];
    assert_eq!(select_teacher(&registry, 1), Some(1));
}

#[test]
fn select_teacher_goes_by_load_not_by_occupant() {
    let mut first = teacher(1, vec![1], 3);
    let mut second = teacher(2, vec![1], 3);
    first.timetable[0][0] = 17;
    second.timetable[4][4] = 99;
    second.timetable[0][0] = 0;
    let registry = vec![first, second];
    assert_eq!(registry[0].blocked_percentage(), registry[1].blocked_percentage());
    assert_eq!(select_teacher(&registry, 1), Some(0));
}

#[test]
fn registry_is_valid_checks_identifiers_and_shapes() {
    assert!(registry_is_valid(&vec![]));
    assert!(registry_is_valid(&vec![teacher(1, vec![], 0), teacher(2, vec![1], 5)]));
    assert!(!registry_is_valid(&vec![teacher(2, vec![], 0)]));
    assert!(!registry_is_valid(&vec![teacher(0, vec![], 0)]));
    assert!(!registry_is_valid(&vec![teacher(1, vec![], 0), teacher(1, vec![], 0)]));
    let short = Teacher { id: 1, subjects: vec![], timetable: vec![vec![0; DAY_LENGTH]; 4] };
    assert!(!registry_is_valid(&vec![short]));
    let mut narrow = teacher(1, vec![], 0);
    narrow.timetable[3].pop();
    assert!(!registry_is_valid(&vec![narrow]));
}
