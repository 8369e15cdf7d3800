use timetable::error::ScheduleError;
use timetable::grid::{Day, DAYS, DAY_LENGTH, ID};
use timetable::lesson::Lesson;
use timetable::school::School;
use timetable::teacher::select_teacher;

fn count(grid: &Vec<Day>, id: ID) -> usize {
    grid.iter().map(|day| day.iter().filter(|slot| **slot == id).count()).sum()
}

fn count_on(grid: &Vec<Day>, day: usize, id: ID) -> usize {
    grid[day].iter().filter(|slot| **slot == id).count()
}

fn school(lessons: Vec<Lesson>, subjects: Vec<Vec<ID>>, classes: usize) -> School {
    let mut school = School::new();
    for lesson in lessons {
        school.lessons.push(lesson);
    }
    for subjects in subjects.iter() {
        school.new_teacher(subjects);
    }
    for _ in 0..classes {
        school.new_class();
    }
    assert!(school.is_ready());
    school
}

fn sample_school() -> School {
    school(
        vec![
            Lesson { id: 1, amount: 10, max_per_day: 2 },
            Lesson { id: 2, amount: 7, max_per_day: 2 },
            Lesson { id: 3, amount: 4, max_per_day: 1 },
            Lesson { id: 4, amount: 9, max_per_day: 2 },
        ],
        vec![vec![1, 2, 3, 4], vec![2], vec![3, 4], vec![1, 2, 3], vec![2, 3, 4], vec![4], vec![1]],
        3,
    )
}

fn crowded_school() -> School {
    school(
        vec![
            Lesson { id: 1, amount: 12, max_per_day: 3 },
            Lesson { id: 2, amount: 14, max_per_day: 3 },
            Lesson { id: 3, amount: 9, max_per_day: 2 },
        ],
        vec![vec![1, 2], vec![2, 3], vec![1, 3]],
        4,
    )
}

/// Every occupied slot of every class holds, in the grid of the teacher bound
/// to its lesson, the class's identifier.
fn assert_bookings_matched(school: &School) {
    for class in school.classes.iter() {
        for day in 0..DAYS {
            for period in 0..DAY_LENGTH {
                let lesson = class.week[day][period];
                if lesson != 0 {
                    let teacher = class.teachers[lesson];
                    assert!(1 <= teacher && teacher <= school.teachers.len());
                    assert_eq!(school.teachers[teacher - 1].timetable[day][period], class.id);
                    assert!(school.teachers[teacher - 1].subjects.contains(&lesson));
                }
            }
        }
    }
}

fn assert_within_limits(school: &School) {
    for class in school.classes.iter() {
        for lesson in school.lessons.iter() {
            for day in 0..DAYS {
                assert!(count_on(&class.week, day, lesson.id) <= lesson.max_per_day as usize);
            }
        }
    }
}

#[test]
fn weekly_amount_is_met_in_the_sample_school() {
    let mut school = sample_school();
    assert_eq!(school.generate_timetables(), Ok(()));
    for class in school.classes.iter() {
        for lesson in school.lessons.iter() {
            assert_eq!(count(&class.week, lesson.id), lesson.amount as usize);
        }
        assert_eq!(count(&class.week, 0), 50 - 30);
    }
}

#[test]
fn daily_limit_is_kept_in_the_sample_school() {
    let mut school = sample_school();
    assert_eq!(school.generate_timetables(), Ok(()));
    assert_within_limits(&school);
    // The lesson that needed the long days reaches its limit, and no more.
    assert_eq!(count_on(&school.classes[2].week, 0, 4), 2);
    assert_eq!(count_on(&school.classes[2].week, 4, 4), 2);
}

#[test]
fn daily_limit_is_kept_when_generation_fails() {
    let mut school = crowded_school();
    assert_eq!(school.generate_timetables(), Err(ScheduleError::CapacityExceeded));
    assert_within_limits(&school);
}

#[test]
fn bookings_are_matched_in_the_sample_school() {
    let mut school = sample_school();
    assert_bookings_matched(&school);
    assert_eq!(school.generate_timetables(), Ok(()));
    assert_bookings_matched(&school);
}

#[test]
fn bookings_are_matched_when_generation_fails() {
    let mut school = crowded_school();
    assert_eq!(school.generate_timetables(), Err(ScheduleError::CapacityExceeded));
    assert_bookings_matched(&school);
}

#[test]
fn no_teacher_is_in_two_classes_at_once() {
    let mut school = sample_school();
    assert_eq!(school.generate_timetables(), Ok(()));
    for a in 0..school.classes.len() {
        for b in 0..school.classes.len() {
            for day in 0..DAYS {
                for period in 0..DAY_LENGTH {
                    let first = school.classes[a].week[day][period];
                    let second = school.classes[b].week[day][period];
                    if a != b && first != 0 && second != 0 {
                        assert_ne!(
                            school.classes[a].teachers[first],
                            school.classes[b].teachers[second]
                        );
                    }
                }
            }
        }
    }
}

#[test]
fn bookings_of_the_registry_are_never_overwritten() {
    let mut school = sample_school();
    school.teachers[0].timetable[0][0] = 9;
    school.teachers[3].timetable[2][5] = 8;
    school.teachers[6].timetable[4][9] = 7;
    let before = school.teachers.clone();
    assert!(school.is_ready());
    assert_eq!(school.generate_timetables(), Ok(()));
    for (teacher, old) in school.teachers.iter().zip(before.iter()) {
        assert_eq!(teacher.id, old.id);
        assert_eq!(teacher.subjects, old.subjects);
        for day in 0..DAYS {
            for period in 0..DAY_LENGTH {
                if old.timetable[day][period] != 0 {
                    assert_eq!(teacher.timetable[day][period], old.timetable[day][period]);
                }
            }
        }
    }
    assert_eq!(school.teachers[0].timetable[0][0], 9);
}

#[test]
fn generation_is_deterministic() {
    let mut first = sample_school();
    let mut second = sample_school();
    assert_eq!(first.generate_timetables(), second.generate_timetables());
    assert_eq!(first, second);

    let mut third = crowded_school();
    let mut fourth = crowded_school();
    assert_eq!(third.generate_timetables(), fourth.generate_timetables());
    assert_eq!(third, fourth);
}

#[test]
fn selection_is_the_same_for_equal_registries() {
    let mut school = sample_school();
    assert_eq!(school.generate_timetables(), Ok(()));
    let copy = school.teachers.clone();
    for lesson in 0..6 {
        assert_eq!(select_teacher(&school.teachers, lesson), select_teacher(&copy, lesson));
    }
    // Loads are 20, 28, 24, 20, 32, 36, 20.
    assert_eq!(select_teacher(&school.teachers, 1), Some(0));
    assert_eq!(select_teacher(&school.teachers, 2), Some(0));
    assert_eq!(select_teacher(&school.teachers, 4), Some(0));
    assert_eq!(select_teacher(&school.teachers, 5), None);
}

#[test]
fn a_second_generation_adds_the_amounts_again() {
    let mut school = school(
        vec![Lesson { id: 1, amount: 4, max_per_day: 2 }, Lesson { id: 2, amount: 3, max_per_day: 3 }],
        vec![vec![1, 2]],
        1,
    );
    assert_eq!(school.generate_timetables(), Ok(()));
    assert_eq!(count(&school.classes[0].week, 1), 4);
    assert_eq!(count(&school.classes[0].week, 2), 3);
    assert_eq!(school.generate_timetables(), Ok(()));
    assert_eq!(count(&school.classes[0].week, 1), 8);
    assert_eq!(count(&school.classes[0].week, 2), 6);
    assert_within_limits(&school);
    assert_bookings_matched(&school);
}

#[test]
fn lessons_that_share_an_identifier_add_up() {
    let mut school = School::new();
    school.lessons.push(Lesson { id: 1, amount: 2, max_per_day: 1 });
    school.lessons.push(Lesson { id: 1, amount: 3, max_per_day: 3 });
    school.new_teacher(&vec![1]);
    school.new_class();
    assert!(school.is_ready());
    assert_eq!(school.generate_timetables(), Ok(()));
    assert_eq!(count(&school.classes[0].week, 1), 5);
    assert_eq!(school.classes[0].week[0], vec![1, 1, 1, 0, 0, 0, 0, 0, 0, 0]);
    assert_eq!(school.classes[0].week[1], vec![1, 1, 0, 0, 0, 0, 0, 0, 0, 0]);
}
