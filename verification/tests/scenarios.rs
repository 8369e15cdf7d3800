use timetable::error::ScheduleError;
use timetable::grid::{Day, DAYS, DAY_LENGTH, ID};
use timetable::lesson::Lesson;
use timetable::school::School;

fn count(grid: &Vec<Day>, id: ID) -> usize {
    grid.iter().map(|day| day.iter().filter(|slot| **slot == id).count()).sum()
}

fn free_grid() -> Vec<Day> {
    vec![vec![0; DAY_LENGTH]; DAYS]
}

fn sample_school() -> School {
    let mut school = School::new();
    school.lessons.push(Lesson { id: 1, amount: 10, max_per_day: 2 });
    school.lessons.push(Lesson { id: 2, amount: 7, max_per_day: 2 });
    school.lessons.push(Lesson { id: 3, amount: 4, max_per_day: 1 });
    school.lessons.push(Lesson { id: 4, amount: 9, max_per_day: 2 });
    school.new_teacher(&vec![1, 2, 3, 4]);
    school.new_teacher(&vec![2]);
    school.new_teacher(&vec![3, 4]);
    school.new_teacher(&vec![1, 2, 3]);
    school.new_teacher(&vec![2, 3, 4]);
    school.new_teacher(&vec![4]);
    school.new_teacher(&vec![1]);
    school.new_class();
    school.new_class();
    school.new_class();
    school
}

#[test]
fn one_lesson_one_teacher_one_class() {
    let mut school = School::new();
    school.lessons.push(Lesson { id: 1, amount: 10, max_per_day: 2 });
    assert_eq!(school.new_teacher(&vec![1]), 1);
    assert_eq!(school.new_class(), 1);
    assert!(school.is_ready());
    assert_eq!(school.generate_timetables(), Ok(()));

    let class = &school.classes[0];
    assert_eq!(count(&class.week, 1), 10);
    for day in 0..DAYS {
        assert_eq!(class.week[day], vec![1, 1, 0, 0, 0, 0, 0, 0, 0, 0]);
        assert_eq!(school.teachers[0].timetable[day], vec![1, 1, 0, 0, 0, 0, 0, 0, 0, 0]);
    }
    assert_eq!(class.teachers, vec![0, 1]);
    assert_eq!(school.teachers[0].blocked_percentage(), 20);
}

#[test]
fn shared_teacher_runs_out_of_slots() {
    let mut school = School::new();
    school.lessons.push(Lesson { id: 1, amount: 30, max_per_day: 6 });
    school.new_teacher(&vec![1]);
    school.new_class();
    school.new_class();
    assert!(school.is_ready());
    assert_eq!(school.generate_timetables(), Err(ScheduleError::CapacityExceeded));

    // The first class got its whole amount within the short days.
    assert_eq!(count(&school.classes[0].week, 1), 30);
    for day in 0..DAYS {
        assert_eq!(school.classes[0].week[day], vec![1, 1, 1, 1, 1, 1, 0, 0, 0, 0]);
    }
    // The second class took what the teacher had left, in both passes.
    assert_eq!(count(&school.classes[1].week, 1), 20);
    for day in 0..DAYS {
        assert_eq!(school.classes[1].week[day], vec![0, 0, 0, 0, 0, 0, 1, 1, 1, 1]);
        assert_eq!(school.teachers[0].timetable[day], vec![1, 1, 1, 1, 1, 1, 2, 2, 2, 2]);
    }
    assert_eq!(school.classes[1].teachers, vec![0, 1]);
    assert_eq!(school.teachers[0].blocked_percentage(), 100);
}

#[test]
fn lesson_without_teacher() {
    let mut school = School::new();
    school.lessons.push(Lesson { id: 1, amount: 3, max_per_day: 1 });
    school.lessons.push(Lesson { id: 2, amount: 3, max_per_day: 1 });
    school.new_teacher(&vec![2]);
    school.new_class();
    let before = school.clone();
    assert!(school.is_ready());
    assert_eq!(school.generate_timetables(), Err(ScheduleError::NoEligibleTeacher));
    assert_eq!(school, before);
}

#[test]
fn lesson_without_teacher_after_one_with() {
    let mut school = School::new();
    school.lessons.push(Lesson { id: 1, amount: 2, max_per_day: 1 });
    school.lessons.push(Lesson { id: 2, amount: 3, max_per_day: 1 });
    school.lessons.push(Lesson { id: 3, amount: 1, max_per_day: 1 });
    school.new_teacher(&vec![1, 3]);
    school.new_class();
    school.new_class();
    assert_eq!(school.generate_timetables(), Err(ScheduleError::NoEligibleTeacher));

    // The first lesson of the first class was placed; nothing after it was.
    let mut week = free_grid();
    week[0][0] = 1;
    week[1][0] = 1;
    assert_eq!(school.classes[0].week, week);
    assert_eq!(school.classes[0].teachers, vec![0, 1, 0, 0]);
    assert_eq!(school.teachers[0].timetable, week);
    assert_eq!(school.classes[1].week, free_grid());
    assert_eq!(school.classes[1].teachers, vec![0, 0, 0, 0]);
}

#[test]
fn empty_catalog() {
    let mut school = School::new();
    school.new_teacher(&vec![1, 2]);
    school.new_class();
    let before = school.clone();
    assert!(school.is_ready());
    assert_eq!(school.generate_timetables(), Ok(()));
    assert_eq!(school, before);
    assert_eq!(school.classes[0].week, free_grid());
    assert_eq!(school.teachers[0].timetable, free_grid());
    assert_eq!(school.classes[0].teachers, vec![0]);
}

#[test]
fn school_without_classes() {
    let mut school = School::new();
    school.lessons.push(Lesson { id: 1, amount: 3, max_per_day: 1 });
    let before = school.clone();
    assert_eq!(school.generate_timetables(), Ok(()));
    assert_eq!(school, before);
}

#[test]
fn sample_school_of_three_classes() {
    let mut school = sample_school();
    assert!(school.is_ready());
    assert_eq!(school.generate_timetables(), Ok(()));

    assert_eq!(school.classes[0].teachers, vec![0, 1, 2, 3, 5]);
    assert_eq!(
        school.classes[0].week,
        vec![
            vec![1, 1, 2, 2, 3, 4, 4, 0, 0, 0],
            vec![1, 1, 2, 2, 3, 4, 4, 0, 0, 0],
            vec![1, 1, 2, 2, 3, 4, 4, 0, 0, 0],
            vec![1, 1, 2, 3, 4, 4, 0, 0, 0, 0],
            vec![1, 1, 4, 0, 0, 0, 0, 0, 0, 0],
        ]
    );
    assert_eq!(school.classes[1].teachers, vec![0, 4, 2, 3, 6]);
    assert_eq!(
        school.classes[1].week,
        vec![
            vec![1, 1, 3, 4, 2, 2, 4, 0, 0, 0],
            vec![1, 1, 3, 4, 2, 2, 4, 0, 0, 0],
            vec![1, 1, 3, 4, 2, 2, 4, 0, 0, 0],
            vec![1, 1, 3, 2, 4, 4, 0, 0, 0, 0],
            vec![1, 1, 4, 0, 0, 0, 0, 0, 0, 0],
        ]
    );
    // The fourth lesson of the third class needs the long days.
    assert_eq!(school.classes[2].teachers, vec![0, 7, 5, 3, 6]);
    assert_eq!(
        school.classes[2].week,
        vec![
            vec![1, 1, 2, 2, 4, 3, 0, 4, 0, 0],
            vec![1, 1, 2, 2, 4, 3, 0, 4, 0, 0],
            vec![1, 1, 2, 2, 4, 3, 0, 0, 0, 0],
            vec![1, 1, 2, 4, 3, 0, 4, 0, 0, 0],
            vec![1, 1, 0, 4, 4, 0, 0, 0, 0, 0],
        ]
    );

    let loads: Vec<u32> = school.teachers.iter().map(|t| t.blocked_percentage()).collect();
    assert_eq!(loads, vec![20, 28, 24, 20, 32, 36, 20]);
    assert_eq!(
        school.teachers[5].timetable,
        vec![
            vec![0, 0, 0, 2, 3, 0, 2, 3, 0, 0],
            vec![0, 0, 0, 2, 3, 0, 2, 3, 0, 0],
            vec![0, 0, 0, 2, 3, 0, 2, 0, 0, 0],
            vec![0, 0, 0, 3, 2, 2, 3, 0, 0, 0],
            vec![0, 0, 2, 3, 3, 0, 0, 0, 0, 0],
        ]
    );
    assert_eq!(
        school.teachers[2].timetable,
        vec![
            vec![0, 0, 2, 0, 1, 3, 0, 0, 0, 0],
            vec![0, 0, 2, 0, 1, 3, 0, 0, 0, 0],
            vec![0, 0, 2, 0, 1, 3, 0, 0, 0, 0],
            vec![0, 0, 2, 1, 3, 0, 0, 0, 0, 0],
            vec![0, 0, 0, 0, 0, 0, 0, 0, 0, 0],
        ]
    );
}

#[test]
fn two_lessons_and_a_second_class_that_does_not_fit() {
    let mut school = School::new();
    school.lessons.push(Lesson { id: 1, amount: 12, max_per_day: 3 });
    school.lessons.push(Lesson { id: 2, amount: 30, max_per_day: 6 });
    school.new_teacher(&vec![1, 2]);
    school.new_class();
    school.new_class();
    assert_eq!(school.generate_timetables(), Err(ScheduleError::CapacityExceeded));
    assert_eq!(
        school.classes[0].week,
        vec![
            vec![1, 1, 1, 2, 2, 2, 2, 2, 2, 0],
            vec![1, 1, 1, 2, 2, 2, 2, 2, 2, 0],
            vec![1, 1, 1, 2, 2, 2, 2, 2, 2, 0],
            vec![1, 1, 1, 2, 2, 2, 2, 2, 2, 0],
            vec![2, 2, 2, 2, 2, 2, 0, 0, 0, 0],
        ]
    );
    assert_eq!(school.classes[0].teachers, vec![0, 1, 1]);
    assert_eq!(
        school.classes[1].week,
        vec![
            vec![0, 0, 0, 0, 0, 0, 0, 0, 0, 1],
            vec![0, 0, 0, 0, 0, 0, 0, 0, 0, 1],
            vec![0, 0, 0, 0, 0, 0, 0, 0, 0, 1],
            vec![0, 0, 0, 0, 0, 0, 0, 0, 0, 1],
            vec![0, 0, 0, 0, 0, 0, 1, 1, 1, 0],
        ]
    );
    assert_eq!(school.classes[1].teachers, vec![0, 1, 0]);
    assert_eq!(school.teachers[0].blocked_percentage(), 98);
}
