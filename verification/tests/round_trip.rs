use rustc_serialize::json;
use timetable::class::Class;
use timetable::grid::{Day, ID};
use timetable::lesson::Lesson;
use timetable::school::School;
use timetable::teacher::Teacher;

// The school in plain values that the JSON encoder and decoder know:
// classes, teachers and lessons, each with its fields in order.
type ClassRecord = (ID, Vec<Day>, Vec<ID>);
type TeacherRecord = (ID, Vec<ID>, Vec<Day>);
type LessonRecord = (ID, u8, u8);
type SchoolRecord = (Vec<ClassRecord>, Vec<TeacherRecord>, Vec<LessonRecord>);

fn to_record(school: &School) -> SchoolRecord {
    (
        school.classes.iter().map(|c| (c.id, c.week.clone(), c.teachers.clone())).collect(),
        school.teachers.iter().map(|t| (t.id, t.subjects.clone(), t.timetable.clone())).collect(),
        school.lessons.iter().map(|l| (l.id, l.amount, l.max_per_day)).collect(),
    )
}

fn from_record(record: SchoolRecord) -> School {
    School {
        classes: record
            .0
            .into_iter()
            .map(|(id, week, teachers)| Class { id, week, teachers })
            .collect(),
        teachers: record
            .1
            .into_iter()
            .map(|(id, subjects, timetable)| Teacher { id, subjects, timetable })
            .collect(),
        lessons: record
            .2
            .into_iter()
            .map(|(id, amount, max_per_day)| Lesson { id, amount, max_per_day })
            .collect(),
    }
}

fn generated_school() -> School {
    let mut school = School::new();
    school.lessons.push(Lesson { id: 1, amount: 10, max_per_day: 2 });
    school.lessons.push(Lesson { id: 2, amount: 7, max_per_day: 2 });
    school.new_teacher(&vec![1, 2]);
    school.new_teacher(&vec![2]);
    school.new_class();
    school.new_class();
    assert_eq!(school.generate_timetables(), Ok(()));
    school
}

#[test]
fn school_survives_json() {
    let school = generated_school();
    let text = json::encode(&to_record(&school)).unwrap();
    let record: SchoolRecord = json::decode(&text).unwrap();
    let decoded = from_record(record);
    assert_eq!(decoded, school);
    assert!(decoded.is_ready());
    assert_eq!(json::encode(&to_record(&decoded)).unwrap(), text);
}

#[test]
fn empty_school_survives_json() {
    let school = School::new();
    let text = json::encode(&to_record(&school)).unwrap();
    assert_eq!(text, "[[],[],[]]");
    let record: SchoolRecord = json::decode(&text).unwrap();
    assert_eq!(from_record(record), school);
}

#[test]
fn decoded_school_can_be_generated() {
    let mut school = School::new();
    school.lessons.push(Lesson { id: 1, amount: 3, max_per_day: 1 });
    school.new_teacher(&vec![1]);
    school.new_class();
    let text = json::encode(&to_record(&school)).unwrap();
    let record: SchoolRecord = json::decode(&text).unwrap();
    let mut decoded = from_record(record);
    assert!(decoded.is_ready());
    assert_eq!(decoded.generate_timetables(), school.generate_timetables());
    assert_eq!(decoded, school);
}
