//! What holds of every school whose timetables are generated.

use vstd::prelude::*;
use crate::assignment::{
    lemma_assign_upto_counts, lemma_assign_upto_keeps, lemma_assign_upto_within_limits,
    lemma_class_keeps_bindings, lemma_keeps_bookings_chain, lemma_stays_booked,
};
use crate::grid::{grid_occurrences, occurrences, DAYS, DAY_LENGTH, ID};
use crate::lesson::{ids_distinct, lemma_weekly_amount_of_distinct, weekly_amount};
use crate::school::SchoolView;
use crate::teacher::{
    has_candidate, is_pick, keeps_bookings, lemma_pick_exists, lemma_pick_is, pick, TeacherView,
};

verus! {

/// What generating the timetables of the first `n` classes keeps: the
/// catalog, the number of classes and their identifiers, the shapes and the
/// validity of the bindings, every booking of the registry, and the classes
/// that are not yet reached.
pub proof fn lemma_generate_upto_keeps(school: SchoolView, n: int)
    requires
        school.wf(),
        school.catalog_covered(),
        0 <= n <= school.classes.len(),
    ensures
        ({
            let generated = school.generate_upto(n);
            &&& generated.school.wf()
            &&& generated.school.catalog_covered()
            &&& generated.school.lessons == school.lessons
            &&& generated.school.classes.len() == school.classes.len()
            &&& keeps_bookings(school.teachers, generated.school.teachers)
            &&& forall|c: int|
                n <= c < school.classes.len() ==> (#[trigger] generated.school.classes[c])
                    == school.classes[c]
            &&& n > 0 && generated.result is Ok ==> school.generate_upto(n - 1).result is Ok
        }),
    decreases n,
{
    if n > 0 {
        lemma_generate_upto_keeps(school, n - 1);
        let before = school.generate_upto(n - 1);
        if before.result is Ok {
            let class = before.school.classes[n - 1];
            assert(class.wf());
            let catalog = before.school.lessons;
            lemma_assign_upto_keeps(class, catalog, before.school.teachers, catalog.len() as int);
            let outcome = class.assign_all(catalog, before.school.teachers);
            let after = school.generate_upto(n).school;
            lemma_keeps_bookings_chain(
                school.teachers,
                before.school.teachers,
                outcome.registry,
            );
            assert forall|c: int| 0 <= c < after.classes.len() implies {
                &&& (#[trigger] after.classes[c]).wf()
                &&& after.classes[c].id == c + 1
                &&& after.classes[c].bindings_valid(after.teachers)
                &&& after.classes[c].covers(after.lessons)
            } by {
                if c != n - 1 {
                    assert(before.school.classes[c].wf());
                    lemma_class_keeps_bindings(
                        before.school.classes[c],
                        before.school.teachers,
                        after.teachers,
                    );
                }
            }
        }
    }
}

/// Generating the timetables of the first `n` classes keeps every occupied
/// slot of every class matched in the registry.
pub proof fn lemma_generate_upto_consistent(school: SchoolView, n: int)
    requires
        school.wf(),
        school.catalog_covered(),
        school.consistent(),
        0 <= n <= school.classes.len(),
    ensures
        school.generate_upto(n).school.consistent(),
    decreases n,
{
    if n > 0 {
        lemma_generate_upto_keeps(school, n - 1);
        lemma_generate_upto_consistent(school, n - 1);
        let before = school.generate_upto(n - 1);
        if before.result is Ok {
            let class = before.school.classes[n - 1];
            assert(class.wf());
            assert(class.booked_with(before.school.teachers));
            let catalog = before.school.lessons;
            lemma_assign_upto_keeps(class, catalog, before.school.teachers, catalog.len() as int);
            let after = school.generate_upto(n).school;
            assert forall|c: int| 0 <= c < after.classes.len() implies (
            #[trigger] after.classes[c]).booked_with(after.teachers) by {
                if c != n - 1 {
                    assert(before.school.classes[c].wf());
                    assert(before.school.classes[c].booked_with(before.school.teachers));
                    lemma_stays_booked(
                        before.school.classes[c],
                        before.school.teachers,
                        after.teachers,
                    );
                }
            }
        }
    }
}

/// Generating the timetables of the first `n` classes keeps every class
/// within the limits per day of a catalog without repeated identifiers.
pub proof fn lemma_generate_upto_within_limits(school: SchoolView, n: int)
    requires
        school.wf(),
        school.catalog_covered(),
        ids_distinct(school.lessons),
        school.within_limits(),
        0 <= n <= school.classes.len(),
    ensures
        school.generate_upto(n).school.within_limits(),
    decreases n,
{
    if n > 0 {
        lemma_generate_upto_keeps(school, n - 1);
        lemma_generate_upto_within_limits(school, n - 1);
        let before = school.generate_upto(n - 1);
        if before.result is Ok {
            let class = before.school.classes[n - 1];
            assert(class.wf());
            assert(class.within_limits(before.school.lessons));
            let catalog = before.school.lessons;
            lemma_assign_upto_within_limits(
                class,
                catalog,
                before.school.teachers,
                catalog.len() as int,
            );
            let after = school.generate_upto(n).school;
            assert forall|c: int| 0 <= c < after.classes.len() implies (
            #[trigger] after.classes[c]).within_limits(after.lessons) by {
                if c != n - 1 {
                    assert(before.school.classes[c].within_limits(before.school.lessons));
                }
            }
        }
    }
}

/// After the timetables of the first `n` classes were generated with success,
/// the week of each of them holds, of every lesson, what it held before and
/// what the catalog asks for under the lesson's identifier.
pub proof fn lemma_generate_upto_counts(school: SchoolView, n: int, c: int, id: ID)
    requires
        school.wf(),
        school.catalog_covered(),
        0 <= c < n <= school.classes.len(),
        id != 0,
        school.generate_upto(n).result is Ok,
    ensures
        grid_occurrences(school.generate_upto(n).school.classes[c].week, id) == grid_occurrences(
            school.classes[c].week,
            id,
        ) + weekly_amount(school.lessons, id, school.lessons.len() as int),
    decreases n,
{
    lemma_generate_upto_keeps(school, n);
    lemma_generate_upto_keeps(school, n - 1);
    let before = school.generate_upto(n - 1);
    if c < n - 1 {
        lemma_generate_upto_counts(school, n - 1, c, id);
    } else {
        let class = before.school.classes[n - 1];
        assert(class.wf());
        assert(class == school.classes[c]);
        let catalog = before.school.lessons;
        lemma_assign_upto_counts(
            class,
            catalog,
            before.school.teachers,
            catalog.len() as int,
            id,
        );
    }
}

/// After a successful generation every class holds exactly the weekly amount
/// of every lesson of the catalog, provided that the catalog repeats no
/// identifier and that the class held no occurrence of the lesson before.
pub proof fn weekly_amount_is_met(school: SchoolView, c: int, i: int)
    requires
        school.wf(),
        school.catalog_covered(),
        ids_distinct(school.lessons),
        0 <= c < school.classes.len(),
        0 <= i < school.lessons.len(),
        grid_occurrences(school.classes[c].week, school.lessons[i].id) == 0,
        school.generate().result is Ok,
    ensures
        grid_occurrences(school.generate().school.classes[c].week, school.lessons[i].id)
            == school.lessons[i].amount,
{
    let id = school.lessons[i].id;
    assert(school.classes[c].covers(school.lessons));
    lemma_generate_upto_counts(school, school.classes.len() as int, c, id);
    lemma_weekly_amount_of_distinct(school.lessons, i, school.lessons.len() as int);
}

/// After a generation, successful or not, no day of any class holds more
/// occurrences of a lesson of the catalog than the lesson's limit per day,
/// provided that the catalog repeats no identifier and that no day did so
/// before.
pub proof fn daily_limit_is_kept(school: SchoolView, c: int, i: int, d: int)
    requires
        school.wf(),
        school.catalog_covered(),
        ids_distinct(school.lessons),
        school.within_limits(),
        0 <= c < school.classes.len(),
        0 <= i < school.lessons.len(),
        0 <= d < DAYS,
    ensures
        occurrences(school.generate().school.classes[c].week[d], school.lessons[i].id)
            <= school.lessons[i].max_per_day,
{
    let n = school.classes.len() as int;
    lemma_generate_upto_keeps(school, n);
    lemma_generate_upto_within_limits(school, n);
    let after = school.generate().school;
    assert(after.classes[c].within_limits(after.lessons));
}

/// After a generation, successful or not, every occupied slot of every class
/// is matched in the registry: the lesson in it is bound to a teacher of the
/// registry, and that teacher's slot at the same day and period holds the
/// class. It is required that this held before.
pub proof fn booking_is_matched(school: SchoolView, c: int, d: int, p: int)
    requires
        school.wf(),
        school.catalog_covered(),
        school.consistent(),
        0 <= c < school.classes.len(),
        0 <= d < DAYS,
        0 <= p < DAY_LENGTH,
        school.generate().school.classes[c].week[d][p] != 0,
    ensures
        ({
            let after = school.generate().school;
            let lesson = after.classes[c].week[d][p] as int;
            &&& lesson < after.classes[c].teachers.len()
            &&& 1 <= after.classes[c].teachers[lesson] <= after.teachers.len()
            &&& after.teachers[after.classes[c].teachers[lesson] - 1].timetable[d][p]
                == after.classes[c].id
        }),
{
    let n = school.classes.len() as int;
    lemma_generate_upto_keeps(school, n);
    lemma_generate_upto_consistent(school, n);
    let after = school.generate().school;
    assert(after.classes[c].booked_with(after.teachers));
}

/// A generation undoes or replaces no booking of any teacher: a slot of the
/// registry that was occupied holds what it held.
pub proof fn booking_is_never_overwritten(school: SchoolView, t: int, d: int, p: int)
    requires
        school.wf(),
        school.catalog_covered(),
        0 <= t < school.teachers.len(),
        0 <= d < DAYS,
        0 <= p < DAY_LENGTH,
        school.teachers[t].timetable[d][p] != 0,
    ensures
        school.generate().school.teachers[t].timetable[d][p] == school.teachers[t].timetable[d][p],
{
    lemma_generate_upto_keeps(school, school.classes.len() as int);
}

/// In a school whose occupied slots are all matched in the registry, two
/// classes that are both occupied at the same day and period have different
/// teachers there.
pub proof fn no_teacher_is_double_booked(school: SchoolView, a: int, b: int, d: int, p: int)
    requires
        school.wf(),
        school.consistent(),
        0 <= a < school.classes.len(),
        0 <= b < school.classes.len(),
        a != b,
        0 <= d < DAYS,
        0 <= p < DAY_LENGTH,
        school.classes[a].week[d][p] != 0,
        school.classes[b].week[d][p] != 0,
    ensures
        school.classes[a].teachers[school.classes[a].week[d][p] as int]
            != school.classes[b].teachers[school.classes[b].week[d][p] as int],
{
    assert(school.classes[a].booked_with(school.teachers));
    assert(school.classes[b].booked_with(school.teachers));
    assert(school.classes[a].id == a + 1);
    assert(school.classes[b].id == b + 1);
}

/// The choice of a teacher depends only on the order of the registry, on who
/// teaches the lesson and on the teachers' loads: two registries that agree in
/// these have a candidate for the lesson together, and then the same pick.
pub proof fn selection_is_deterministic(
    first: Seq<TeacherView>,
    second: Seq<TeacherView>,
    lesson: ID,
)
    requires
        first.len() == second.len(),
        forall|i: int|
            0 <= i < first.len() ==> (#[trigger] first[i]).teaches(lesson) == second[i].teaches(
                lesson,
            ) && first[i].blocked_percentage() == second[i].blocked_percentage(),
    ensures
        has_candidate(first, lesson) == has_candidate(second, lesson),
        has_candidate(first, lesson) ==> pick(first, lesson) == pick(second, lesson),
{
    if has_candidate(first, lesson) {
        let w = choose|i: int| 0 <= i < first.len() && (#[trigger] first[i]).teaches(lesson);
        assert(second[w].teaches(lesson));
        lemma_pick_exists(first, lesson);
        let i = pick(first, lesson);
        assert(is_pick(second, lesson, i)) by {
            assert forall|j: int|
                0 <= j < second.len() && (#[trigger] second[j]).teaches(
                    lesson,
                ) implies second[i].blocked_percentage() <= second[j].blocked_percentage() by {
                assert(first[j].teaches(lesson));
            }
            assert forall|j: int|
                0 <= j < i && (#[trigger] second[j]).teaches(
                    lesson,
                ) implies second[i].blocked_percentage() < second[j].blocked_percentage() by {
                assert(first[j].teaches(lesson));
            }
        }
        lemma_pick_is(second, lesson, i);
    } else if has_candidate(second, lesson) {
        let w = choose|i: int| 0 <= i < second.len() && (#[trigger] second[i]).teaches(lesson);
        assert(first[w].teaches(lesson));
    }
}

} // verus!
