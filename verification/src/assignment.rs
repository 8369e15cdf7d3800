//! What the assignment of lessons to a class keeps and what it changes.

use vstd::prelude::*;
use crate::class::ClassView;
use crate::error::ScheduleError;
use crate::grid::{grid_occurrences, occurrences, DAYS, ID};
use crate::lesson::{ids_distinct, weekly_amount, Lesson};
use crate::placement::{
    lemma_pass_keeps_shape, lemma_place_books_free_slots, lemma_place_counts,
    lemma_place_day_counts, long_pass, short_pass,
};
use crate::teacher::{
    has_candidate, keeps_bookings, lemma_pick_exists, registry_wf, same_staff, TeacherView,
};

verus! {

/// Bindings that are valid for a registry are valid for one that lists the
/// same teachers.
pub proof fn lemma_class_keeps_bindings(
    class: ClassView,
    before: Seq<TeacherView>,
    after: Seq<TeacherView>,
)
    requires
        class.bindings_valid(before),
        same_staff(before, after),
    ensures
        class.bindings_valid(after),
{
    assert forall|k: int|
        0 <= k < class.teachers.len() && (#[trigger] class.teachers[k]) != 0 implies {
        &&& class.teachers[k] <= after.len()
        &&& after[class.teachers[k] - 1].teaches(k as ID)
    } by {
        let at = class.teachers[k] - 1;
        assert(after[at].subjects == before[at].subjects);
    }
}

/// Once an assignment over the catalog has failed, further lessons change
/// nothing.
pub proof fn lemma_assign_stops(
    class: ClassView,
    catalog: Seq<Lesson>,
    registry: Seq<TeacherView>,
    m: int,
    n: int,
)
    requires
        0 <= m <= n,
        class.assign_upto(catalog, registry, m).result is Err,
    ensures
        class.assign_upto(catalog, registry, n) == class.assign_upto(catalog, registry, m),
    decreases n,
{
    if m < n {
        lemma_assign_stops(class, catalog, registry, m, n - 1);
    }
}

/// Where the class has a teacher for the lesson or somebody teaches it, the
/// teacher who gives it is a teacher of the registry who teaches it.
pub proof fn lemma_teacher_in_registry(class: ClassView, lesson: Lesson, registry: Seq<TeacherView>)
    requires
        class.admits(lesson, registry),
        class.teachers[lesson.id as int] != 0 || has_candidate(registry, lesson.id),
    ensures
        ({
            let teacher = class.teacher_for(lesson.id, registry);
            &&& 1 <= teacher <= registry.len()
            &&& registry[teacher - 1].id == teacher
            &&& registry[teacher - 1].wf()
            &&& registry[teacher - 1].teaches(lesson.id)
        }),
{
    if class.teachers[lesson.id as int] == 0 {
        lemma_pick_exists(registry, lesson.id);
    }
}

/// An assignment keeps what it asked for: the shapes, the teachers'
/// identifiers and subjects, the size of the binding table and the validity of
/// the bindings.
pub proof fn lemma_assign_lesson_keeps_valid(
    class: ClassView,
    lesson: Lesson,
    registry: Seq<TeacherView>,
)
    requires
        class.admits(lesson, registry),
    ensures
        ({
            let outcome = class.assign_lesson(lesson, registry);
            &&& outcome.class.wf()
            &&& outcome.class.id == class.id
            &&& outcome.class.teachers.len() == class.teachers.len()
            &&& registry_wf(outcome.registry)
            &&& same_staff(registry, outcome.registry)
            &&& outcome.class.bindings_valid(outcome.registry)
        }),
{
    let outcome = class.assign_lesson(lesson, registry);
    if class.teachers[lesson.id as int] != 0 || has_candidate(registry, lesson.id) {
        let at = class.teacher_for(lesson.id, registry) - 1;
        lemma_teacher_in_registry(class, lesson, registry);
        lemma_pass_keeps_shape(short_pass(class.week, registry[at].timetable, lesson, class.id));
        lemma_pass_keeps_shape(long_pass(class.week, registry[at].timetable, lesson, class.id));
        assert forall|k: int|
            0 <= k < outcome.class.teachers.len() && (#[trigger] outcome.class.teachers[k])
                != 0 implies {
            &&& outcome.class.teachers[k] <= outcome.registry.len()
            &&& outcome.registry[outcome.class.teachers[k] - 1].teaches(k as ID)
        } by {
            if k != lesson.id {
                assert(class.teachers[k] != 0);
            }
        }
    }
}

/// A successful assignment adds the lesson's weekly amount to the slots of
/// the lesson in the class's week; a failed one adds less. The slots of every
/// other lesson stay as many.
pub proof fn lemma_assign_lesson_counts(
    class: ClassView,
    lesson: Lesson,
    registry: Seq<TeacherView>,
    id: ID,
)
    requires
        class.admits(lesson, registry),
        id != 0,
    ensures
        ({
            let outcome = class.assign_lesson(lesson, registry);
            let before = grid_occurrences(class.week, id);
            let after = grid_occurrences(outcome.class.week, id);
            &&& id != lesson.id ==> after == before
            &&& id == lesson.id && outcome.result is Ok ==> after == before + lesson.amount
            &&& id == lesson.id && outcome.result is Err ==> before <= after
            &&& id == lesson.id && outcome.result == Err::<(), ScheduleError>(
                ScheduleError::CapacityExceeded,
            ) ==> after < before + lesson.amount
        }),
{
    lemma_assign_lesson_keeps_valid(class, lesson, registry);
    if class.teachers[lesson.id as int] != 0 || has_candidate(registry, lesson.id) {
        let at = class.teacher_for(lesson.id, registry) - 1;
        lemma_teacher_in_registry(class, lesson, registry);
        lemma_place_counts(class.week, registry[at].timetable, lesson, class.id, id);
    }
}

/// An assignment never takes a day of the class beyond the lesson's limit per
/// day, unless the day was beyond it before, and leaves every day's slots of
/// every other lesson as many.
pub proof fn lemma_assign_lesson_day_counts(
    class: ClassView,
    lesson: Lesson,
    registry: Seq<TeacherView>,
    id: ID,
    d: int,
)
    requires
        class.admits(lesson, registry),
        id != 0,
        0 <= d < DAYS,
    ensures
        ({
            let outcome = class.assign_lesson(lesson, registry);
            let before = occurrences(class.week[d], id);
            let after = occurrences(outcome.class.week[d], id);
            &&& id != lesson.id ==> after == before
            &&& id == lesson.id && before <= lesson.max_per_day ==> after <= lesson.max_per_day
        }),
{
    lemma_assign_lesson_keeps_valid(class, lesson, registry);
    if class.teachers[lesson.id as int] != 0 || has_candidate(registry, lesson.id) {
        let at = class.teacher_for(lesson.id, registry) - 1;
        lemma_teacher_in_registry(class, lesson, registry);
        lemma_place_day_counts(class.week, registry[at].timetable, lesson, class.id, id, d);
    }
}

/// An assignment keeps a week within the limits per day of a catalog without
/// repeated identifiers that holds the lesson.
pub proof fn lemma_assign_lesson_within_limits(
    class: ClassView,
    catalog: Seq<Lesson>,
    n: int,
    registry: Seq<TeacherView>,
)
    requires
        0 <= n < catalog.len(),
        class.admits(catalog[n], registry),
        class.covers(catalog),
        ids_distinct(catalog),
        class.within_limits(catalog),
    ensures
        class.assign_lesson(catalog[n], registry).class.within_limits(catalog),
{
    let outcome = class.assign_lesson(catalog[n], registry);
    assert forall|i: int, d: int|
        #![trigger catalog[i], outcome.class.week[d]]
        0 <= i < catalog.len() && 0 <= d < DAYS implies occurrences(
        outcome.class.week[d],
        catalog[i].id,
    ) <= catalog[i].max_per_day by {
        lemma_assign_lesson_day_counts(class, catalog[n], registry, catalog[i].id, d);
    }
}

/// An assignment undoes no booking of any teacher, and keeps every occupied
/// slot of the class matched in the registry.
pub proof fn lemma_assign_lesson_bookings(
    class: ClassView,
    lesson: Lesson,
    registry: Seq<TeacherView>,
)
    requires
        class.admits(lesson, registry),
    ensures
        ({
            let outcome = class.assign_lesson(lesson, registry);
            &&& keeps_bookings(registry, outcome.registry)
            &&& class.booked_with(registry) ==> outcome.class.booked_with(outcome.registry)
        }),
{
    lemma_assign_lesson_keeps_valid(class, lesson, registry);
    if class.teachers[lesson.id as int] != 0 || has_candidate(registry, lesson.id) {
        let at = class.teacher_for(lesson.id, registry) - 1;
        lemma_teacher_in_registry(class, lesson, registry);
        lemma_place_books_free_slots(class.week, registry[at].timetable, lesson, class.id);
    }
}

/// Occupied slots of a class stay matched in a registry in which no booking
/// was undone.
pub proof fn lemma_stays_booked(
    class: ClassView,
    before: Seq<TeacherView>,
    after: Seq<TeacherView>,
)
    requires
        class.id != 0,
        class.booked_with(before),
        keeps_bookings(before, after),
    ensures
        class.booked_with(after),
{
}

/// Undoing no booking is transitive.
pub proof fn lemma_keeps_bookings_chain(
    a: Seq<TeacherView>,
    b: Seq<TeacherView>,
    c: Seq<TeacherView>,
)
    requires
        keeps_bookings(a, b),
        keeps_bookings(b, c),
    ensures
        keeps_bookings(a, c),
{
}

/// What assigning the first `n` lessons of a catalog keeps: the class's
/// identifier, shape and binding table size, the teachers, the validity of
/// the bindings, every booking of the registry, and the match of the class's
/// occupied slots in the registry.
pub proof fn lemma_assign_upto_keeps(
    class: ClassView,
    catalog: Seq<Lesson>,
    registry: Seq<TeacherView>,
    n: int,
)
    requires
        class.wf(),
        registry_wf(registry),
        class.bindings_valid(registry),
        class.covers(catalog),
        0 <= n <= catalog.len(),
    ensures
        ({
            let outcome = class.assign_upto(catalog, registry, n);
            &&& outcome.class.wf()
            &&& outcome.class.id == class.id
            &&& outcome.class.teachers.len() == class.teachers.len()
            &&& outcome.class.covers(catalog)
            &&& registry_wf(outcome.registry)
            &&& outcome.class.bindings_valid(outcome.registry)
            &&& keeps_bookings(registry, outcome.registry)
            &&& class.booked_with(registry) ==> outcome.class.booked_with(outcome.registry)
            &&& n > 0 && outcome.result is Ok ==> class.assign_upto(
                catalog,
                registry,
                n - 1,
            ).result is Ok
        }),
    decreases n,
{
    if n > 0 {
        lemma_assign_upto_keeps(class, catalog, registry, n - 1);
        let before = class.assign_upto(catalog, registry, n - 1);
        if before.result is Ok {
            lemma_assign_lesson_keeps_valid(before.class, catalog[n - 1], before.registry);
            lemma_assign_lesson_bookings(before.class, catalog[n - 1], before.registry);
            let outcome = before.class.assign_lesson(catalog[n - 1], before.registry);
            lemma_keeps_bookings_chain(registry, before.registry, outcome.registry);
        }
    }
}

/// After the first `n` lessons of a catalog were assigned with success, the
/// class's week holds, of every lesson, what it held before and what those
/// lessons ask for under its identifier.
pub proof fn lemma_assign_upto_counts(
    class: ClassView,
    catalog: Seq<Lesson>,
    registry: Seq<TeacherView>,
    n: int,
    id: ID,
)
    requires
        class.wf(),
        registry_wf(registry),
        class.bindings_valid(registry),
        class.covers(catalog),
        0 <= n <= catalog.len(),
        id != 0,
        class.assign_upto(catalog, registry, n).result is Ok,
    ensures
        grid_occurrences(class.assign_upto(catalog, registry, n).class.week, id)
            == grid_occurrences(class.week, id) + weekly_amount(catalog, id, n),
    decreases n,
{
    if n > 0 {
        lemma_assign_upto_keeps(class, catalog, registry, n);
        lemma_assign_upto_keeps(class, catalog, registry, n - 1);
        lemma_assign_upto_counts(class, catalog, registry, n - 1, id);
        let before = class.assign_upto(catalog, registry, n - 1);
        lemma_assign_lesson_counts(before.class, catalog[n - 1], before.registry, id);
    }
}

/// Assigning the first `n` lessons of a catalog without repeated identifiers
/// keeps the class's week within the limits per day of the catalog.
pub proof fn lemma_assign_upto_within_limits(
    class: ClassView,
    catalog: Seq<Lesson>,
    registry: Seq<TeacherView>,
    n: int,
)
    requires
        class.wf(),
        registry_wf(registry),
        class.bindings_valid(registry),
        class.covers(catalog),
        ids_distinct(catalog),
        class.within_limits(catalog),
        0 <= n <= catalog.len(),
    ensures
        class.assign_upto(catalog, registry, n).class.within_limits(catalog),
    decreases n,
{
    if n > 0 {
        lemma_assign_upto_keeps(class, catalog, registry, n - 1);
        lemma_assign_upto_within_limits(class, catalog, registry, n - 1);
        let before = class.assign_upto(catalog, registry, n - 1);
        if before.result is Ok {
            lemma_assign_lesson_within_limits(before.class, catalog, n - 1, before.registry);
        }
    }
}

} // verus!
