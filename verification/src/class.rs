//! Classes, and the assignment of lessons to them.

use vstd::prelude::*;
use crate::error::ScheduleError;
use crate::assignment::{
    lemma_assign_lesson_bookings, lemma_assign_lesson_counts, lemma_assign_lesson_day_counts,
    lemma_assign_lesson_keeps_valid, lemma_assign_stops, lemma_assign_upto_counts,
    lemma_assign_upto_keeps, lemma_assign_upto_within_limits,
};
use crate::grid::{
    cells, empty_grid, grid_occurrences, grid_view, has_weekly_shape,
    lemma_cells_of_well_formed, new_grid, occurrences, well_formed, Day, DAYS, DAY_LENGTH, ID,
    SHORT_WINDOW,
};
use crate::lesson::{ids_distinct, weekly_amount, Lesson};
use crate::placement::{lemma_pass_keeps_shape, place, place_pass, short_pass};
use crate::teacher::{
    has_candidate, keeps_bookings, lemma_pick_is, pick, registry_view, registry_wf,
    select_teacher, Teacher, TeacherView,
};

verus! {

/// A class of the school.
#[derive(Clone, Debug, PartialEq, Eq)]
pub struct Class {
    /// Identifier of the class: the position in the school's list, from one.
    pub id: ID,
    /// The class's week; an occupied slot holds the lesson given there.
    pub week: Vec<Day>,
    /// For each lesson identifier the teacher bound to it, zero for none.
    pub teachers: Vec<ID>,
}

/// A class as a mathematical value.
pub struct ClassView {
    pub id: ID,
    pub week: Seq<Seq<ID>>,
    pub teachers: Seq<ID>,
}

impl View for Class {
    type V = ClassView;

    open spec fn view(&self) -> ClassView {
        ClassView { id: self.id, week: grid_view(self.week), teachers: self.teachers@ }
    }
}

/// A class and a registry after an assignment, and how the assignment ended.
pub struct Outcome {
    pub class: ClassView,
    pub registry: Seq<TeacherView>,
    pub result: Result<(), ScheduleError>,
}

impl ClassView {
    /// The class with identifier `id` before any lesson is assigned: every
    /// slot free, and a binding table for the lesson identifiers up to
    /// `lessons` with no teacher bound.
    pub open spec fn fresh(lessons: nat, id: ID) -> ClassView {
        ClassView { id, week: empty_grid(), teachers: Seq::new(lessons + 1, |k: int| 0usize) }
    }

    /// The class has an identifier other than zero and a week of the weekly
    /// shape.
    pub open spec fn wf(self) -> bool {
        &&& self.id != 0
        &&& well_formed(self.week)
    }

    /// Every binding of the class names a teacher of the registry who teaches
    /// the lesson.
    pub open spec fn bindings_valid(self, registry: Seq<TeacherView>) -> bool {
        forall|k: int|
            0 <= k < self.teachers.len() && (#[trigger] self.teachers[k]) != 0 ==> {
                &&& self.teachers[k] <= registry.len()
                &&& registry[self.teachers[k] - 1].teaches(k as ID)
            }
    }

    /// The binding table has an entry for every lesson of the catalog, and no
    /// lesson has the identifier zero.
    pub open spec fn covers(self, catalog: Seq<Lesson>) -> bool {
        forall|i: int|
            0 <= i < catalog.len() ==> (#[trigger] catalog[i]).id != 0 && catalog[i].id
                < self.teachers.len()
    }

    /// Every occupied slot of the class is matched in the registry: the
    /// lesson in it is bound to a teacher, and that teacher's slot at the same
    /// day and period holds this class.
    pub open spec fn booked_with(self, registry: Seq<TeacherView>) -> bool {
        forall|d: int, p: int|
            #![trigger self.week[d][p]]
            0 <= d < DAYS && 0 <= p < DAY_LENGTH && self.week[d][p] != 0 ==> {
                let lesson = self.week[d][p] as int;
                &&& lesson < self.teachers.len()
                &&& 1 <= self.teachers[lesson] <= registry.len()
                &&& registry[self.teachers[lesson] - 1].timetable[d][p] == self.id
            }
    }

    /// No day of the class holds more occurrences of a lesson of the catalog
    /// than the lesson's limit per day.
    pub open spec fn within_limits(self, catalog: Seq<Lesson>) -> bool {
        forall|i: int, d: int|
            #![trigger catalog[i], self.week[d]]
            0 <= i < catalog.len() && 0 <= d < DAYS ==> occurrences(self.week[d], catalog[i].id)
                <= catalog[i].max_per_day
    }

    /// What an assignment of `lesson` asks of the class and the registry.
    pub open spec fn admits(self, lesson: Lesson, registry: Seq<TeacherView>) -> bool {
        &&& self.wf()
        &&& registry_wf(registry)
        &&& self.bindings_valid(registry)
        &&& lesson.id != 0
        &&& lesson.id < self.teachers.len()
    }

    /// Identifier of the teacher who gives `lesson` to the class: the one
    /// already bound, else the pick of the registry.
    pub open spec fn teacher_for(self, lesson: ID, registry: Seq<TeacherView>) -> ID {
        if self.teachers[lesson as int] != 0 {
            self.teachers[lesson as int]
        } else {
            registry[pick(registry, lesson)].id
        }
    }

    /// Assigns one lesson: binds a teacher where none is bound, then places
    /// the lesson's occurrences in the class's and the teacher's grids. Where
    /// nobody teaches the lesson nothing changes.
    pub open spec fn assign_lesson(self, lesson: Lesson, registry: Seq<TeacherView>) -> Outcome {
        if self.teachers[lesson.id as int] == 0 && !has_candidate(registry, lesson.id) {
            Outcome { class: self, registry, result: Err(ScheduleError::NoEligibleTeacher) }
        } else {
            let teacher = self.teacher_for(lesson.id, registry);
            let at = teacher - 1;
            let placement = place(self.week, registry[at].timetable, lesson, self.id);
            Outcome {
                class: ClassView {
                    id: self.id,
                    week: placement.week,
                    teachers: self.teachers.update(lesson.id as int, teacher),
                },
                registry: registry.update(
                    at,
                    TeacherView {
                        id: registry[at].id,
                        subjects: registry[at].subjects,
                        timetable: placement.timetable,
                    },
                ),
                result: if placement.left == 0 {
                    Ok(())
                } else {
                    Err(ScheduleError::CapacityExceeded)
                },
            }
        }
    }

    /// Assigns the first `n` lessons of the catalog in order, each on what the
    /// one before left, and stops at the first that fails.
    pub open spec fn assign_upto(
        self,
        catalog: Seq<Lesson>,
        registry: Seq<TeacherView>,
        n: int,
    ) -> Outcome
        decreases n,
    {
        if n <= 0 {
            Outcome { class: self, registry, result: Ok(()) }
        } else {
            let before = self.assign_upto(catalog, registry, n - 1);
            if before.result is Err {
                before
            } else {
                before.class.assign_lesson(catalog[n - 1], before.registry)
            }
        }
    }

    /// Assigns every lesson of the catalog in order and stops at the first
    /// that fails.
    pub open spec fn assign_all(self, catalog: Seq<Lesson>, registry: Seq<TeacherView>) -> Outcome {
        self.assign_upto(catalog, registry, catalog.len() as int)
    }
}

impl Class {
    /// Creates the class with identifier `id` for a catalog of `lesson_amount`
    /// lessons: every slot free and no teacher bound.
    pub fn new(lesson_amount: usize, id: ID) -> (class: Class)
        requires
            lesson_amount < usize::MAX,
        ensures
            class@ == ClassView::fresh(lesson_amount as nat, id),
    {
        let mut teachers: Vec<ID> = Vec::new();
        let mut k: usize = 0;
        while k <= lesson_amount
            invariant
                k <= lesson_amount + 1,
                lesson_amount < usize::MAX,
                teachers@.len() == k,
                forall|i: int| 0 <= i < k ==> teachers@[i] == 0,
            decreases lesson_amount + 1 - k,
        {
            teachers.push(0);
            k += 1;
        }
        let class = Class { id, week: new_grid(), teachers };
        assert(class@.teachers =~= ClassView::fresh(lesson_amount as nat, id).teachers);
        class
    }

    /// Assigns one lesson to the class. Binds the least loaded teacher of the
    /// lesson where the class has none for it, then books the lesson's weekly
    /// occurrences into slots that the class and the teacher have free: first
    /// within the short days, then, for what is left, within the whole days.
    ///
    /// Fails with `NoEligibleTeacher`, and changes nothing, where the class
    /// has no teacher for the lesson and nobody teaches it. Fails with
    /// `CapacityExceeded` where occurrences are left after both passes; the
    /// binding and the slots booked until then stay.
    pub fn add_lesson(&mut self, l: &Lesson, t: &mut Vec<Teacher>) -> (result: Result<
        (),
        ScheduleError,
    >)
        requires
            old(self)@.admits(*l, registry_view(old(t)@)),
        ensures
            ({
                let outcome = old(self)@.assign_lesson(*l, registry_view(old(t)@));
                &&& final(self)@ == outcome.class
                &&& registry_view(final(t)@) == outcome.registry
                &&& result == outcome.result
            }),
            result == Err::<(), ScheduleError>(ScheduleError::NoEligibleTeacher) <==> old(
                self,
            )@.teachers[l.id as int] == 0 && !has_candidate(registry_view(old(t)@), l.id),
            result == Err::<(), ScheduleError>(ScheduleError::NoEligibleTeacher) ==> final(self)@
                == old(self)@ && registry_view(final(t)@) == registry_view(old(t)@),
            result == Err::<(), ScheduleError>(ScheduleError::CapacityExceeded)
                ==> grid_occurrences(final(self)@.week, l.id) < grid_occurrences(
                old(self)@.week,
                l.id,
            ) + l.amount,
            final(self)@.wf(),
            registry_wf(registry_view(final(t)@)),
            final(self)@.bindings_valid(registry_view(final(t)@)),
            final(self)@.id == old(self)@.id,
            final(self)@.teachers.len() == old(self)@.teachers.len(),
            keeps_bookings(registry_view(old(t)@), registry_view(final(t)@)),
            old(self)@.booked_with(registry_view(old(t)@)) ==> final(self)@.booked_with(
                registry_view(final(t)@),
            ),
            result is Ok ==> grid_occurrences(final(self)@.week, l.id) == grid_occurrences(
                old(self)@.week,
                l.id,
            ) + l.amount,
            forall|id: ID|
                id != 0 && id != l.id ==> #[trigger] grid_occurrences(final(self)@.week, id)
                    == grid_occurrences(old(self)@.week, id),
            forall|d: int|
                0 <= d < DAYS && occurrences(old(self)@.week[d], l.id) <= l.max_per_day
                    ==> occurrences(#[trigger] final(self)@.week[d], l.id) <= l.max_per_day,
    {
        let ghost class0 = self@;
        let ghost registry0 = registry_view(t@);
        proof {
            lemma_assign_lesson_keeps_valid(class0, *l, registry0);
            lemma_assign_lesson_bookings(class0, *l, registry0);
            lemma_assign_lesson_counts(class0, *l, registry0, l.id);
            let outcome = class0.assign_lesson(*l, registry0);
            assert forall|id: ID| id != 0 && id != l.id implies #[trigger] grid_occurrences(
                outcome.class.week,
                id,
            ) == grid_occurrences(class0.week, id) by {
                lemma_assign_lesson_counts(class0, *l, registry0, id);
            }
            assert forall|d: int|
                0 <= d < DAYS && occurrences(class0.week[d], l.id)
                    <= l.max_per_day implies occurrences(#[trigger] outcome.class.week[d], l.id)
                <= l.max_per_day by {
                lemma_assign_lesson_day_counts(class0, *l, registry0, l.id, d);
            }
            assert forall|i: int| 0 <= i < t@.len() implies cells((#[trigger] t@[i])@.timetable)
                <= usize::MAX by {
                assert(registry0[i].wf());
                lemma_cells_of_well_formed(t@[i]@.timetable);
            }
        }
        if self.teachers[l.id] == 0 {
            match select_teacher(t, l.id) {
                None => {
                    return Err(ScheduleError::NoEligibleTeacher);
                },
                Some(i) => {
                    proof {
                        lemma_pick_is(registry0, l.id, i as int);
                        assert(registry0[i as int].id == i + 1);
                    }
                    self.teachers[l.id] = t[i].id;
                },
            }
        }
        let at = self.teachers[l.id] - 1;
        assert(self.teachers[l.id as int] == class0.teacher_for(l.id, registry0));
        assert(registry0[at as int].wf());
        let left = place_pass(
            &mut self.week,
            &mut t[at].timetable,
            l.id,
            self.id,
            l.max_per_day,
            SHORT_WINDOW,
            l.amount,
        );
        proof {
            lemma_pass_keeps_shape(short_pass(class0.week, registry0[at as int].timetable, *l, class0.id));
        }
        let left = if left == 0 {
            left
        } else {
            place_pass(
                &mut self.week,
                &mut t[at].timetable,
                l.id,
                self.id,
                l.max_per_day,
                DAY_LENGTH,
                left,
            )
        };
        proof {
            let outcome = class0.assign_lesson(*l, registry0);
            assert(self@.teachers =~= outcome.class.teachers);
            assert(registry_view(t@) =~= outcome.registry);
        }
        if left == 0 {
            Ok(())
        } else {
            Err(ScheduleError::CapacityExceeded)
        }
    }

    /// Assigns the lessons of the catalog to the class in order, each on the
    /// grids that the one before left, and stops at the first that fails. What
    /// was booked until then stays.
    #[verifier::loop_isolation(false)]
    pub fn add_lessons(&mut self, lessons: &Vec<Lesson>, teachers: &mut Vec<Teacher>) -> (result:
        Result<(), ScheduleError>)
        requires
            old(self)@.wf(),
            registry_wf(registry_view(old(teachers)@)),
            old(self)@.bindings_valid(registry_view(old(teachers)@)),
            old(self)@.covers(lessons@),
        ensures
            ({
                let outcome = old(self)@.assign_all(lessons@, registry_view(old(teachers)@));
                &&& final(self)@ == outcome.class
                &&& registry_view(final(teachers)@) == outcome.registry
                &&& result == outcome.result
            }),
            final(self)@.wf(),
            registry_wf(registry_view(final(teachers)@)),
            final(self)@.bindings_valid(registry_view(final(teachers)@)),
            final(self)@.id == old(self)@.id,
            final(self)@.teachers.len() == old(self)@.teachers.len(),
            keeps_bookings(registry_view(old(teachers)@), registry_view(final(teachers)@)),
            old(self)@.booked_with(registry_view(old(teachers)@)) ==> final(self)@.booked_with(
                registry_view(final(teachers)@),
            ),
            result is Ok ==> forall|id: ID|
                id != 0 ==> #[trigger] grid_occurrences(final(self)@.week, id) == grid_occurrences(
                    old(self)@.week,
                    id,
                ) + weekly_amount(lessons@, id, lessons@.len() as int),
            ids_distinct(lessons@) && old(self)@.within_limits(lessons@)
                ==> final(self)@.within_limits(lessons@),
    {
        let ghost class0 = self@;
        let ghost registry0 = registry_view(teachers@);
        proof {
            let n = lessons@.len() as int;
            let outcome = class0.assign_all(lessons@, registry0);
            lemma_assign_upto_keeps(class0, lessons@, registry0, n);
            if outcome.result is Ok {
                assert forall|id: ID| id != 0 implies #[trigger] grid_occurrences(
                    outcome.class.week,
                    id,
                ) == grid_occurrences(class0.week, id) + weekly_amount(lessons@, id, n) by {
                    lemma_assign_upto_counts(class0, lessons@, registry0, n, id);
                }
            }
            if ids_distinct(lessons@) && class0.within_limits(lessons@) {
                lemma_assign_upto_within_limits(class0, lessons@, registry0, n);
            }
        }
        let mut i: usize = 0;
        while i < lessons.len()
            invariant
                i <= lessons.len(),
                self@.wf(),
                registry_wf(registry_view(teachers@)),
                self@.bindings_valid(registry_view(teachers@)),
                self@.covers(lessons@),
                self@.id == class0.id,
                self@.teachers.len() == class0.teachers.len(),
                keeps_bookings(registry0, registry_view(teachers@)),
                class0.assign_upto(lessons@, registry0, i as int) == (Outcome {
                    class: self@,
                    registry: registry_view(teachers@),
                    result: Ok(()),
                }),
            decreases lessons.len() - i,
        {
            let result = self.add_lesson(&lessons[i], teachers);
            if result.is_err() {
                proof {
                    lemma_assign_stops(class0, lessons@, registry0, i + 1, lessons@.len() as int);
                }
                return result;
            }
            i += 1;
        }
        Ok(())
    }

    /// Whether the class is fit for the assignment of the catalog with the
    /// registry: it has an identifier other than zero and a week of the
    /// weekly shape, its bindings name teachers of the registry who teach the
    /// lesson, and its binding table has an entry for every lesson of the
    /// catalog, none of which has the identifier zero.
    pub fn is_ready(&self, lessons: &Vec<Lesson>, teachers: &Vec<Teacher>) -> (b: bool)
        ensures
            b == (self@.wf() && self@.bindings_valid(registry_view(teachers@)) && self@.covers(
                lessons@,
            )),
    {
        let ghost registry = registry_view(teachers@);
        if self.id == 0 || !has_weekly_shape(&self.week) {
            return false;
        }
        let mut k: usize = 0;
        while k < self.teachers.len()
            invariant
                k <= self.teachers.len(),
                registry == registry_view(teachers@),
                forall|j: int|
                    0 <= j < k && (#[trigger] self@.teachers[j]) != 0 ==> {
                        &&& self@.teachers[j] <= registry.len()
                        &&& registry[self@.teachers[j] - 1].teaches(j as ID)
                    },
            decreases self.teachers.len() - k,
        {
            let bound = self.teachers[k];
            if bound != 0 {
                if bound > teachers.len() || !teachers[bound - 1].teaches(k) {
                    assert(self@.teachers[k as int] != 0);
                    return false;
                }
            }
            k += 1;
        }
        let mut i: usize = 0;
        while i < lessons.len()
            invariant
                i <= lessons.len(),
                forall|j: int|
                    0 <= j < i ==> (#[trigger] lessons@[j]).id != 0 && lessons@[j].id
                        < self@.teachers.len(),
            decreases lessons.len() - i,
        {
            if lessons[i].id == 0 || lessons[i].id >= self.teachers.len() {
                assert(!(lessons@[i as int].id != 0 && lessons@[i as int].id
                    < self@.teachers.len()));
                return false;
            }
            i += 1;
        }
        true
    }
}

} // verus!
