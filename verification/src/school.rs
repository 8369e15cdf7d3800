//! The school: the lesson catalog, the teacher registry and the classes.

use vstd::prelude::*;
use crate::assignment::lemma_class_keeps_bindings;
use crate::class::{Class, ClassView};
use crate::error::ScheduleError;
use crate::grid::{empty_grid, grid_occurrences, new_grid, ID};
use crate::laws::{
    lemma_generate_upto_consistent, lemma_generate_upto_counts, lemma_generate_upto_keeps,
    lemma_generate_upto_within_limits,
};
use crate::lesson::{ids_distinct, weekly_amount, Lesson};
use crate::teacher::{
    keeps_bookings, registry_is_valid, registry_view, registry_wf, Teacher, TeacherView,
};

verus! {

/// Room reserved for classes when a school is created.
pub const PREALLOC_CLASSES: usize = 1;

/// Room reserved for lessons when a school is created.
pub const PREALLOC_LESSONS: usize = 2;

/// Room reserved for teachers when a school is created.
pub const PREALLOC_TEACHERS: usize = 2;

/// A school with its classes, its teachers and its catalog of lessons.
#[derive(Clone, Debug, PartialEq, Eq)]
pub struct School {
    /// The classes, in the order of their creation.
    pub classes: Vec<Class>,
    /// The registry of teachers, in the order of their creation.
    pub teachers: Vec<Teacher>,
    /// The catalog of lessons, in the order in which they are assigned.
    pub lessons: Vec<Lesson>,
}

/// A school as a mathematical value.
pub struct SchoolView {
    pub classes: Seq<ClassView>,
    pub teachers: Seq<TeacherView>,
    pub lessons: Seq<Lesson>,
}

/// The classes as a sequence of mathematical values.
pub open spec fn classes_view(classes: Seq<Class>) -> Seq<ClassView> {
    Seq::new(classes.len(), |i: int| classes[i]@)
}

impl View for School {
    type V = SchoolView;

    open spec fn view(&self) -> SchoolView {
        SchoolView {
            classes: classes_view(self.classes@),
            teachers: registry_view(self.teachers@),
            lessons: self.lessons@,
        }
    }
}

/// A school after the generation of its timetables, and how that ended.
pub struct Generated {
    pub school: SchoolView,
    pub result: Result<(), ScheduleError>,
}

impl SchoolView {
    /// The school without classes, teachers or lessons.
    pub open spec fn empty() -> SchoolView {
        SchoolView { classes: Seq::empty(), teachers: Seq::empty(), lessons: Seq::empty() }
    }

    /// Teachers and classes have the identifiers that follow from their
    /// positions and grids of the weekly shape, and every binding of a class
    /// names a teacher of the registry who teaches the lesson.
    pub open spec fn wf(self) -> bool {
        &&& registry_wf(self.teachers)
        &&& forall|c: int|
            0 <= c < self.classes.len() ==> {
                &&& (#[trigger] self.classes[c]).wf()
                &&& self.classes[c].id == c + 1
                &&& self.classes[c].bindings_valid(self.teachers)
            }
    }

    /// The binding table of every class has an entry for every lesson of the
    /// catalog, and no lesson has the identifier zero.
    pub open spec fn catalog_covered(self) -> bool {
        forall|c: int| 0 <= c < self.classes.len() ==> (#[trigger] self.classes[c]).covers(self.lessons)
    }

    /// Every occupied slot of every class is matched in the registry: the
    /// teacher bound to the lesson in it holds the class at the same day and
    /// period.
    pub open spec fn consistent(self) -> bool {
        forall|c: int|
            0 <= c < self.classes.len() ==> (#[trigger] self.classes[c]).booked_with(self.teachers)
    }

    /// No day of any class holds more occurrences of a lesson of the catalog
    /// than the lesson's limit per day.
    pub open spec fn within_limits(self) -> bool {
        forall|c: int|
            0 <= c < self.classes.len() ==> (#[trigger] self.classes[c]).within_limits(self.lessons)
    }

    /// Generates the timetables of the first `n` classes in order, each on
    /// the registry that the one before left, and stops at the first class
    /// for which a lesson fails.
    pub open spec fn generate_upto(self, n: int) -> Generated
        decreases n,
    {
        if n <= 0 {
            Generated { school: self, result: Ok(()) }
        } else {
            let before = self.generate_upto(n - 1);
            if before.result is Err {
                before
            } else {
                let outcome = before.school.classes[n - 1].assign_all(
                    before.school.lessons,
                    before.school.teachers,
                );
                Generated {
                    school: SchoolView {
                        classes: before.school.classes.update(n - 1, outcome.class),
                        teachers: outcome.registry,
                        lessons: before.school.lessons,
                    },
                    result: outcome.result,
                }
            }
        }
    }

    /// Generates the timetables of all classes.
    pub open spec fn generate(self) -> Generated {
        self.generate_upto(self.classes.len() as int)
    }
}

/// Once the generation has failed for a class, further classes change nothing.
pub proof fn lemma_generate_stops(school: SchoolView, m: int, n: int)
    requires
        0 <= m <= n,
        school.generate_upto(m).result is Err,
    ensures
        school.generate_upto(n) == school.generate_upto(m),
    decreases n,
{
    if m < n {
        lemma_generate_stops(school, m, n - 1);
    }
}

impl School {
    /// Creates a school without classes, teachers or lessons.
    pub fn new() -> (school: School)
        ensures
            school@ == SchoolView::empty(),
    {
        let school = School {
            classes: Vec::with_capacity(PREALLOC_CLASSES),
            teachers: Vec::with_capacity(PREALLOC_TEACHERS),
            lessons: Vec::with_capacity(PREALLOC_LESSONS),
        };
        assert(school@.classes =~= Seq::empty());
        assert(school@.teachers =~= Seq::empty());
        school
    }

    /// Adds a teacher of the given subjects to the registry, with every slot
    /// free, and returns the identifier issued: the teacher's position in the
    /// registry, from one.
    pub fn new_teacher(&mut self, subjects: &Vec<ID>) -> (id: usize)
        requires
            old(self)@.teachers.len() < usize::MAX,
        ensures
            id == old(self)@.teachers.len() + 1,
            final(self)@ == (SchoolView {
                classes: old(self)@.classes,
                teachers: old(self)@.teachers.push(
                    TeacherView { id, subjects: subjects@, timetable: empty_grid() },
                ),
                lessons: old(self)@.lessons,
            }),
    {
        let id = self.teachers.len() + 1;
        self.teachers.push(Teacher { id, subjects: subjects.clone(), timetable: new_grid() });
        assert(self@.teachers =~= old(self)@.teachers.push(
            TeacherView { id, subjects: subjects@, timetable: empty_grid() },
        ));
        id
    }

    /// Adds a class to the school, with every slot free and a binding table
    /// for the lessons now in the catalog, and returns the identifier issued:
    /// the class's position in the school's list, from one.
    pub fn new_class(&mut self) -> (id: usize)
        requires
            old(self)@.classes.len() < usize::MAX,
            old(self)@.lessons.len() < usize::MAX,
        ensures
            id == old(self)@.classes.len() + 1,
            final(self)@ == (SchoolView {
                classes: old(self)@.classes.push(
                    ClassView::fresh(old(self)@.lessons.len(), id),
                ),
                teachers: old(self)@.teachers,
                lessons: old(self)@.lessons,
            }),
    {
        let id = self.classes.len() + 1;
        self.classes.push(Class::new(self.lessons.len(), id));
        assert(self@.classes =~= old(self)@.classes.push(
            ClassView::fresh(old(self)@.lessons.len(), id),
        ));
        id
    }

    /// Generates the timetables: for every class in the order of creation,
    /// assigns every lesson of the catalog in order. The teachers' grids are
    /// shared, so each class finds the slots that earlier classes took
    /// occupied. Stops at the first lesson that fails and returns its error;
    /// what was booked until then stays.
    #[verifier::loop_isolation(false)]
    pub fn generate_timetables(&mut self) -> (result: Result<(), ScheduleError>)
        requires
            old(self)@.wf(),
            old(self)@.catalog_covered(),
        ensures
            ({
                let generated = old(self)@.generate();
                &&& final(self)@ == generated.school
                &&& result == generated.result
            }),
            final(self)@.wf(),
            final(self)@.catalog_covered(),
            keeps_bookings(old(self)@.teachers, final(self)@.teachers),
            old(self)@.consistent() ==> final(self)@.consistent(),
            ids_distinct(old(self)@.lessons) && old(self)@.within_limits()
                ==> final(self)@.within_limits(),
            result is Ok ==> forall|c: int, id: ID|
                0 <= c < old(self)@.classes.len() && id != 0 ==> #[trigger] grid_occurrences(
                    final(self)@.classes[c].week,
                    id,
                ) == grid_occurrences(old(self)@.classes[c].week, id) + weekly_amount(
                    old(self)@.lessons,
                    id,
                    old(self)@.lessons.len() as int,
                ),
    {
        let ghost school0 = self@;
        proof {
            let n = school0.classes.len() as int;
            let generated = school0.generate();
            lemma_generate_upto_keeps(school0, n);
            if school0.consistent() {
                lemma_generate_upto_consistent(school0, n);
            }
            if ids_distinct(school0.lessons) && school0.within_limits() {
                lemma_generate_upto_within_limits(school0, n);
            }
            if generated.result is Ok {
                assert forall|c: int, id: ID|
                    0 <= c < school0.classes.len() && id != 0 implies #[trigger] grid_occurrences(
                    generated.school.classes[c].week,
                    id,
                ) == grid_occurrences(school0.classes[c].week, id) + weekly_amount(
                    school0.lessons,
                    id,
                    school0.lessons.len() as int,
                ) by {
                    lemma_generate_upto_counts(school0, n, c, id);
                }
            }
        }
        let mut c: usize = 0;
        while c < self.classes.len()
            invariant
                c <= self.classes.len(),
                self.classes.len() == school0.classes.len(),
                self@.wf(),
                self@.catalog_covered(),
                school0.generate_upto(c as int) == (Generated { school: self@, result: Ok(()) }),
            decreases self.classes.len() - c,
        {
            let ghost before = self@;
            assert(before.classes[c as int].wf());
            let result = self.classes[c].add_lessons(&self.lessons, &mut self.teachers);
            proof {
                let outcome = before.classes[c as int].assign_all(before.lessons, before.teachers);
                assert(self@.classes =~= before.classes.update(c as int, outcome.class));
                assert forall|k: int| 0 <= k < self@.classes.len() implies {
                    &&& (#[trigger] self@.classes[k]).wf()
                    &&& self@.classes[k].id == k + 1
                    &&& self@.classes[k].bindings_valid(self@.teachers)
                    &&& self@.classes[k].covers(self@.lessons)
                } by {
                    if k != c {
                        assert(before.classes[k].wf());
                        lemma_class_keeps_bindings(before.classes[k], before.teachers, self@.teachers);
                    }
                }
            }
            if result.is_err() {
                proof {
                    lemma_generate_stops(school0, c + 1, school0.classes.len() as int);
                }
                return result;
            }
            c += 1;
        }
        Ok(())
    }

    /// Whether the school is fit for the generation of its timetables:
    /// teachers and classes have the identifiers that follow from their
    /// positions and grids of the weekly shape, every binding names a teacher
    /// of the registry who teaches the lesson, and every binding table has an
    /// entry for every lesson of the catalog, none of which has the
    /// identifier zero.
    pub fn is_ready(&self) -> (b: bool)
        ensures
            b == (self@.wf() && self@.catalog_covered()),
    {
        if !registry_is_valid(&self.teachers) {
            return false;
        }
        let mut c: usize = 0;
        while c < self.classes.len()
            invariant
                c <= self.classes.len(),
                registry_wf(self@.teachers),
                forall|k: int|
                    0 <= k < c ==> {
                        &&& (#[trigger] self@.classes[k]).wf()
                        &&& self@.classes[k].id == k + 1
                        &&& self@.classes[k].bindings_valid(self@.teachers)
                        &&& self@.classes[k].covers(self@.lessons)
                    },
            decreases self.classes.len() - c,
        {
            let class = &self.classes[c];
            if class.id == 0 || class.id - 1 != c || !class.is_ready(&self.lessons, &self.teachers) {
                assert(!({
                    &&& self@.classes[c as int].wf()
                    &&& self@.classes[c as int].id == c + 1
                    &&& self@.classes[c as int].bindings_valid(self@.teachers)
                    &&& self@.classes[c as int].covers(self@.lessons)
                }));
                return false;
            }
            c += 1;
        }
        true
    }
}

} // verus!
