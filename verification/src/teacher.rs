//! Teachers, their load, and the choice of a teacher for a lesson.

use vstd::prelude::*;
use crate::grid::{
    cells, cells_upto, count_in_day, grid_count_upto, grid_view, has_weekly_shape,
    lemma_grid_count_bounds, occupied, well_formed, Day, DAYS, DAY_LENGTH, ID,
};

verus! {

/// A teacher of the registry.
#[derive(Clone, Debug, PartialEq, Eq)]
pub struct Teacher {
    /// Identifier of the teacher: the position in the registry, from one.
    pub id: ID,
    /// Identifiers of the lessons that the teacher can give.
    pub subjects: Vec<ID>,
    /// The teacher's week; an occupied slot holds the class taught there.
    pub timetable: Vec<Day>,
}

/// A teacher as a mathematical value.
pub struct TeacherView {
    pub id: ID,
    pub subjects: Seq<ID>,
    pub timetable: Seq<Seq<ID>>,
}

impl View for Teacher {
    type V = TeacherView;

    open spec fn view(&self) -> TeacherView {
        TeacherView {
            id: self.id,
            subjects: self.subjects@,
            timetable: grid_view(self.timetable),
        }
    }
}

impl TeacherView {
    /// The teacher's timetable has the weekly shape.
    pub open spec fn wf(self) -> bool {
        well_formed(self.timetable)
    }

    /// Whether the teacher lists `lesson` among their subjects.
    pub open spec fn teaches(self, lesson: ID) -> bool {
        self.subjects.contains(lesson)
    }

    /// The share of the teacher's slots that are occupied, in percent, rounded
    /// down; zero for a timetable without slots.
    pub open spec fn blocked_percentage(self) -> nat {
        let total = cells(self.timetable);
        if total == 0 {
            0
        } else {
            occupied(self.timetable) * 100 / total
        }
    }
}

/// The registry as a sequence of mathematical values.
pub open spec fn registry_view(registry: Seq<Teacher>) -> Seq<TeacherView> {
    Seq::new(registry.len(), |i: int| registry[i]@)
}

/// Every teacher of the registry has a timetable of the weekly shape and the
/// identifier that follows from their position.
pub open spec fn registry_wf(registry: Seq<TeacherView>) -> bool {
    forall|i: int|
        0 <= i < registry.len() ==> (#[trigger] registry[i]).wf() && registry[i].id == i + 1
}

/// Two registries list the same teachers: as many, with the same identifiers
/// and subjects. Their timetables may differ.
pub open spec fn same_staff(before: Seq<TeacherView>, after: Seq<TeacherView>) -> bool {
    &&& after.len() == before.len()
    &&& forall|i: int|
        0 <= i < before.len() ==> (#[trigger] after[i]).id == before[i].id && after[i].subjects
            == before[i].subjects
}

/// Between two states of the registry no booking was undone or replaced: the
/// teachers are the same, and every slot that was occupied holds what it held.
pub open spec fn keeps_bookings(before: Seq<TeacherView>, after: Seq<TeacherView>) -> bool {
    &&& same_staff(before, after)
    &&& forall|i: int, d: int, p: int|
        #![trigger after[i].timetable[d][p]]
        0 <= i < before.len() && 0 <= d < DAYS && 0 <= p < DAY_LENGTH
            && before[i].timetable[d][p] != 0 ==> after[i].timetable[d][p]
            == before[i].timetable[d][p]
}

/// Whether some teacher of the registry teaches `lesson`.
pub open spec fn has_candidate(registry: Seq<TeacherView>, lesson: ID) -> bool {
    exists|i: int| 0 <= i < registry.len() && (#[trigger] registry[i]).teaches(lesson)
}

/// Whether the teacher at position `i` is the one to bind to `lesson`: they
/// teach it, no teacher of the lesson is less loaded, and every teacher of the
/// lesson before them is more loaded.
pub open spec fn is_pick(registry: Seq<TeacherView>, lesson: ID, i: int) -> bool {
    &&& 0 <= i < registry.len()
    &&& registry[i].teaches(lesson)
    &&& forall|j: int|
        0 <= j < registry.len() && (#[trigger] registry[j]).teaches(lesson)
            ==> registry[i].blocked_percentage() <= registry[j].blocked_percentage()
    &&& forall|j: int|
        0 <= j < i && (#[trigger] registry[j]).teaches(lesson) ==> registry[i].blocked_percentage()
            < registry[j].blocked_percentage()
}

/// Position of the teacher to bind to `lesson`, where one teaches it.
pub open spec fn pick(registry: Seq<TeacherView>, lesson: ID) -> int {
    choose|i: int| is_pick(registry, lesson, i)
}

/// At most one position is the pick.
pub proof fn lemma_pick_unique(registry: Seq<TeacherView>, lesson: ID, i: int, j: int)
    requires
        is_pick(registry, lesson, i),
        is_pick(registry, lesson, j),
    ensures
        i == j,
{
}

/// A position that is the pick is the one that `pick` names.
pub proof fn lemma_pick_is(registry: Seq<TeacherView>, lesson: ID, i: int)
    requires
        is_pick(registry, lesson, i),
    ensures
        pick(registry, lesson) == i,
        has_candidate(registry, lesson),
{
    lemma_pick_unique(registry, lesson, i, pick(registry, lesson));
}

/// Where somebody teaches the lesson, the registry has a pick.
pub proof fn lemma_pick_exists(registry: Seq<TeacherView>, lesson: ID)
    requires
        has_candidate(registry, lesson),
    ensures
        is_pick(registry, lesson, pick(registry, lesson)),
{
    let n = registry.len() as int;
    lemma_pick_among(registry, lesson, n);
    let i = choose|i: int| pick_among(registry, lesson, n, i);
    assert(is_pick(registry, lesson, i));
}

/// Whether position `i` is the pick among the first `n` teachers.
spec fn pick_among(registry: Seq<TeacherView>, lesson: ID, n: int, i: int) -> bool {
    &&& 0 <= i < n
    &&& registry[i].teaches(lesson)
    &&& forall|j: int|
        0 <= j < n && (#[trigger] registry[j]).teaches(lesson) ==> registry[i].blocked_percentage()
            <= registry[j].blocked_percentage()
    &&& forall|j: int|
        0 <= j < i && (#[trigger] registry[j]).teaches(lesson) ==> registry[i].blocked_percentage()
            < registry[j].blocked_percentage()
}

/// Where one of the first `n` teachers teaches the lesson, there is a pick
/// among them.
proof fn lemma_pick_among(registry: Seq<TeacherView>, lesson: ID, n: int)
    requires
        0 <= n <= registry.len(),
        exists|j: int| 0 <= j < n && (#[trigger] registry[j]).teaches(lesson),
    ensures
        exists|i: int| pick_among(registry, lesson, n, i),
    decreases n,
{
    let m = n - 1;
    if exists|j: int| 0 <= j < m && (#[trigger] registry[j]).teaches(lesson) {
        lemma_pick_among(registry, lesson, m);
        let b = choose|i: int| pick_among(registry, lesson, m, i);
        if registry[n - 1].teaches(lesson) && registry[n - 1].blocked_percentage()
            < registry[b].blocked_percentage() {
            assert(pick_among(registry, lesson, n, n - 1));
        } else {
            assert(pick_among(registry, lesson, n, b));
        }
    } else {
        assert(pick_among(registry, lesson, n, n - 1));
    }
}

impl Teacher {
    /// Whether the teacher lists `lesson` among their subjects.
    pub fn teaches(&self, lesson: ID) -> (b: bool)
        ensures
            b == self@.teaches(lesson),
    {
        let mut i: usize = 0;
        while i < self.subjects.len()
            invariant
                i <= self.subjects.len(),
                forall|j: int| 0 <= j < i ==> self.subjects@[j] != lesson,
            decreases self.subjects.len() - i,
        {
            if self.subjects[i] == lesson {
                return true;
            }
            i += 1;
        }
        false
    }

    /// The share of the teacher's slots that are occupied, in percent, rounded
    /// down. A timetable without slots gives zero.
    pub fn blocked_percentage(&self) -> (percentage: u32)
        requires
            cells(self@.timetable) <= usize::MAX,
        ensures
            percentage == self@.blocked_percentage(),
            percentage <= 100,
    {
        let ghost grid = grid_view(self.timetable);
        let mut total: usize = 0;
        let mut free: usize = 0;
        let mut d: usize = 0;
        while d < self.timetable.len()
            invariant
                d <= self.timetable.len(),
                grid == grid_view(self.timetable),
                cells(grid) <= usize::MAX,
                total == cells_upto(grid, d as int),
                free == grid_count_upto(grid, 0, d as int),
            decreases self.timetable.len() - d,
        {
            proof {
                lemma_grid_count_bounds(grid, 0, d + 1, grid.len() as int);
                lemma_grid_count_bounds(grid, 0, d + 1, d + 1);
            }
            let day = &self.timetable[d];
            total += day.len();
            free += count_in_day(day, 0);
            d += 1;
        }
        proof {
            lemma_grid_count_bounds(grid, 0, d as int, d as int);
        }
        if total == 0 {
            0
        } else {
            let blocked = total - free;
            let share = (blocked as u128) * 100 / (total as u128);
            assert(blocked * 100 / (total as int) <= 100) by (nonlinear_arith)
                requires
                    0 <= blocked <= total,
                    total > 0,
            ;
            share as u32
        }
    }
}

/// Whether every teacher of the registry has a timetable of the weekly shape
/// and the identifier that follows from their position.
pub fn registry_is_valid(registry: &Vec<Teacher>) -> (b: bool)
    ensures
        b == registry_wf(registry_view(registry@)),
{
    let ghost views = registry_view(registry@);
    let mut i: usize = 0;
    while i < registry.len()
        invariant
            i <= registry.len(),
            views == registry_view(registry@),
            forall|j: int| 0 <= j < i ==> (#[trigger] views[j]).wf() && views[j].id == j + 1,
        decreases registry.len() - i,
    {
        let teacher = &registry[i];
        if teacher.id == 0 || teacher.id - 1 != i || !has_weekly_shape(&teacher.timetable) {
            assert(!(views[i as int].wf() && views[i as int].id == i + 1));
            return false;
        }
        i += 1;
    }
    true
}

/// Chooses the teacher for `lesson`: among the teachers of the lesson the least
/// loaded, and among equally loaded ones the first. Returns the position in
/// the registry, or `None` where nobody teaches the lesson.
pub fn select_teacher(registry: &Vec<Teacher>, lesson: ID) -> (choice: Option<usize>)
    requires
        forall|i: int|
            0 <= i < registry@.len() ==> cells((#[trigger] registry@[i])@.timetable) <= usize::MAX,
    ensures
        match choice {
            Some(i) => is_pick(registry_view(registry@), lesson, i as int) && i == pick(
                registry_view(registry@),
                lesson,
            ),
            None => !has_candidate(registry_view(registry@), lesson),
        },
{
    let ghost views = registry_view(registry@);
    let mut best: Option<usize> = None;
    let mut lowest: u32 = 0;
    let mut i: usize = 0;
    while i < registry.len()
        invariant
            i <= registry.len(),
            views == registry_view(registry@),
            forall|k: int|
                0 <= k < registry@.len() ==> cells((#[trigger] registry@[k])@.timetable)
                    <= usize::MAX,
            match best {
                Some(b) => {
                    &&& b < i
                    &&& views[b as int].teaches(lesson)
                    &&& lowest == views[b as int].blocked_percentage()
                    &&& forall|j: int|
                        0 <= j < i && (#[trigger] views[j]).teaches(lesson) ==> lowest
                            <= views[j].blocked_percentage()
                    &&& forall|j: int|
                        0 <= j < b && (#[trigger] views[j]).teaches(lesson) ==> lowest
                            < views[j].blocked_percentage()
                },
                None => forall|j: int| 0 <= j < i ==> !(#[trigger] views[j]).teaches(lesson),
            },
        decreases registry.len() - i,
    {
        let teacher = &registry[i];
        if teacher.teaches(lesson) {
            let load = teacher.blocked_percentage();
            if best.is_none() || load < lowest {
                best = Some(i);
                lowest = load;
            }
        }
        i += 1;
    }
    proof {
        if let Some(b) = best {
            lemma_pick_is(views, lesson, b as int);
        }
    }
    best
}

} // verus!
