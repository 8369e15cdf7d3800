//! Booking the occurrences of one lesson into the slots that a class and its
//! teacher both have free.
//!
//! A pass visits the days in order and, within a day, the periods of a window
//! in ascending order. It books the earliest periods that are free for both,
//! as many as the lesson's limit per day and the occurrences still to be
//! placed admit.

use vstd::prelude::*;
use crate::grid::{
    count_in_day, count_upto, grid_count_upto, grid_occurrences, grid_view, occurrences,
    well_formed, Day, DAYS, DAY_LENGTH, ID, SHORT_WINDOW,
};
use crate::lesson::Lesson;

verus! {

/// The smaller of two numbers.
pub open spec fn least(a: nat, b: nat) -> nat {
    if a <= b {
        a
    } else {
        b
    }
}

/// Whether period `p` is free for the class and for the teacher.
pub open spec fn is_open(class_day: Seq<ID>, teacher_day: Seq<ID>, p: int) -> bool {
    class_day[p] == 0 && teacher_day[p] == 0
}

/// Number of periods before `n` that are free for the class and for the
/// teacher.
pub open spec fn open_upto(class_day: Seq<ID>, teacher_day: Seq<ID>, n: int) -> nat
    decreases n,
{
    if n <= 0 {
        0
    } else {
        open_upto(class_day, teacher_day, n - 1) + if is_open(class_day, teacher_day, n - 1) {
            1nat
        } else {
            0nat
        }
    }
}

/// How many more occurrences of `lesson` the limit per day admits on a day.
pub open spec fn room(class_day: Seq<ID>, lesson: ID, cap: nat) -> nat {
    let used = occurrences(class_day, lesson);
    if used >= cap {
        0
    } else {
        (cap - used) as nat
    }
}

/// Whether a scan of the periods before `window` that may book `quota`
/// occurrences books period `p`: the period is free for both, and fewer than
/// `quota` such periods come before it.
pub open spec fn takes(
    class_day: Seq<ID>,
    teacher_day: Seq<ID>,
    window: int,
    quota: nat,
    p: int,
) -> bool {
    &&& 0 <= p < window
    &&& is_open(class_day, teacher_day, p)
    &&& open_upto(class_day, teacher_day, p) < quota
}

/// Number of periods that such a scan books.
pub open spec fn placed(class_day: Seq<ID>, teacher_day: Seq<ID>, window: int, quota: nat) -> nat {
    least(quota, open_upto(class_day, teacher_day, window))
}

/// The row `row` with `mark` written into every period that the scan books.
pub open spec fn booked(
    row: Seq<ID>,
    class_day: Seq<ID>,
    teacher_day: Seq<ID>,
    window: int,
    quota: nat,
    mark: ID,
) -> Seq<ID> {
    Seq::new(
        row.len(),
        |p: int|
            if takes(class_day, teacher_day, window, quota, p) {
                mark
            } else {
                row[p]
            },
    )
}

/// One pass over the week: what it starts from and what it may do.
pub struct Pass {
    /// The class's grid before the pass; its slots hold lesson identifiers.
    pub week: Seq<Seq<ID>>,
    /// The teacher's grid before the pass; its slots hold class identifiers.
    pub timetable: Seq<Seq<ID>>,
    /// The lesson to place.
    pub lesson: ID,
    /// The class that receives it.
    pub class: ID,
    /// Most occurrences of the lesson on one day.
    pub cap: nat,
    /// Number of periods of each day that the pass may use, from the first.
    pub window: int,
    /// Occurrences to place.
    pub amount: nat,
}

impl Pass {
    /// The pass is over two grids of the weekly shape and a window within the
    /// day.
    pub open spec fn valid(self) -> bool {
        &&& well_formed(self.week)
        &&& well_formed(self.timetable)
        &&& 0 <= self.window <= DAY_LENGTH
    }

    /// Occurrences still to be placed when the pass reaches day `d`.
    pub open spec fn left_before(self, d: int) -> nat
        decreases d,
    {
        if d <= 0 {
            self.amount
        } else {
            let before = self.left_before(d - 1);
            let quota = least(room(self.week[d - 1], self.lesson, self.cap), before);
            (before - placed(self.week[d - 1], self.timetable[d - 1], self.window, quota)) as nat
        }
    }

    /// Occurrences that the pass may book on day `d`.
    pub open spec fn quota(self, d: int) -> nat {
        least(room(self.week[d], self.lesson, self.cap), self.left_before(d))
    }

    /// Whether the pass books period `p` of day `d`.
    pub open spec fn takes(self, d: int, p: int) -> bool {
        takes(self.week[d], self.timetable[d], self.window, self.quota(d), p)
    }

    /// Number of occurrences that the pass books on day `d`.
    pub open spec fn placed_on(self, d: int) -> nat {
        placed(self.week[d], self.timetable[d], self.window, self.quota(d))
    }

    /// The class's grid after the pass.
    pub open spec fn week_after(self) -> Seq<Seq<ID>> {
        Seq::new(
            self.week.len(),
            |d: int|
                booked(
                    self.week[d],
                    self.week[d],
                    self.timetable[d],
                    self.window,
                    self.quota(d),
                    self.lesson,
                ),
        )
    }

    /// The teacher's grid after the pass.
    pub open spec fn timetable_after(self) -> Seq<Seq<ID>> {
        Seq::new(
            self.timetable.len(),
            |d: int|
                booked(
                    self.timetable[d],
                    self.week[d],
                    self.timetable[d],
                    self.window,
                    self.quota(d),
                    self.class,
                ),
        )
    }

    /// Occurrences that the pass could not place.
    pub open spec fn left(self) -> nat {
        self.left_before(self.week.len() as int)
    }
}

/// What placing a lesson leaves behind.
pub struct Placement {
    /// The class's grid.
    pub week: Seq<Seq<ID>>,
    /// The teacher's grid.
    pub timetable: Seq<Seq<ID>>,
    /// Occurrences that found no slot.
    pub left: nat,
}

/// The pass over the short days: the first `SHORT_WINDOW` periods of each day,
/// for the lesson's whole weekly amount.
pub open spec fn short_pass(
    week: Seq<Seq<ID>>,
    timetable: Seq<Seq<ID>>,
    lesson: Lesson,
    class: ID,
) -> Pass {
    Pass {
        week,
        timetable,
        lesson: lesson.id,
        class,
        cap: lesson.max_per_day as nat,
        window: SHORT_WINDOW as int,
        amount: lesson.amount as nat,
    }
}

/// The pass over the long days: every period of each day, on the grids that
/// the short pass left, for the occurrences that it could not place.
pub open spec fn long_pass(
    week: Seq<Seq<ID>>,
    timetable: Seq<Seq<ID>>,
    lesson: Lesson,
    class: ID,
) -> Pass {
    let short = short_pass(week, timetable, lesson, class);
    Pass {
        week: short.week_after(),
        timetable: short.timetable_after(),
        lesson: lesson.id,
        class,
        cap: lesson.max_per_day as nat,
        window: DAY_LENGTH as int,
        amount: short.left(),
    }
}

/// Places a lesson for a class with a teacher: the short pass, and where that
/// leaves occurrences over, the long pass after it.
pub open spec fn place(
    week: Seq<Seq<ID>>,
    timetable: Seq<Seq<ID>>,
    lesson: Lesson,
    class: ID,
) -> Placement {
    let short = short_pass(week, timetable, lesson, class);
    if short.left() == 0 {
        Placement { week: short.week_after(), timetable: short.timetable_after(), left: 0 }
    } else {
        let long = long_pass(week, timetable, lesson, class);
        Placement { week: long.week_after(), timetable: long.timetable_after(), left: long.left() }
    }
}

/// Between two states of a class's and a teacher's grid, only booking took
/// place: every slot either kept both entries, or was free for both and now
/// holds the lesson for the class and the class for the teacher.
pub open spec fn books_free_slots(
    week: Seq<Seq<ID>>,
    timetable: Seq<Seq<ID>>,
    week_after: Seq<Seq<ID>>,
    timetable_after: Seq<Seq<ID>>,
    lesson: ID,
    class: ID,
) -> bool {
    forall|d: int, p: int|
        #![trigger week_after[d][p]]
        #![trigger timetable_after[d][p]]
        0 <= d < DAYS && 0 <= p < DAY_LENGTH ==> {
            ||| week_after[d][p] == week[d][p] && timetable_after[d][p] == timetable[d][p]
            ||| week[d][p] == 0 && timetable[d][p] == 0 && week_after[d][p] == lesson
                && timetable_after[d][p] == class
        }
}

/// A pass keeps the shape of both grids.
pub proof fn lemma_pass_keeps_shape(pass: Pass)
    requires
        pass.valid(),
    ensures
        well_formed(pass.week_after()),
        well_formed(pass.timetable_after()),
{
}

/// The number of free periods grows with the prefix.
pub proof fn lemma_open_upto_monotone(class_day: Seq<ID>, teacher_day: Seq<ID>, m: int, n: int)
    requires
        m <= n,
    ensures
        open_upto(class_day, teacher_day, m) <= open_upto(class_day, teacher_day, n),
    decreases n - m,
{
    if m < n {
        lemma_open_upto_monotone(class_day, teacher_day, m, n - 1);
    }
}

/// Counts over a prefix of the class's day after a scan: the slots of the
/// lesson are those from before and the ones booked in the prefix; the slots
/// of any other lesson are those from before.
proof fn lemma_scan_count_upto(
    class_day: Seq<ID>,
    teacher_day: Seq<ID>,
    window: int,
    quota: nat,
    lesson: ID,
    id: ID,
    n: int,
)
    requires
        lesson != 0,
        id != 0,
        0 <= n <= class_day.len(),
        0 <= window,
    ensures
        count_upto(booked(class_day, class_day, teacher_day, window, quota, lesson), id, n) == (
        if id == lesson {
            count_upto(class_day, id, n) + least(
                quota,
                open_upto(class_day, teacher_day, if n <= window { n } else { window }),
            )
        } else {
            count_upto(class_day, id, n)
        }),
    decreases n,
{
    if n > 0 {
        lemma_scan_count_upto(class_day, teacher_day, window, quota, lesson, id, n - 1);
        let after = booked(class_day, class_day, teacher_day, window, quota, lesson);
        assert(after[n - 1] == (if takes(class_day, teacher_day, window, quota, n - 1) {
            lesson
        } else {
            class_day[n - 1]
        }));
    }
}

/// A scan adds to the class's day as many slots of the lesson as it books, at
/// most up to the limit per day, and leaves the slots of every other lesson.
pub proof fn lemma_scan_occurrences(
    class_day: Seq<ID>,
    teacher_day: Seq<ID>,
    window: int,
    quota: nat,
    lesson: ID,
    id: ID,
)
    requires
        lesson != 0,
        id != 0,
        0 <= window <= class_day.len(),
    ensures
        occurrences(booked(class_day, class_day, teacher_day, window, quota, lesson), id) == (
        if id == lesson {
            occurrences(class_day, id) + placed(class_day, teacher_day, window, quota)
        } else {
            occurrences(class_day, id)
        }),
{
    lemma_scan_count_upto(
        class_day,
        teacher_day,
        window,
        quota,
        lesson,
        id,
        class_day.len() as int,
    );
}

impl Pass {
    /// The occurrences still to be placed never grow from day to day.
    pub proof fn lemma_left_shrinks(self, d: int)
        requires
            0 <= d,
        ensures
            self.left_before(d + 1) <= self.left_before(d) <= self.amount,
            self.left_before(d + 1) + self.placed_on(d) == self.left_before(d),
        decreases d,
    {
        if d > 0 {
            self.lemma_left_shrinks(d - 1);
        }
    }

    /// On every day the pass adds to the class's week as many slots of the
    /// lesson as it books there, so that the day never holds more of the
    /// lesson than it held before or than the limit per day; the slots of
    /// every other lesson stay as they are.
    pub proof fn lemma_day_counts(self, id: ID, d: int)
        requires
            self.valid(),
            self.lesson != 0,
            id != 0,
            0 <= d < DAYS,
        ensures
            id == self.lesson ==> occurrences(self.week_after()[d], id) == occurrences(
                self.week[d],
                id,
            ) + self.placed_on(d),
            id == self.lesson ==> occurrences(self.week_after()[d], id) <= occurrences(
                self.week[d],
                id,
            ) || occurrences(self.week_after()[d], id) <= self.cap,
            id != self.lesson ==> occurrences(self.week_after()[d], id) == occurrences(
                self.week[d],
                id,
            ),
    {
        lemma_scan_occurrences(
            self.week[d],
            self.timetable[d],
            self.window,
            self.quota(d),
            self.lesson,
            id,
        );
    }

    /// Over the first `d` days the pass adds to the class's week as many slots
    /// of the lesson as it has placed, and leaves the slots of every other
    /// lesson.
    pub proof fn lemma_counts_upto(self, id: ID, d: int)
        requires
            self.valid(),
            self.lesson != 0,
            id != 0,
            0 <= d <= DAYS,
        ensures
            id == self.lesson ==> grid_count_upto(self.week_after(), id, d) + self.left_before(d)
                == grid_count_upto(self.week, id, d) + self.amount,
            id != self.lesson ==> grid_count_upto(self.week_after(), id, d) == grid_count_upto(
                self.week,
                id,
                d,
            ),
        decreases d,
    {
        if d > 0 {
            self.lemma_counts_upto(id, d - 1);
            self.lemma_day_counts(id, d - 1);
            self.lemma_left_shrinks(d - 1);
        }
    }

    /// The pass adds to the class's week as many slots of the lesson as it
    /// has placed, and leaves the slots of every other lesson.
    pub proof fn lemma_counts(self, id: ID)
        requires
            self.valid(),
            self.lesson != 0,
            id != 0,
        ensures
            self.left() <= self.amount,
            id == self.lesson ==> grid_occurrences(self.week_after(), id) + self.left()
                == grid_occurrences(self.week, id) + self.amount,
            id != self.lesson ==> grid_occurrences(self.week_after(), id) == grid_occurrences(
                self.week,
                id,
            ),
    {
        self.lemma_counts_upto(id, DAYS as int);
        self.lemma_left_shrinks(DAYS as int);
    }
}

impl Pass {
    /// The pass only books slots that are free for the class and for the
    /// teacher.
    pub proof fn lemma_books_free_slots(self)
        requires
            self.valid(),
        ensures
            books_free_slots(
                self.week,
                self.timetable,
                self.week_after(),
                self.timetable_after(),
                self.lesson,
                self.class,
            ),
    {
    }
}

/// Placing a lesson keeps the shape of both grids and only books slots that
/// are free for the class and for the teacher.
pub proof fn lemma_place_books_free_slots(
    week: Seq<Seq<ID>>,
    timetable: Seq<Seq<ID>>,
    lesson: Lesson,
    class: ID,
)
    requires
        well_formed(week),
        well_formed(timetable),
    ensures
        ({
            let after = place(week, timetable, lesson, class);
            &&& well_formed(after.week)
            &&& well_formed(after.timetable)
            &&& books_free_slots(week, timetable, after.week, after.timetable, lesson.id, class)
        }),
{
    let short = short_pass(week, timetable, lesson, class);
    let long = long_pass(week, timetable, lesson, class);
    lemma_pass_keeps_shape(short);
    lemma_pass_keeps_shape(long);
    short.lemma_books_free_slots();
    long.lemma_books_free_slots();
}

/// Placing a lesson adds to the class's week as many slots of the lesson as
/// it does not leave over, and leaves the slots of every other lesson.
pub proof fn lemma_place_counts(
    week: Seq<Seq<ID>>,
    timetable: Seq<Seq<ID>>,
    lesson: Lesson,
    class: ID,
    id: ID,
)
    requires
        well_formed(week),
        well_formed(timetable),
        lesson.id != 0,
        id != 0,
    ensures
        ({
            let after = place(week, timetable, lesson, class);
            &&& after.left <= lesson.amount
            &&& id == lesson.id ==> grid_occurrences(after.week, id) + after.left
                == grid_occurrences(week, id) + lesson.amount
            &&& id != lesson.id ==> grid_occurrences(after.week, id) == grid_occurrences(week, id)
        }),
{
    let short = short_pass(week, timetable, lesson, class);
    let long = long_pass(week, timetable, lesson, class);
    lemma_pass_keeps_shape(short);
    short.lemma_counts(id);
    long.lemma_counts(id);
}

/// Placing a lesson never takes a day of the class beyond the lesson's limit
/// per day, unless the day was beyond it before, and leaves every day's slots
/// of every other lesson.
pub proof fn lemma_place_day_counts(
    week: Seq<Seq<ID>>,
    timetable: Seq<Seq<ID>>,
    lesson: Lesson,
    class: ID,
    id: ID,
    d: int,
)
    requires
        well_formed(week),
        well_formed(timetable),
        lesson.id != 0,
        id != 0,
        0 <= d < DAYS,
    ensures
        ({
            let after = place(week, timetable, lesson, class);
            &&& occurrences(week[d], id) <= occurrences(after.week[d], id)
            &&& id == lesson.id && occurrences(week[d], id) <= lesson.max_per_day ==> occurrences(
                after.week[d],
                id,
            ) <= lesson.max_per_day
            &&& id != lesson.id ==> occurrences(after.week[d], id) == occurrences(week[d], id)
        }),
{
    let short = short_pass(week, timetable, lesson, class);
    let long = long_pass(week, timetable, lesson, class);
    lemma_pass_keeps_shape(short);
    short.lemma_day_counts(id, d);
    long.lemma_day_counts(id, d);
}

/// Scans the first `window` periods of one day. Books the earliest periods
/// that are free for the class and for the teacher, until the day holds `cap`
/// occurrences of the lesson or none of the `remaining` is left, and returns
/// how many are left.
pub fn fill_day(
    class_day: &mut Day,
    teacher_day: &mut Day,
    lesson: ID,
    class: ID,
    cap: u8,
    window: usize,
    remaining: u8,
) -> (left: u8)
    requires
        window <= old(class_day).len(),
        window <= old(teacher_day).len(),
    ensures
        ({
            let quota = least(room(old(class_day)@, lesson, cap as nat), remaining as nat);
            &&& final(class_day)@ == booked(
                old(class_day)@,
                old(class_day)@,
                old(teacher_day)@,
                window as int,
                quota,
                lesson,
            )
            &&& final(teacher_day)@ == booked(
                old(teacher_day)@,
                old(class_day)@,
                old(teacher_day)@,
                window as int,
                quota,
                class,
            )
            &&& left == remaining - placed(old(class_day)@, old(teacher_day)@, window as int, quota)
        }),
{
    let used = count_in_day(class_day, lesson);
    let ghost c0 = class_day@;
    let ghost t0 = teacher_day@;
    let ghost quota = least(room(c0, lesson, cap as nat), remaining as nat);
    let mut today: usize = used;
    let mut left: u8 = remaining;
    let mut p: usize = 0;
    while p < window && left != 0 && today < cap as usize
        invariant
            p <= window,
            window <= c0.len(),
            window <= t0.len(),
            class_day@.len() == c0.len(),
            teacher_day@.len() == t0.len(),
            used == occurrences(c0, lesson),
            quota == least(room(c0, lesson, cap as nat), remaining as nat),
            today == used + least(quota, open_upto(c0, t0, p as int)),
            left == remaining - least(quota, open_upto(c0, t0, p as int)),
            forall|j: int|
                0 <= j < p ==> class_day@[j] == (if takes(c0, t0, window as int, quota, j) {
                    lesson
                } else {
                    c0[j]
                }),
            forall|j: int|
                0 <= j < p ==> teacher_day@[j] == (if takes(c0, t0, window as int, quota, j) {
                    class
                } else {
                    t0[j]
                }),
            forall|j: int| p <= j < c0.len() ==> class_day@[j] == c0[j],
            forall|j: int| p <= j < t0.len() ==> teacher_day@[j] == t0[j],
        decreases window - p,
    {
        if class_day[p] == 0 && teacher_day[p] == 0 {
            class_day[p] = lesson;
            teacher_day[p] = class;
            left -= 1;
            today += 1;
        }
        p += 1;
    }
    proof {
        let w = window as int;
        assert forall|j: int| p <= j < w implies !takes(c0, t0, w, quota, j) by {
            lemma_open_upto_monotone(c0, t0, p as int, j);
        }
        lemma_open_upto_monotone(c0, t0, p as int, w);
        assert(class_day@ =~= booked(c0, c0, t0, w, quota, lesson));
        assert(teacher_day@ =~= booked(t0, c0, t0, w, quota, class));
    }
    left
}

/// Runs one pass: scans the first `window` periods of every day in order and
/// returns how many of the `amount` occurrences could not be placed.
pub fn place_pass(
    week: &mut Vec<Day>,
    timetable: &mut Vec<Day>,
    lesson: ID,
    class: ID,
    cap: u8,
    window: usize,
    amount: u8,
) -> (left: u8)
    requires
        well_formed(grid_view(*old(week))),
        well_formed(grid_view(*old(timetable))),
        window <= DAY_LENGTH,
    ensures
        ({
            let pass = Pass {
                week: grid_view(*old(week)),
                timetable: grid_view(*old(timetable)),
                lesson,
                class,
                cap: cap as nat,
                window: window as int,
                amount: amount as nat,
            };
            &&& grid_view(*final(week)) == pass.week_after()
            &&& grid_view(*final(timetable)) == pass.timetable_after()
            &&& left == pass.left()
        }),
{
    let ghost pass = Pass {
        week: grid_view(*week),
        timetable: grid_view(*timetable),
        lesson,
        class,
        cap: cap as nat,
        window: window as int,
        amount: amount as nat,
    };
    let mut left: u8 = amount;
    let mut d: usize = 0;
    while d < DAYS
        invariant
            d <= DAYS,
            pass.valid(),
            pass.lesson == lesson,
            pass.class == class,
            pass.cap == cap,
            pass.window == window,
            week@.len() == DAYS,
            timetable@.len() == DAYS,
            left == pass.left_before(d as int),
            forall|i: int| 0 <= i < d ==> (#[trigger] week@[i])@ == pass.week_after()[i],
            forall|i: int| 0 <= i < d ==> (#[trigger] timetable@[i])@ == pass.timetable_after()[i],
            forall|i: int| d <= i < DAYS ==> (#[trigger] week@[i])@ == pass.week[i],
            forall|i: int| d <= i < DAYS ==> (#[trigger] timetable@[i])@ == pass.timetable[i],
        decreases DAYS - d,
    {
        left = fill_day(&mut week[d], &mut timetable[d], lesson, class, cap, window, left);
        d += 1;
    }
    assert(grid_view(*week) =~= pass.week_after());
    assert(grid_view(*timetable) =~= pass.timetable_after());
    left
}

} // verus!
