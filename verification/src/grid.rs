//! The weekly grid of slots shared by class and teacher timetables.

use vstd::prelude::*;

verus! {

/// Identifier of a lesson, a teacher or a class. Zero is never issued: in a
/// grid it marks a free slot, in a binding table a lesson without a teacher.
pub type ID = usize;

/// The slots of one day, by period.
pub type Day = Vec<ID>;

/// Number of days in a week.
pub const DAYS: usize = 5;

/// Number of periods in a day.
pub const DAY_LENGTH: usize = 10;

/// Last period of a short day.
pub const SHORT_DAY_LENGTH: usize = 6;

/// Number of periods that a short day spans: the periods up to and including
/// `SHORT_DAY_LENGTH`.
pub const SHORT_WINDOW: usize = SHORT_DAY_LENGTH + 1;

/// The grid as a sequence of days, each a sequence of slots.
pub open spec fn grid_view(grid: Vec<Day>) -> Seq<Seq<ID>> {
    Seq::new(grid@.len(), |d: int| grid@[d]@)
}

/// A grid has the fixed weekly shape: `DAYS` days of `DAY_LENGTH` periods.
pub open spec fn well_formed(grid: Seq<Seq<ID>>) -> bool {
    &&& grid.len() == DAYS
    &&& forall|d: int| 0 <= d < grid.len() ==> (#[trigger] grid[d]).len() == DAY_LENGTH
}

/// A day in which every slot is free.
pub open spec fn empty_day() -> Seq<ID> {
    Seq::new(DAY_LENGTH as nat, |p: int| 0usize)
}

/// The grid in which every slot is free.
pub open spec fn empty_grid() -> Seq<Seq<ID>> {
    Seq::new(DAYS as nat, |d: int| empty_day())
}

/// Number of slots among the first `n` of `row` that hold `id`.
pub open spec fn count_upto(row: Seq<ID>, id: ID, n: int) -> nat
    decreases n,
{
    if n <= 0 {
        0
    } else {
        count_upto(row, id, n - 1) + if row[n - 1] == id { 1nat } else { 0nat }
    }
}

/// Number of slots of `row` that hold `id`.
pub open spec fn occurrences(row: Seq<ID>, id: ID) -> nat {
    count_upto(row, id, row.len() as int)
}

/// Number of slots in the first `n` days of `grid` that hold `id`.
pub open spec fn grid_count_upto(grid: Seq<Seq<ID>>, id: ID, n: int) -> nat
    decreases n,
{
    if n <= 0 {
        0
    } else {
        grid_count_upto(grid, id, n - 1) + occurrences(grid[n - 1], id)
    }
}

/// Number of slots of `grid` that hold `id`.
pub open spec fn grid_occurrences(grid: Seq<Seq<ID>>, id: ID) -> nat {
    grid_count_upto(grid, id, grid.len() as int)
}

/// Number of slots in the first `n` days of `grid`.
pub open spec fn cells_upto(grid: Seq<Seq<ID>>, n: int) -> nat
    decreases n,
{
    if n <= 0 {
        0
    } else {
        cells_upto(grid, n - 1) + grid[n - 1].len()
    }
}

/// Number of slots of `grid`.
pub open spec fn cells(grid: Seq<Seq<ID>>) -> nat {
    cells_upto(grid, grid.len() as int)
}

/// Number of slots of `grid` that are not free.
pub open spec fn occupied(grid: Seq<Seq<ID>>) -> nat {
    (cells(grid) - grid_occurrences(grid, 0)) as nat
}

/// A count over a prefix of a row is at most the prefix's length, and grows
/// with the prefix.
pub proof fn lemma_count_upto_bounds(row: Seq<ID>, id: ID, m: int, n: int)
    requires
        0 <= m <= n,
    ensures
        count_upto(row, id, m) <= count_upto(row, id, n) <= count_upto(row, id, m) + (n - m),
        count_upto(row, id, m) <= m,
    decreases n,
{
    if m < n {
        lemma_count_upto_bounds(row, id, m, n - 1);
    } else if m > 0 {
        lemma_count_upto_bounds(row, id, m - 1, m - 1);
    }
}

/// A count over whole days is at most the number of their slots, and both
/// grow with the number of days.
pub proof fn lemma_grid_count_bounds(grid: Seq<Seq<ID>>, id: ID, m: int, n: int)
    requires
        0 <= m <= n,
    ensures
        grid_count_upto(grid, id, m) <= grid_count_upto(grid, id, n),
        cells_upto(grid, m) <= cells_upto(grid, n),
        grid_count_upto(grid, id, n) <= cells_upto(grid, n),
    decreases n,
{
    if n > 0 {
        if m < n {
            lemma_grid_count_bounds(grid, id, m, n - 1);
        } else {
            lemma_grid_count_bounds(grid, id, m - 1, n - 1);
        }
        lemma_count_upto_bounds(grid[n - 1], id, 0, grid[n - 1].len() as int);
    }
}

/// A grid of the weekly shape has `DAYS * DAY_LENGTH` slots.
pub proof fn lemma_cells_of_well_formed(grid: Seq<Seq<ID>>)
    requires
        well_formed(grid),
    ensures
        cells(grid) == DAYS * DAY_LENGTH,
{
    reveal_with_fuel(cells_upto, 6);
}

/// Builds a grid of the weekly shape with every slot free.
pub fn new_grid() -> (grid: Vec<Day>)
    ensures
        grid_view(grid) == empty_grid(),
{
    let mut grid: Vec<Day> = Vec::new();
    let mut d: usize = 0;
    while d < DAYS
        invariant
            d <= DAYS,
            grid@.len() == d,
            forall|i: int| 0 <= i < d ==> (#[trigger] grid@[i])@ == empty_day(),
        decreases DAYS - d,
    {
        let mut day: Day = Vec::new();
        let mut p: usize = 0;
        while p < DAY_LENGTH
            invariant
                p <= DAY_LENGTH,
                day@.len() == p,
                forall|i: int| 0 <= i < p ==> day@[i] == 0,
            decreases DAY_LENGTH - p,
        {
            day.push(0);
            p += 1;
        }
        assert(day@ =~= empty_day());
        grid.push(day);
        d += 1;
    }
    assert(grid_view(grid) =~~= empty_grid());
    grid
}

/// Whether a grid has the weekly shape.
pub fn has_weekly_shape(grid: &Vec<Day>) -> (b: bool)
    ensures
        b == well_formed(grid_view(*grid)),
{
    if grid.len() != DAYS {
        return false;
    }
    let mut d: usize = 0;
    while d < DAYS
        invariant
            d <= DAYS,
            grid@.len() == DAYS,
            forall|i: int| 0 <= i < d ==> (#[trigger] grid_view(*grid)[i]).len() == DAY_LENGTH,
        decreases DAYS - d,
    {
        if grid[d].len() != DAY_LENGTH {
            assert(grid_view(*grid)[d as int].len() != DAY_LENGTH);
            return false;
        }
        d += 1;
    }
    true
}

/// The grid by period: row `p` holds, for each day in order, the slot of that
/// day at period `p`.
pub fn rows(grid: &Vec<Day>) -> (table: Vec<Vec<ID>>)
    requires
        well_formed(grid_view(*grid)),
    ensures
        table@.len() == DAY_LENGTH,
        forall|p: int| 0 <= p < DAY_LENGTH ==> (#[trigger] table@[p])@.len() == DAYS,
        forall|p: int, d: int|
            0 <= p < DAY_LENGTH && 0 <= d < DAYS ==> (#[trigger] table@[p]@[d]) == grid_view(
                *grid,
            )[d][p],
{
    let mut table: Vec<Vec<ID>> = Vec::new();
    let mut p: usize = 0;
    while p < DAY_LENGTH
        invariant
            p <= DAY_LENGTH,
            well_formed(grid_view(*grid)),
            table@.len() == p,
            forall|q: int| 0 <= q < p ==> (#[trigger] table@[q])@.len() == DAYS,
            forall|q: int, d: int|
                0 <= q < p && 0 <= d < DAYS ==> (#[trigger] table@[q]@[d]) == grid_view(
                    *grid,
                )[d][q],
        decreases DAY_LENGTH - p,
    {
        let mut row: Vec<ID> = Vec::new();
        let mut d: usize = 0;
        while d < DAYS
            invariant
                d <= DAYS,
                p < DAY_LENGTH,
                well_formed(grid_view(*grid)),
                row@.len() == d,
                forall|e: int| 0 <= e < d ==> (#[trigger] row@[e]) == grid_view(*grid)[e][p as int],
            decreases DAYS - d,
        {
            assert(grid_view(*grid)[d as int].len() == DAY_LENGTH);
            row.push(grid[d][p]);
            d += 1;
        }
        table.push(row);
        p += 1;
    }
    table
}

/// Counts the slots of a day that hold `id`.
pub fn count_in_day(row: &Day, id: ID) -> (n: usize)
    ensures
        n == occurrences(row@, id),
{
    let mut n: usize = 0;
    let mut p: usize = 0;
    while p < row.len()
        invariant
            p <= row.len(),
            n == count_upto(row@, id, p as int),
            n <= p,
        decreases row.len() - p,
    {
        if row[p] == id {
            n += 1;
        }
        p += 1;
    }
    n
}

} // verus!
