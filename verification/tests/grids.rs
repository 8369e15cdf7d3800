use timetable::grid::{
    count_in_day, has_weekly_shape, new_grid, rows, DAYS, DAY_LENGTH,
};

#[test]
fn new_grid_is_free() {
    let grid = new_grid();
    assert_eq!(DAYS, 5);
    assert_eq!(DAY_LENGTH, 10);
    assert_eq!(grid, vec![vec![0; 10]; 5]);
}

#[test]
fn count_in_day_counts_equal_slots() {
    assert_eq!(count_in_day(&vec![], 1), 0);
    assert_eq!(count_in_day(&vec![1, 2, 1, 0, 1], 1), 3);
    assert_eq!(count_in_day(&vec![1, 2, 1, 0, 1], 2), 1);
    assert_eq!(count_in_day(&vec![1, 2, 1, 0, 1], 0), 1);
    assert_eq!(count_in_day(&vec![1, 2, 1, 0, 1], 7), 0);
}

#[test]
fn has_weekly_shape_wants_five_days_of_ten_periods() {
    assert!(has_weekly_shape(&new_grid()));
    assert!(has_weekly_shape(&vec![vec![3; 10]; 5]));
    assert!(!has_weekly_shape(&vec![]));
    assert!(!has_weekly_shape(&vec![vec![0; 10]; 4]));
    assert!(!has_weekly_shape(&vec![vec![0; 10]; 6]));
    assert!(!has_weekly_shape(&vec![vec![0; 9]; 5]));
    let mut grid = new_grid();
    grid[4].push(0);
    assert!(!has_weekly_shape(&grid));
}

#[test]
fn rows_turn_days_into_columns() {
    let mut grid = new_grid();
    for day in 0..DAYS {
        for period in 0..DAY_LENGTH {
            grid[day][period] = 100 * day + period;
        }
    }
    let table = rows(&grid);
    assert_eq!(table.len(), DAY_LENGTH);
    assert_eq!(table[0], vec![0, 100, 200, 300, 400]);
    assert_eq!(table[7], vec![7, 107, 207, 307, 407]);
    assert_eq!(table[9], vec![9, 109, 209, 309, 409]);
    for period in 0..DAY_LENGTH {
        for day in 0..DAYS {
            assert_eq!(table[period][day], grid[day][period]);
        }
    }
}
