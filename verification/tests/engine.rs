use picross::game::problem::{Mark, Point, Problem, State};

fn grid(rows: &[&[u8]]) -> Vec<Vec<Mark>> {
    rows.iter()
        .map(|r| r.iter().map(|&c| if c == 1 { Mark::Yes } else { Mark::No }).collect())
        .collect()
}

fn sorted(v: &Vec<usize>) -> Vec<usize> {
    let mut s = v.clone();
    s.sort();
    s
}

#[test]
fn board_size_and_answer() {
    let p = Problem::from(grid(&[&[1, 0], &[0, 1], &[1, 1]]));
    let size = p.board_size();
    assert_eq!(size.row, 3);
    assert_eq!(size.column, 2);
    assert_eq!(p.get_answer_board(Point { row: 0, column: 0 }), Mark::Yes);
    assert_eq!(p.get_answer_board(Point { row: 0, column: 1 }), Mark::No);
    assert_eq!(p.get_answer_board(Point { row: 2, column: 1 }), Mark::Yes);
}

#[test]
fn working_grid_starts_unmarked() {
    let p = Problem::from(grid(&[&[1, 0], &[0, 1]]));
    for row in 0..2 {
        for column in 0..2 {
            assert_eq!(p.get_working_board(Point { row, column }), State::NotMarked);
        }
    }
}

#[test]
fn wrap_merge_joins_leading_and_trailing_runs() {
    // Row 1 1 0 1: linear runs are [2, 1], but the line is circular and both
    // edge cells are filled, so the runs merge into the single hint [3].
    let p = Problem::from(grid(&[&[1, 1, 0, 1]]));
    assert_eq!(p.get_row_hints()[0], vec![3]);
}

#[test]
fn wrap_merge_single_split_run() {
    // Row 1 0 0 1: one circular run of length 2, split by the scan origin.
    let p = Problem::from(grid(&[&[1, 0, 0, 1]]));
    assert_eq!(p.get_row_hints()[0], vec![2]);
}

#[test]
fn no_merge_when_last_cell_empty() {
    // Row 1 0 1 0 keeps its two linear runs (any rotation of [1, 1]).
    let p = Problem::from(grid(&[&[1, 0, 1, 0]]));
    assert_eq!(p.get_row_hints()[0], vec![1, 1]);
}

#[test]
fn all_empty_row_yields_zero_hint() {
    let p = Problem::from(grid(&[&[0, 0, 0]]));
    assert_eq!(p.get_row_hints()[0], vec![0]);
    for c in 0..3 {
        assert_eq!(p.get_column_hints()[c], vec![0]);
    }
}

#[test]
fn all_empty_board_hints() {
    let p = Problem::from(grid(&[&[0, 0], &[0, 0]]));
    assert_eq!(p.get_row_hints(), &vec![vec![0], vec![0]]);
    assert_eq!(p.get_column_hints(), &vec![vec![0], vec![0]]);
}

#[test]
fn all_filled_row_yields_full_hint() {
    let p = Problem::from(grid(&[&[1, 1, 1, 1]]));
    assert_eq!(p.get_row_hints()[0], vec![4]);
}

#[test]
fn hint_values_rotation_invariant_multiset() {
    // Row 1 1 0 1 0: runs [2, 1], no wrap merge (last cell empty); whatever
    // rotation was drawn, the multiset of hint values is {1, 2}.
    let p = Problem::from(grid(&[&[1, 1, 0, 1, 0]]));
    assert_eq!(sorted(&p.get_row_hints()[0]), vec![1, 2]);
}

#[test]
fn hint_multisets_stable_across_constructions() {
    let cells: &[&[u8]] = &[&[1, 1, 0, 1, 0], &[0, 1, 1, 0, 1], &[1, 0, 1, 0, 1]];
    let a = Problem::from(grid(cells));
    let b = Problem::from(grid(cells));
    for r in 0..3 {
        assert_eq!(sorted(&a.get_row_hints()[r]), sorted(&b.get_row_hints()[r]));
    }
    for c in 0..5 {
        assert_eq!(sorted(&a.get_column_hints()[c]), sorted(&b.get_column_hints()[c]));
    }
}

#[test]
fn hint_sums_equal_filled_counts() {
    let cells: &[&[u8]] = &[&[1, 0, 1, 1], &[0, 0, 0, 0], &[1, 1, 1, 1]];
    let p = Problem::from(grid(cells));
    for r in 0..3 {
        let filled: usize = cells[r].iter().map(|&c| c as usize).sum();
        let hint_sum: usize = p.get_row_hints()[r].iter().sum();
        assert_eq!(hint_sum, filled);
    }
    for c in 0..4 {
        let filled: usize = cells.iter().map(|row| row[c] as usize).sum();
        let hint_sum: usize = p.get_column_hints()[c].iter().sum();
        assert_eq!(hint_sum, filled);
    }
}

#[test]
fn column_hints_wrap_too() {
    // Column 0 reads 1 0 1 top to bottom: circular merge gives [2].
    let p = Problem::from(grid(&[&[1, 0], &[0, 0], &[1, 0]]));
    assert_eq!(p.get_column_hints()[0], vec![2]);
    assert_eq!(p.get_column_hints()[1], vec![0]);
}

#[test]
fn wrong_points_lists_exactly_the_mismatches() {
    let mut p = Problem::from(grid(&[&[1, 0], &[0, 1]]));
    // Initially every filled solution cell is wrong (unmarked resolves to
    // not-filled), and no empty cell is.
    let wrong = p.wrong_points();
    assert_eq!(wrong.len(), 2);
    assert!(wrong.contains(&Point { row: 0, column: 0 }));
    assert!(wrong.contains(&Point { row: 1, column: 1 }));
    // Marking one filled cell removes exactly it.
    p.set_working_board(Point { row: 0, column: 0 }, State::Marked(Mark::Yes));
    let wrong = p.wrong_points();
    assert_eq!(wrong, vec![Point { row: 1, column: 1 }]);
    // Marking an empty cell filled adds it.
    p.set_working_board(Point { row: 0, column: 1 }, State::Marked(Mark::Yes));
    let wrong = p.wrong_points();
    assert_eq!(wrong.len(), 2);
    assert!(wrong.contains(&Point { row: 0, column: 1 }));
}

#[test]
fn wrong_points_come_in_row_major_order() {
    // Every cell of an all-filled board is initially wrong, so the result is
    // the whole board, scanned row by row, left to right.
    let p = Problem::from(grid(&[&[1, 1], &[1, 1]]));
    assert_eq!(
        p.wrong_points(),
        vec![
            Point { row: 0, column: 0 },
            Point { row: 0, column: 1 },
            Point { row: 1, column: 0 },
            Point { row: 1, column: 1 },
        ]
    );
    // Repeated calls in the same state return the same sequence.
    assert_eq!(p.wrong_points(), p.wrong_points());
}

#[test]
fn marked_empty_counts_as_not_filled() {
    let mut p = Problem::from(grid(&[&[1, 0]]));
    p.set_working_board(Point { row: 0, column: 0 }, State::Marked(Mark::Yes));
    // Leaving (0,1) unmarked already solves; marking it known-empty must not
    // change that.
    assert!(p.is_correct_answer());
    p.set_working_board(Point { row: 0, column: 1 }, State::Marked(Mark::No));
    assert!(p.is_correct_answer());
    // Marking the filled cell known-empty breaks it again.
    p.set_working_board(Point { row: 0, column: 0 }, State::Marked(Mark::No));
    assert!(!p.is_correct_answer());
}

#[test]
fn end_to_end_two_by_two() {
    let mut p = Problem::from(grid(&[&[1, 0], &[0, 1]]));
    assert!(!p.is_correct_answer());
    p.set_working_board(Point { row: 0, column: 0 }, State::Marked(Mark::Yes));
    p.set_working_board(Point { row: 1, column: 1 }, State::Marked(Mark::Yes));
    p.set_working_board(Point { row: 0, column: 1 }, State::Marked(Mark::No));
    p.set_working_board(Point { row: 1, column: 0 }, State::Marked(Mark::No));
    assert!(p.is_correct_answer());
    assert!(p.wrong_points().is_empty());
}

#[test]
fn mark_state_conversions() {
    assert_eq!(State::from(Mark::Yes), State::Marked(Mark::Yes));
    assert_eq!(State::from(Mark::No), State::Marked(Mark::No));
    assert_eq!(Mark::from(State::Marked(Mark::Yes)), Mark::Yes);
    assert_eq!(Mark::from(State::Marked(Mark::No)), Mark::No);
    assert_eq!(Mark::from(State::NotMarked), Mark::No);
}

#[test]
fn point_arithmetic() {
    let a = Point { row: 3, column: -2 };
    let b = Point { row: -1, column: 5 };
    assert_eq!(a.add(b), Point { row: 2, column: 3 });
    assert_eq!(a.sub(b), Point { row: 4, column: -7 });
    let mut c = a;
    c.add_assign(b);
    assert_eq!(c, Point { row: 2, column: 3 });
    c.sub_assign(b);
    assert_eq!(c, a);
}
