use picross::game::problem::{Mark, Point, Problem, State};
use picross::game::tui_controller::{column_hints_height, row_hints_width, ProblemController};

fn grid(rows: &[&[u8]]) -> Vec<Vec<Mark>> {
    rows.iter()
        .map(|r| r.iter().map(|&c| if c == 1 { Mark::Yes } else { Mark::No }).collect())
        .collect()
}

fn controller(rows: &[&[u8]]) -> ProblemController {
    ProblemController::from(Problem::from(grid(rows)))
}

/// Walks the cursor to the top-left cell, so that tests are independent of
/// the random starting position.
fn to_origin(c: &mut ProblemController) {
    let p = c.point();
    for _ in 0..p.row {
        c.key_move_up();
    }
    for _ in 0..p.column {
        c.key_move_left();
    }
    assert_eq!(c.point(), Point { row: 0, column: 0 });
}

#[test]
fn starting_cursor_is_on_the_board() {
    let c = controller(&[&[1, 0, 1], &[0, 1, 0]]);
    let p = c.point();
    assert!((0..2).contains(&p.row));
    assert!((0..3).contains(&p.column));
}

#[test]
fn moves_wrap_at_every_edge() {
    let mut c = controller(&[&[0, 0, 0, 0], &[0, 0, 0, 0], &[0, 0, 0, 0]]);
    to_origin(&mut c);
    // North from row 0 wraps to the bottom row, same column.
    c.key_move_up();
    assert_eq!(c.point(), Point { row: 2, column: 0 });
    c.key_move_down();
    assert_eq!(c.point(), Point { row: 0, column: 0 });
    // West from column 0 wraps to the last column, same row.
    c.key_move_left();
    assert_eq!(c.point(), Point { row: 0, column: 3 });
    // East from the last column wraps back to column 0.
    c.key_move_right();
    assert_eq!(c.point(), Point { row: 0, column: 0 });
}

#[test]
fn four_moves_return_on_a_four_wide_board() {
    let mut c = controller(&[&[0, 0, 0, 0], &[0, 0, 0, 0], &[0, 0, 0, 0], &[0, 0, 0, 0]]);
    let start = c.point();
    for _ in 0..4 {
        c.key_move_right();
    }
    assert_eq!(c.point(), start);
    for _ in 0..4 {
        c.key_move_up();
    }
    assert_eq!(c.point(), start);
}

#[test]
fn moves_accumulate_before_normalization() {
    let mut c = controller(&[&[0, 0], &[0, 0], &[0, 0]]);
    to_origin(&mut c);
    // Seven rows down on a three-row board is one row down on the torus.
    for _ in 0..7 {
        c.key_move_down();
    }
    assert_eq!(c.point(), Point { row: 1, column: 0 });
}

#[test]
fn mark_sets_then_clears() {
    let mut c = controller(&[&[1]]);
    assert_eq!(c.get_working_board(Point { row: 0, column: 0 }), State::NotMarked);
    c.key_mark_yes();
    assert_eq!(c.get_working_board(Point { row: 0, column: 0 }), State::Marked(Mark::Yes));
    // Second press of the same mark clears the cell.
    c.key_mark_yes();
    assert_eq!(c.get_working_board(Point { row: 0, column: 0 }), State::NotMarked);
}

#[test]
fn mark_switches_between_values() {
    let mut c = controller(&[&[1]]);
    c.key_mark_yes();
    // The other mark replaces rather than clears.
    c.key_mark_no();
    assert_eq!(c.get_working_board(Point { row: 0, column: 0 }), State::Marked(Mark::No));
    c.key_mark_yes();
    assert_eq!(c.get_working_board(Point { row: 0, column: 0 }), State::Marked(Mark::Yes));
}

#[test]
fn mark_no_twice_clears() {
    let mut c = controller(&[&[1]]);
    c.key_mark_no();
    assert_eq!(c.get_working_board(Point { row: 0, column: 0 }), State::Marked(Mark::No));
    c.key_mark_no();
    assert_eq!(c.get_working_board(Point { row: 0, column: 0 }), State::NotMarked);
}

#[test]
fn mark_applies_to_the_wrapped_cell() {
    let mut c = controller(&[&[1, 0], &[0, 1]]);
    to_origin(&mut c);
    // Move up once: the cursor wraps to row 1; marking must hit (1, 0).
    c.key_move_up();
    c.key_mark_no();
    assert_eq!(c.get_working_board(Point { row: 1, column: 0 }), State::Marked(Mark::No));
    assert_eq!(c.get_working_board(Point { row: 0, column: 0 }), State::NotMarked);
}

#[test]
fn solve_through_controller() {
    let mut c = controller(&[&[1, 0], &[0, 1]]);
    assert!(!c.is_correct_answer());
    assert_eq!(c.wrong_points().len(), 2);
    to_origin(&mut c);
    c.key_mark_yes(); // (0,0)
    c.key_move_down();
    c.key_move_right();
    c.key_mark_yes(); // (1,1)
    assert!(c.is_correct_answer());
    assert!(c.wrong_points().is_empty());
}

#[test]
fn controller_exposes_engine_state() {
    let c = controller(&[&[1, 1, 0, 1]]);
    let size = c.board_size();
    assert_eq!(size.row, 1);
    assert_eq!(size.column, 4);
    assert_eq!(c.get_row_hints(), &vec![vec![3]]);
    assert_eq!(c.get_column_hints().len(), 4);
}

#[test]
fn hint_layout_widths() {
    // Row 0 1..(x12) 0 1..(x10): runs [12, 10], no wrap merge; printed as
    // "12 10", five cells wide whatever rotation was drawn.
    let mut row = vec![0u8];
    row.extend(std::iter::repeat(1).take(12));
    row.push(0);
    row.extend(std::iter::repeat(1).take(10));
    let rows: Vec<&[u8]> = vec![&row[..]];
    let c = controller(&rows);
    assert_eq!(row_hints_width(&c), 5);
    // Every column of this one-row board holds a single cell: height 1.
    assert_eq!(column_hints_height(&c), 1);
}

#[test]
fn hint_layout_heights() {
    // Column 0 reads 1 0 1 0 1 0 0: three runs and no wrap merge, so three
    // stacked hints.
    let c = controller(&[&[1, 0], &[0, 0], &[1, 0], &[0, 0], &[1, 0], &[0, 0], &[0, 0]]);
    assert_eq!(column_hints_height(&c), 3);
    // The widest row hint line is a single digit.
    assert_eq!(row_hints_width(&c), 1);
}
