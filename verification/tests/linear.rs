use picross::problem::{PointState, Problem, State};

fn grid(rows: &[&[u8]]) -> Vec<Vec<State>> {
    rows.iter()
        .map(|r| r.iter().map(|&c| if c == 1 { State::Yes } else { State::No }).collect())
        .collect()
}

#[test]
fn wrong_points_list_the_filled_cells() {
    let p = Problem::from(grid(&[&[1, 1, 0, 1]]));
    let wrong = p.wrong_points();
    assert_eq!(wrong.len(), 3);
    for &q in &wrong {
        assert_eq!(p.get_answer_board(q), State::Yes);
    }
}

#[test]
fn wrong_points_drive_a_solve() {
    // Initially the wrong points are exactly the filled solution cells; the
    // answer and working boards agree with that reading cell by cell.
    let mut p = Problem::from(grid(&[&[1, 0], &[0, 1]]));
    assert!(!p.is_correct_answer());
    let wrong = p.wrong_points();
    assert_eq!(wrong.len(), 2);
    for &q in &wrong {
        assert_eq!(p.get_answer_board(q), State::Yes);
        assert_eq!(p.get_working_board(q), PointState::NotMarked);
    }
    for q in wrong {
        p.set_working_board(q, PointState::Marked(State::Yes));
    }
    assert!(p.is_correct_answer());
    assert!(p.wrong_points().is_empty());
}

#[test]
fn marked_empty_stays_wrong_until_filled() {
    let mut p = Problem::from(grid(&[&[1, 1]]));
    let wrong = p.wrong_points();
    assert_eq!(wrong.len(), 2);
    // Marking a filled cell known-empty keeps it wrong; marking it filled
    // fixes it.
    let q = wrong[0];
    p.set_working_board(q, PointState::Marked(State::No));
    assert_eq!(p.wrong_points().len(), 2);
    p.set_working_board(q, PointState::Marked(State::Yes));
    assert_eq!(p.wrong_points().len(), 1);
    p.set_working_board(wrong[1], PointState::Marked(State::Yes));
    assert!(p.is_correct_answer());
}

#[test]
fn wrong_points_repeat_identically() {
    let p = Problem::from(grid(&[&[1, 1], &[0, 1]]));
    let wrong = p.wrong_points();
    assert_eq!(wrong.len(), 3);
    // Row-major: (0,0), (0,1), (1,1); the coordinates are private here, so
    // check the order through the answer cells and pairwise distinctness.
    for w in wrong.windows(2) {
        assert_ne!(w[0], w[1]);
    }
    assert_eq!(p.get_answer_board(wrong[0]), State::Yes);
    // Repeated calls in the same state return the same sequence.
    assert_eq!(p.wrong_points(), p.wrong_points());
}

#[test]
fn point_state_conversion() {
    assert_eq!(State::from(PointState::Marked(State::Yes)), State::Yes);
    assert_eq!(State::from(PointState::Marked(State::No)), State::No);
    assert_eq!(State::from(PointState::NotMarked), State::No);
}

#[test]
fn all_empty_board_solved_at_once() {
    let p = Problem::from(grid(&[&[0, 0, 0], &[0, 0, 0]]));
    assert!(p.is_correct_answer());
    assert!(p.wrong_points().is_empty());
}
