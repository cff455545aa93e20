//! The cursor controller.
//!
//! A `ProblemController` wraps one engine and a signed cursor. Directional
//! moves only add unit deltas; the cursor is wrapped back onto the board
//! torus by Euclidean modulo whenever a position is read or a cell is
//! marked, so it may drift arbitrarily far between uses.
use vstd::prelude::*;
use vstd::arithmetic::div_mod::{
    lemma_fundamental_div_mod, lemma_fundamental_div_mod_converse_mod,
    lemma_mod_add_multiples_vanish, lemma_mod_division_less_than_divisor,
    lemma_mod_sub_multiples_vanish, lemma_small_mod,
};
use crate::game::problem::{random_below, row_major, Mark, Point, Problem, ProblemView, Size, State};
use crate::runs::{circular_hints, ints_of, lemma_circular_hints_sum, lemma_rotation_invariants};
use crate::game::problem::filled_mask;

verus! {

/// The cursor position `p` wrapped onto a board of `rows` by `cols` cells:
/// each component reduced by Euclidean modulo, so the result lies in
/// `[0, rows) x [0, cols)` whatever sign or magnitude `p` had.
pub open spec fn norm_point(p: Point, rows: int, cols: int) -> Point {
    Point { row: ((p.row as int) % rows) as isize, column: ((p.column as int) % cols) as isize }
}

impl Point {
    /// This point wrapped onto the board torus.
    pub fn normalize(self, size: Size) -> (p: Point)
        requires
            1 <= size.row <= isize::MAX,
            1 <= size.column <= isize::MAX,
        ensures
            p == norm_point(self, size.row as int, size.column as int),
            0 <= p.row < size.row,
            0 <= p.column < size.column,
    {
        proof {
            lemma_mod_division_less_than_divisor(self.row as int, size.row as int);
            lemma_mod_division_less_than_divisor(self.column as int, size.column as int);
        }
        let row = self.row.checked_rem_euclid(size.row as isize).unwrap();
        let column = self.column.checked_rem_euclid(size.column as isize).unwrap();
        Point { row, column }
    }
}

/// A move direction on the board.
pub enum Direction {
    N,
    E,
    S,
    W,
}

/// The unit cursor delta of a move direction.
pub open spec fn delta(dir: Direction) -> Point {
    match dir {
        Direction::N => Point { row: -1isize, column: 0isize },
        Direction::E => Point { row: 0isize, column: 1isize },
        Direction::S => Point { row: 1isize, column: 0isize },
        Direction::W => Point { row: 0isize, column: -1isize },
    }
}

impl core::convert::From<Direction> for Point {
    fn from(dir: Direction) -> (p: Self) {
        match dir {
            Direction::N => Point { row: -1, column: 0 },
            Direction::E => Point { row: 0, column: 1 },
            Direction::S => Point { row: 1, column: 0 },
            Direction::W => Point { row: 0, column: -1 },
        }
    }
}

impl vstd::std_specs::convert::FromSpecImpl<Direction> for Point {
    open spec fn obeys_from_spec() -> bool {
        true
    }

    open spec fn from_spec(dir: Direction) -> Point {
        delta(dir)
    }
}

/// The mathematical content of a controller: the wrapped engine's view and
/// the raw (possibly unnormalized) cursor.
#[verifier::ext_equal]
pub struct ControllerView {
    pub problem: ProblemView,
    pub cursor: Point,
}

impl ControllerView {
    pub open spec fn wf(self) -> bool {
        self.problem.wf()
    }

    /// The cursor wrapped onto the board.
    pub open spec fn norm_cursor(self) -> Point {
        norm_point(self.cursor, self.problem.rows, self.problem.cols)
    }
}

/// The working-cell value that marking `target` leaves behind: a second press
/// of the same mark clears the cell; anything else becomes `Marked(target)`.
pub open spec fn toggled(s: State, target: Mark) -> State {
    if s == State::Marked(target) {
        State::NotMarked
    } else {
        State::Marked(target)
    }
}

/// The controller after marking `target` at the cursor: the cursor is left
/// normalized and the one working cell under it is toggled; the engine's
/// solution, hints and dimensions are untouched.
pub open spec fn marks_view(v: ControllerView, target: Mark) -> ControllerView {
    let np = v.norm_cursor();
    let r = np.row as int;
    let c = np.column as int;
    ControllerView {
        cursor: np,
        problem: ProblemView {
            working: v.problem.working.update(
                r,
                v.problem.working[r].update(c, toggled(v.problem.working[r][c], target)),
            ),
            ..v.problem
        },
    }
}

/// Stepping a coordinate one cell commutes with wrapping: the wrapped
/// coordinate after a unit step is the stepped wrapped coordinate, wrapped
/// again.
proof fn lemma_norm_step(x: int, m: int, d: int)
    requires
        m >= 1,
        -1 <= d <= 1,
    ensures
        (x + d) % m == ((x % m) + m + d) % m,
{
    lemma_mod_division_less_than_divisor(x, m);
    lemma_fundamental_div_mod(x, m);
    let r = x % m;
    let q = x / m;
    assert(m * q == q * m) by (nonlinear_arith);
    assert((q + 1) * m == q * m + m) by (nonlinear_arith);
    assert((q - 1) * m == q * m - m) by (nonlinear_arith);
    if r + d >= m {
        lemma_fundamental_div_mod_converse_mod(x + d, m, q + 1, 0);
        lemma_fundamental_div_mod_converse_mod(r + m + d, m, 2, 0);
    } else if r + d >= 0 {
        lemma_fundamental_div_mod_converse_mod(x + d, m, q, r + d);
        lemma_fundamental_div_mod_converse_mod(r + m + d, m, 1, r + d);
    } else {
        lemma_fundamental_div_mod_converse_mod(x + d, m, q - 1, m - 1);
        lemma_fundamental_div_mod_converse_mod(r + m + d, m, 0, m - 1);
    }
}

/// The interactive session: one engine, one cursor.
pub struct ProblemController {
    problem: Problem,
    point: Point,
}

impl View for ProblemController {
    type V = ControllerView;

    closed spec fn view(&self) -> ControllerView {
        ControllerView { problem: self.problem@, cursor: self.point }
    }
}

impl ProblemController {
    pub open spec fn wf(&self) -> bool {
        self@.wf()
    }

    /// Wraps an engine, placing the cursor on a uniformly random cell.
    pub fn from(problem: Problem) -> (ctrl: ProblemController)
        requires
            problem.wf(),
        ensures
            ctrl.wf(),
            ctrl@.problem == problem@,
            0 <= ctrl@.cursor.row && (ctrl@.cursor.row as int) < ctrl@.problem.rows,
            0 <= ctrl@.cursor.column && (ctrl@.cursor.column as int) < ctrl@.problem.cols,
    {
        let size = problem.board_size();
        let r = random_below(size.row);
        let c = random_below(size.column);
        let point = Point { row: r as isize, column: c as isize };
        ProblemController { problem, point }
    }

    /// Adds the direction's unit delta to the cursor; nothing is wrapped and
    /// the engine is untouched.
    fn key_move(&mut self, dir: Direction)
        requires
            isize::MIN <= old(self)@.cursor.row + delta(dir).row <= isize::MAX,
            isize::MIN <= old(self)@.cursor.column + delta(dir).column <= isize::MAX,
        ensures
            final(self)@.problem == old(self)@.problem,
            final(self)@.cursor.row == old(self)@.cursor.row + delta(dir).row,
            final(self)@.cursor.column == old(self)@.cursor.column + delta(dir).column,
    {
        let d: Point = dir.into();
        self.point.add_assign(d);
    }

    /// Moves the cursor one row up; from the top row the wrapped position
    /// lands on the bottom row, same column.
    pub fn key_move_up(&mut self)
        requires
            isize::MIN < old(self)@.cursor.row,
        ensures
            final(self)@.problem == old(self)@.problem,
            final(self)@.cursor.row == old(self)@.cursor.row - 1,
            final(self)@.cursor.column == old(self)@.cursor.column,
            old(self).wf() ==> final(self)@.norm_cursor() == (Point {
                row: ((old(self)@.norm_cursor().row + old(self)@.problem.rows - 1)
                    % old(self)@.problem.rows) as isize,
                column: old(self)@.norm_cursor().column,
            }),
    {
        self.key_move(Direction::N);
        proof {
            if old(self).wf() {
                lemma_norm_step(old(self)@.cursor.row as int, old(self)@.problem.rows, -1);
            }
        }
    }

    /// Moves the cursor one column right; from the last column the wrapped
    /// position lands on the first column, same row.
    pub fn key_move_right(&mut self)
        requires
            old(self)@.cursor.column < isize::MAX,
        ensures
            final(self)@.problem == old(self)@.problem,
            final(self)@.cursor.row == old(self)@.cursor.row,
            final(self)@.cursor.column == old(self)@.cursor.column + 1,
            old(self).wf() ==> final(self)@.norm_cursor() == (Point {
                row: old(self)@.norm_cursor().row,
                column: ((old(self)@.norm_cursor().column + 1) % old(self)@.problem.cols) as isize,
            }),
    {
        self.key_move(Direction::E);
        proof {
            if old(self).wf() {
                let cols = old(self)@.problem.cols;
                let nc = (old(self)@.cursor.column as int) % cols;
                lemma_norm_step(old(self)@.cursor.column as int, cols, 1);
                lemma_mod_add_multiples_vanish(nc + 1, cols);
            }
        }
    }

    /// Moves the cursor one row down; from the bottom row the wrapped
    /// position lands on the top row, same column.
    pub fn key_move_down(&mut self)
        requires
            old(self)@.cursor.row < isize::MAX,
        ensures
            final(self)@.problem == old(self)@.problem,
            final(self)@.cursor.row == old(self)@.cursor.row + 1,
            final(self)@.cursor.column == old(self)@.cursor.column,
            old(self).wf() ==> final(self)@.norm_cursor() == (Point {
                row: ((old(self)@.norm_cursor().row + 1) % old(self)@.problem.rows) as isize,
                column: old(self)@.norm_cursor().column,
            }),
    {
        self.key_move(Direction::S);
        proof {
            if old(self).wf() {
                let rows = old(self)@.problem.rows;
                let nr = (old(self)@.cursor.row as int) % rows;
                lemma_norm_step(old(self)@.cursor.row as int, rows, 1);
                lemma_mod_add_multiples_vanish(nr + 1, rows);
            }
        }
    }

    /// Moves the cursor one column left; from the first column the wrapped
    /// position lands on the last column, same row.
    pub fn key_move_left(&mut self)
        requires
            isize::MIN < old(self)@.cursor.column,
        ensures
            final(self)@.problem == old(self)@.problem,
            final(self)@.cursor.row == old(self)@.cursor.row,
            final(self)@.cursor.column == old(self)@.cursor.column - 1,
            old(self).wf() ==> final(self)@.norm_cursor() == (Point {
                row: old(self)@.norm_cursor().row,
                column: ((old(self)@.norm_cursor().column + old(self)@.problem.cols - 1)
                    % old(self)@.problem.cols) as isize,
            }),
    {
        self.key_move(Direction::W);
        proof {
            if old(self).wf() {
                lemma_norm_step(old(self)@.cursor.column as int, old(self)@.problem.cols, -1);
            }
        }
    }

    /// Normalizes the cursor, then toggles the cell under it with `state`.
    fn key_mark(&mut self, state: Mark)
        requires
            old(self).wf(),
        ensures
            final(self).wf(),
            final(self)@ == marks_view(old(self)@, state),
    {
        self.point_normalize();
        let cur = self.problem.get_working_board(self.point);
        let next = match cur {
            State::Marked(s) if s == state => State::NotMarked,
            _ => State::Marked(state),
        };
        self.problem.set_working_board(self.point, next);
        proof {
            assert(self@ =~~= marks_view(old(self)@, state));
        }
    }

    /// Marks the cell under the cursor filled, or clears a filled mark.
    pub fn key_mark_yes(&mut self)
        requires
            old(self).wf(),
        ensures
            final(self).wf(),
            final(self)@ == marks_view(old(self)@, Mark::Yes),
    {
        self.key_mark(Mark::Yes);
    }

    /// Marks the cell under the cursor known-empty, or clears such a mark.
    pub fn key_mark_no(&mut self)
        requires
            old(self).wf(),
        ensures
            final(self).wf(),
            final(self)@ == marks_view(old(self)@, Mark::No),
    {
        self.key_mark(Mark::No);
    }

    /// The board dimensions of the wrapped engine.
    pub fn board_size(&self) -> (s: Size)
        ensures
            s.row as int == self@.problem.rows,
            s.column as int == self@.problem.cols,
    {
        self.problem.board_size()
    }

    /// The working cell at an in-bounds point.
    pub fn get_working_board(&self, point: Point) -> (s: State)
        requires
            self.wf(),
            0 <= point.row && (point.row as int) < self@.problem.rows,
            0 <= point.column && (point.column as int) < self@.problem.cols,
        ensures
            s == self@.problem.working[point.row as int][point.column as int],
    {
        self.problem.get_working_board(point)
    }

    /// The row hints of the wrapped engine.
    pub fn get_row_hints(&self) -> (h: &Vec<Vec<usize>>)
        ensures
            crate::runs::hints_view(h@) == self@.problem.row_hints,
    {
        self.problem.get_row_hints()
    }

    /// The column hints of the wrapped engine.
    pub fn get_column_hints(&self) -> (h: &Vec<Vec<usize>>)
        ensures
            crate::runs::hints_view(h@) == self@.problem.col_hints,
    {
        self.problem.get_column_hints()
    }

    /// The cursor position, wrapped onto the board; the stored cursor is not
    /// changed.
    pub fn point(&self) -> (p: Point)
        requires
            self.wf(),
        ensures
            p == self@.norm_cursor(),
            0 <= p.row && (p.row as int) < self@.problem.rows,
            0 <= p.column && (p.column as int) < self@.problem.cols,
    {
        self.point.normalize(self.problem.board_size())
    }

    /// Every point whose working cell resolves to the wrong truth value.
    pub fn wrong_points(&self) -> (pv: Vec<Point>)
        requires
            self.wf(),
        ensures
            forall|q: Point|
                #[trigger] pv@.contains(q) ==> 0 <= q.row && (q.row as int) < self@.problem.rows
                    && 0 <= q.column && (q.column as int) < self@.problem.cols
                    && self@.problem.wrong_at(q.row as int, q.column as int),
            forall|r: int, c: int|
                0 <= r < self@.problem.rows && 0 <= c < self@.problem.cols
                    && #[trigger] self@.problem.wrong_at(r, c)
                    ==> pv@.contains(Point { row: r as isize, column: c as isize }),
            row_major(pv@),
            pv@.no_duplicates(),
    {
        self.problem.wrong_points()
    }

    /// Whether the working grid resolves to the solution everywhere.
    pub fn is_correct_answer(&self) -> (b: bool)
        requires
            self.wf(),
        ensures
            b == self@.problem.solved(),
    {
        self.problem.is_correct_answer()
    }

    /// Wraps the stored cursor onto the board in place.
    fn point_normalize(&mut self)
        requires
            old(self).wf(),
        ensures
            final(self).wf(),
            final(self)@.problem == old(self)@.problem,
            final(self)@.cursor == old(self)@.norm_cursor(),
            0 <= final(self)@.cursor.row && (final(self)@.cursor.row as int)
                < final(self)@.problem.rows,
            0 <= final(self)@.cursor.column && (final(self)@.cursor.column as int)
                < final(self)@.problem.cols,
    {
        self.point = self.point.normalize(self.problem.board_size());
    }
}

/// Marking the same value twice in a row clears the cell: if the cell under
/// the (normalized) cursor did not already hold `Marked(target)`, the first
/// press marks it and the second press returns it to `NotMarked`.
pub proof fn lemma_redundant_mark_toggles_off(v: ControllerView, target: Mark)
    requires
        v.wf(),
        v.problem.working[v.norm_cursor().row as int][v.norm_cursor().column as int]
            != State::Marked(target),
    ensures
        marks_view(marks_view(v, target), target).problem.working[v.norm_cursor().row as int][
            v.norm_cursor().column as int] == State::NotMarked,
{
    let np = v.norm_cursor();
    let r = np.row as int;
    let c = np.column as int;
    lemma_mod_division_less_than_divisor(v.cursor.row as int, v.problem.rows);
    lemma_mod_division_less_than_divisor(v.cursor.column as int, v.problem.cols);
    let v1 = marks_view(v, target);
    lemma_small_mod(np.row as nat, v.problem.rows as nat);
    lemma_small_mod(np.column as nat, v.problem.cols as nat);
    assert(v1.norm_cursor() == np);
    assert(v1.problem.working[r][c] == State::Marked(target));
}

/// Marking one value and then the other never clears: the cell ends up
/// `Marked(second)` whatever it held before.
pub proof fn lemma_mark_then_switch(v: ControllerView, first: Mark, second: Mark)
    requires
        v.wf(),
        first != second,
    ensures
        marks_view(marks_view(v, first), second).problem.working[v.norm_cursor().row as int][
            v.norm_cursor().column as int] == State::Marked(second),
{
    let np = v.norm_cursor();
    lemma_mod_division_less_than_divisor(v.cursor.row as int, v.problem.rows);
    lemma_mod_division_less_than_divisor(v.cursor.column as int, v.problem.cols);
    let v1 = marks_view(v, first);
    lemma_small_mod(np.row as nat, v.problem.rows as nat);
    lemma_small_mod(np.column as nat, v.problem.cols as nat);
    assert(v1.norm_cursor() == np);
}

/// Cursor wrap at the board edges: from the top row a move north lands, after
/// normalization, on the bottom row of the same column, and from the last
/// column a move east lands on the first column of the same row.
pub proof fn lemma_cursor_wrap_edges(v: ControllerView)
    requires
        v.wf(),
    ensures
        v.norm_cursor().row == 0 ==> norm_point(
            Point { row: (v.norm_cursor().row - 1) as isize, column: v.norm_cursor().column },
            v.problem.rows,
            v.problem.cols,
        ) == (Point {
            row: (v.problem.rows - 1) as isize,
            column: v.norm_cursor().column,
        }),
        v.norm_cursor().column == v.problem.cols - 1 ==> norm_point(
            Point { row: v.norm_cursor().row, column: (v.norm_cursor().column + 1) as isize },
            v.problem.rows,
            v.problem.cols,
        ) == (Point { row: v.norm_cursor().row, column: 0 as isize }),
{
    let rows = v.problem.rows;
    let cols = v.problem.cols;
    let np = v.norm_cursor();
    lemma_mod_division_less_than_divisor(v.cursor.row as int, rows);
    lemma_mod_division_less_than_divisor(v.cursor.column as int, cols);
    lemma_small_mod(np.row as nat, rows as nat);
    lemma_small_mod(np.column as nat, cols as nat);
    if np.row == 0 {
        lemma_fundamental_div_mod_converse_mod(-1, rows, -1, rows - 1);
    }
    if np.column == cols - 1 {
        lemma_fundamental_div_mod_converse_mod(cols, cols, 1, 0);
    }
}

/// On a board with four rows, four consecutive vertical moves in one
/// direction return the cursor, after normalization, to its starting cell;
/// the same holds of four horizontal moves on a board with four columns.
/// (Such a streak returns exactly when the extent divides four; on any other
/// extent it lands elsewhere.)
pub proof fn lemma_four_moves_return(v: ControllerView)
    requires
        v.wf(),
    ensures
        v.problem.rows == 4 ==> norm_point(
            Point { row: (v.norm_cursor().row - 4) as isize, column: v.norm_cursor().column },
            v.problem.rows,
            v.problem.cols,
        ) == v.norm_cursor(),
        v.problem.cols == 4 ==> norm_point(
            Point { row: v.norm_cursor().row, column: (v.norm_cursor().column + 4) as isize },
            v.problem.rows,
            v.problem.cols,
        ) == v.norm_cursor(),
{
    let rows = v.problem.rows;
    let cols = v.problem.cols;
    let np = v.norm_cursor();
    lemma_mod_division_less_than_divisor(v.cursor.row as int, rows);
    lemma_mod_division_less_than_divisor(v.cursor.column as int, cols);
    lemma_small_mod(np.row as nat, rows as nat);
    lemma_small_mod(np.column as nat, cols as nat);
    if rows == 4 {
        lemma_mod_sub_multiples_vanish(np.row as int, rows);
    }
    if cols == 4 {
        lemma_mod_sub_multiples_vanish(np.column as int + 4, cols);
    }
}

/// Number of decimal digits of `n` (one digit for `0`).
pub open spec fn dec_digits(n: int) -> int
    decreases n,
{
    if n < 10 {
        1
    } else {
        1 + dec_digits(n / 10)
    }
}

/// A positive number has no more digits than its own value.
pub proof fn lemma_dec_digits_le(n: int)
    requires
        n >= 1,
    ensures
        dec_digits(n) <= n,
    decreases n,
{
    if n >= 10 {
        lemma_fundamental_div_mod(n, 10);
        lemma_mod_division_less_than_divisor(n, 10);
        lemma_dec_digits_le(n / 10);
    }
}

/// Total decimal digits of a hint sequence.
pub open spec fn digits_sum(h: Seq<int>) -> int
    decreases h.len(),
{
    if h.len() == 0 {
        0
    } else {
        digits_sum(h.drop_last()) + dec_digits(h.last())
    }
}

/// Printed width of one hint line: its values' digits, space-separated.
pub open spec fn line_width(h: Seq<int>) -> int {
    h.len() - 1 + digits_sum(h)
}

/// The widest printed hint line of the board.
pub open spec fn max_line_width(hs: Seq<Seq<int>>) -> int
    decreases hs.len(),
{
    if hs.len() == 0 {
        0
    } else if line_width(hs.last()) > max_line_width(hs.drop_last()) {
        line_width(hs.last())
    } else {
        max_line_width(hs.drop_last())
    }
}

/// The longest hint sequence of the board.
pub open spec fn max_hint_len(hs: Seq<Seq<int>>) -> int
    decreases hs.len(),
{
    if hs.len() == 0 {
        0
    } else if hs.last().len() > max_hint_len(hs.drop_last()) {
        hs.last().len() as int
    } else {
        max_hint_len(hs.drop_last())
    }
}

/// `x` capped at the largest `u16`.
pub open spec fn capped(x: int) -> int {
    if x <= u16::MAX as int {
        x
    } else {
        u16::MAX as int
    }
}

/// Number of decimal digits of `n`.
fn dec_width(n: usize) -> (w: usize)
    ensures
        w == dec_digits(n as int),
        w >= 1,
    decreases n,
{
    if n < 10 {
        1
    } else {
        proof {
            lemma_fundamental_div_mod(n as int, 10);
            lemma_mod_division_less_than_divisor(n as int, 10);
            lemma_dec_digits_le(n as int / 10);
        }
        1 + dec_width(n / 10)
    }
}

/// Printed width of one hint line, capped at the largest `u16`.
fn line_width_capped(v: &Vec<usize>) -> (w: u16)
    requires
        v@.len() >= 1,
    ensures
        w as int == capped(line_width(ints_of(v@))),
{
    let cap: usize = 65535;
    let n = v.len();
    let mut acc: usize = if n - 1 <= cap {
        n - 1
    } else {
        cap
    };
    let mut i: usize = 0;
    while i < n
        invariant
            i <= n,
            n == v@.len(),
            cap == u16::MAX as int,
            acc as int == capped(n - 1 + digits_sum(ints_of(v@).take(i as int))),
        decreases n - i,
    {
        proof {
            assert(ints_of(v@).take(i as int) =~= ints_of(v@).take(i + 1 as int).drop_last());
            assert(ints_of(v@).take(i + 1 as int).last() == v@[i as int] as int);
            if v@[i as int] as int >= 1 {
                lemma_dec_digits_le(v@[i as int] as int);
            }
        }
        let d = dec_width(v[i]);
        let d2: usize = if d <= cap {
            d
        } else {
            cap
        };
        acc = acc + d2;
        if acc > cap {
            acc = cap;
        }
        i = i + 1;
    }
    proof {
        assert(ints_of(v@).take(n as int) =~= ints_of(v@));
    }
    acc as u16
}

/// The width needed to print the row hints beside the board: the widest
/// row-hint line, its values space-separated, capped at the largest `u16`.
pub fn row_hints_width(ctrl: &ProblemController) -> (w: u16)
    requires
        ctrl.wf(),
    ensures
        w as int == capped(max_line_width(ctrl@.problem.row_hints)),
{
    let hints = ctrl.get_row_hints();
    let ghost hs = ctrl@.problem.row_hints;
    let n = hints.len();
    proof {
        assert(hs.len() == ctrl@.problem.rows);
    }
    proof {
        assert forall|j: int| 0 <= j < n implies (#[trigger] hints@[j])@.len() >= 1 by {
            let mask = filled_mask(ctrl@.problem.answer[j]);
            lemma_rotation_invariants(hs[j], circular_hints(mask));
            lemma_circular_hints_sum(mask);
        }
    }
    let mut best: u16 = 0;
    let mut i: usize = 0;
    while i < n
        invariant
            i <= n,
            n == hints@.len(),
            hs == crate::runs::hints_view(hints@),
            ctrl@.problem.wf(),
            hs.len() == n,
            forall|j: int| 0 <= j < n ==> (#[trigger] hints@[j])@.len() >= 1,
            best as int == capped(max_line_width(hs.take(i as int))),
        decreases n - i,
    {
        proof {
            assert(hs.take(i + 1 as int).drop_last() =~= hs.take(i as int));
            assert(hs.take(i + 1 as int).last() == ints_of(hints@[i as int]@));
        }
        let w = line_width_capped(&hints[i]);
        if w > best {
            best = w;
        }
        i = i + 1;
    }
    proof {
        assert(hs.take(n as int) =~= hs);
    }
    best
}

/// The height needed to print the column hints above the board: the longest
/// column-hint sequence, capped at the largest `u16`.
pub fn column_hints_height(ctrl: &ProblemController) -> (h: u16)
    requires
        ctrl.wf(),
    ensures
        h as int == capped(max_hint_len(ctrl@.problem.col_hints)),
{
    let hints = ctrl.get_column_hints();
    let ghost hs = ctrl@.problem.col_hints;
    let n = hints.len();
    let mut best: u16 = 0;
    let mut i: usize = 0;
    while i < n
        invariant
            i <= n,
            n == hints@.len(),
            hs == crate::runs::hints_view(hints@),
            hs.len() == n,
            best as int == capped(max_hint_len(hs.take(i as int))),
        decreases n - i,
    {
        proof {
            assert(hs.take(i + 1 as int).drop_last() =~= hs.take(i as int));
            assert(hs.take(i + 1 as int).last() == ints_of(hints@[i as int]@));
        }
        let len_i = hints[i].len();
        let cur: u16 = if len_i <= 65535 {
            len_i as u16
        } else {
            65535
        };
        if cur > best {
            best = cur;
        }
        i = i + 1;
    }
    proof {
        assert(hs.take(n as int) =~= hs);
    }
    best
}

} // verus!
