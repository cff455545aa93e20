//! The toroidal puzzle engine.
//!
//! A `Problem` owns an immutable solution grid, the circular run-length hints
//! derived from it once at construction (each rotated by a random amount so
//! that the hint order leaks nothing about the line's phase), and a working
//! grid of player marks. It answers correctness queries against the hidden
//! solution.
use vstd::prelude::*;
use rand::Rng;
use crate::runs::{
    circular_hints, count_true, grid_view, hints_view, ints_of, is_rotation_of,
    linear_runs, lemma_all_empty_hints, lemma_circular_hints_sum, lemma_circular_merge,
    lemma_rotation_invariants, lemma_rotation_of_singleton, lemma_rotations_same_multiset,
    lemma_scan_runs_props, lemma_sum_first, lemma_sum_nonneg, rotate_left, scan_runs, sum_of,
};

verus! {

/// The ground truth of one solution cell: filled (`Yes`) or empty (`No`).
/// Also the two values a player can mark a working cell with.
#[derive(Debug, Copy, Clone, PartialEq, Eq, Structural)]
pub enum Mark {
    Yes,
    No,
}

/// The player-visible state of one working-grid cell.
#[derive(Debug, Copy, Clone, PartialEq, Eq, Structural)]
pub enum State {
    NotMarked,
    Marked(Mark),
}

impl core::convert::From<Mark> for State {
    fn from(value: Mark) -> (s: Self) {
        State::Marked(value)
    }
}

impl vstd::std_specs::convert::FromSpecImpl<Mark> for State {
    open spec fn obeys_from_spec() -> bool {
        true
    }

    open spec fn from_spec(value: Mark) -> State {
        State::Marked(value)
    }
}

impl core::convert::From<State> for Mark {
    fn from(value: State) -> (m: Self) {
        match value {
            State::Marked(Mark::Yes) => Mark::Yes,
            _ => Mark::No,
        }
    }
}

impl vstd::std_specs::convert::FromSpecImpl<State> for Mark {
    open spec fn obeys_from_spec() -> bool {
        true
    }

    open spec fn from_spec(value: State) -> Mark {
        if value == State::Marked(Mark::Yes) {
            Mark::Yes
        } else {
            Mark::No
        }
    }
}

/// The filled-cell mask of a line of solution cells.
pub open spec fn filled_mask(line: Seq<Mark>) -> Seq<bool> {
    line.map_values(|m: Mark| m == Mark::Yes)
}

/// The points appear in strictly increasing row-major order: earlier entries
/// have a smaller row, or the same row and a smaller column.
pub open spec fn row_major(s: Seq<Point>) -> bool {
    forall|i: int, j: int|
        0 <= i < j < s.len() ==> ((#[trigger] s[i]).row < (#[trigger] s[j]).row || (s[i].row
            == s[j].row && s[i].column < s[j].column))
}

/// Board dimensions; both are at least 1 for a well-formed board.
#[derive(Debug, Copy, Clone, PartialEq, Eq, Structural)]
pub struct Size {
    pub row: usize,
    pub column: usize,
}

/// A board coordinate. The components are signed so that directional deltas
/// compose freely before being wrapped back onto the board.
#[derive(Debug, Copy, Clone, PartialEq, Eq, Structural)]
pub struct Point {
    pub row: isize,
    pub column: isize,
}

impl Point {
    /// Component-wise sum.
    pub fn add(self, rhs: Self) -> (p: Point)
        requires
            isize::MIN <= self.row + rhs.row <= isize::MAX,
            isize::MIN <= self.column + rhs.column <= isize::MAX,
        ensures
            p.row == self.row + rhs.row,
            p.column == self.column + rhs.column,
    {
        Point { row: self.row + rhs.row, column: self.column + rhs.column }
    }

    /// Component-wise difference.
    pub fn sub(self, rhs: Self) -> (p: Point)
        requires
            isize::MIN <= self.row - rhs.row <= isize::MAX,
            isize::MIN <= self.column - rhs.column <= isize::MAX,
        ensures
            p.row == self.row - rhs.row,
            p.column == self.column - rhs.column,
    {
        Point { row: self.row - rhs.row, column: self.column - rhs.column }
    }

    /// Component-wise sum in place.
    pub fn add_assign(&mut self, other: Self)
        requires
            isize::MIN <= old(self).row + other.row <= isize::MAX,
            isize::MIN <= old(self).column + other.column <= isize::MAX,
        ensures
            final(self).row == old(self).row + other.row,
            final(self).column == old(self).column + other.column,
    {
        self.row = self.row + other.row;
        self.column = self.column + other.column;
    }

    /// Component-wise difference in place.
    pub fn sub_assign(&mut self, other: Self)
        requires
            isize::MIN <= old(self).row - other.row <= isize::MAX,
            isize::MIN <= old(self).column - other.column <= isize::MAX,
        ensures
            final(self).row == old(self).row - other.row,
            final(self).column == old(self).column - other.column,
    {
        self.row = self.row - other.row;
        self.column = self.column - other.column;
    }
}

/// The mathematical content of a `Problem`: its dimensions, solution grid,
/// hint sequences and working grid.
#[verifier::ext_equal]
pub struct ProblemView {
    pub rows: int,
    pub cols: int,
    pub answer: Seq<Seq<Mark>>,
    pub working: Seq<Seq<State>>,
    pub row_hints: Seq<Seq<int>>,
    pub col_hints: Seq<Seq<int>>,
}

impl ProblemView {
    /// Column `c` of the solution grid, read top to bottom.
    pub open spec fn column(self, c: int) -> Seq<Mark> {
        Seq::new(self.answer.len(), |r: int| self.answer[r][c])
    }

    /// Whether the working cell at `(r, c)` resolves to the wrong truth value:
    /// only a cell marked `Yes` counts as filled; an unmarked cell and a cell
    /// marked `No` both count as not filled.
    pub open spec fn wrong_at(self, r: int, c: int) -> bool {
        (self.working[r][c] == State::Marked(Mark::Yes)) != (self.answer[r][c] == Mark::Yes)
    }

    /// The puzzle is solved when no cell resolves wrongly.
    pub open spec fn solved(self) -> bool {
        forall|r: int, c: int|
            0 <= r < self.rows && 0 <= c < self.cols ==> !(#[trigger] self.wrong_at(r, c))
    }

    /// Well-formedness: the board is a non-empty rectangle whose dimensions
    /// fit a signed coordinate, the working grid matches it, and every line's
    /// hints are some rotation of that line's circular run decomposition.
    pub open spec fn wf(self) -> bool {
        &&& 1 <= self.rows <= isize::MAX as int
        &&& 1 <= self.cols <= isize::MAX as int
        &&& self.answer.len() == self.rows
        &&& forall|r: int| 0 <= r < self.rows ==> (#[trigger] self.answer[r]).len() == self.cols
        &&& self.working.len() == self.rows
        &&& forall|r: int| 0 <= r < self.rows ==> (#[trigger] self.working[r]).len() == self.cols
        &&& self.row_hints.len() == self.rows
        &&& forall|r: int|
            0 <= r < self.rows ==> is_rotation_of(
                #[trigger] self.row_hints[r],
                circular_hints(filled_mask(self.answer[r])),
            )
        &&& self.col_hints.len() == self.cols
        &&& forall|c: int|
            0 <= c < self.cols ==> is_rotation_of(
                #[trigger] self.col_hints[c],
                circular_hints(filled_mask(self.column(c))),
            )
    }
}

/// The puzzle engine: hidden solution, derived hints, mutable working grid.
pub struct Problem {
    answer_board: Vec<Vec<Mark>>,
    row_hints: Vec<Vec<usize>>,
    column_hints: Vec<Vec<usize>>,
    working_board: Vec<Vec<State>>,
    board_size: Size,
}

impl View for Problem {
    type V = ProblemView;

    closed spec fn view(&self) -> ProblemView {
        ProblemView {
            rows: self.board_size.row as int,
            cols: self.board_size.column as int,
            answer: grid_view(self.answer_board@),
            working: grid_view(self.working_board@),
            row_hints: hints_view(self.row_hints@),
            col_hints: hints_view(self.column_hints@),
        }
    }
}

/// Relies on rand::Rng::gen_range over `0..n`, which returns a uniformly
/// random value of the non-empty range; nothing more can be promised of a
/// random draw than its bounds.
#[verifier::external_body]
pub(crate) fn random_below(n: usize) -> (r: usize)
    requires
        n >= 1,
    ensures
        r < n,
{
    rand::thread_rng().gen_range(0..n)
}

/// The circular hints of one line, before rotation: scan the line counting
/// consecutive `Yes` runs; a line with no completed run yields its open run
/// length as the single hint (`0` when all empty); otherwise a trailing open
/// run merges into the first run when the line starts with `Yes`.
fn line_hints(line: &Vec<Mark>) -> (h: Vec<usize>)
    requires
        1 <= line@.len(),
    ensures
        ints_of(h@) == circular_hints(filled_mask(line@)),
        h@.len() >= 1,
{
    let ghost mask = filled_mask(line@);
    let n = line.len();
    let mut hint: Vec<usize> = Vec::new();
    let mut len: usize = 0;
    let begin_yes = line[0] == Mark::Yes;
    let mut column: usize = 0;
    while column < n
        invariant
            n == line@.len() <= usize::MAX,
            mask == filled_mask(line@),
            column <= n,
            ints_of(hint@) == scan_runs(mask, column as int).0,
            len as int == scan_runs(mask, column as int).1,
            len <= column,
        decreases n - column,
    {
        proof {
            assert(mask[column as int] == (line@[column as int] == Mark::Yes));
        }
        if line[column] == Mark::Yes {
            len = len + 1;
        } else {
            if len != 0 {
                let ghost pre = hint@;
                hint.push(len);
                proof {
                    assert(ints_of(hint@) =~= ints_of(pre).push(len as int));
                }
                len = 0;
            }
        }
        column = column + 1;
    }
    proof {
        assert(mask.len() == line@.len());
        lemma_scan_runs_props(mask, n as int);
        assert(mask.take(n as int) =~= mask);
        assert(mask[0] == (line@[0] == Mark::Yes));
    }
    let ghost sc = scan_runs(mask, n as int);
    if hint.len() == 0 {
        let ghost pre = hint@;
        hint.push(len);
        proof {
            assert(ints_of(pre) =~= Seq::<int>::empty());
            assert(ints_of(hint@) =~= seq![len as int]);
            assert(circular_hints(mask) == seq![sc.1]);
        }
    } else if begin_yes {
        proof {
            lemma_sum_first(ints_of(hint@));
            assert(forall|i: int|
                0 <= i < ints_of(hint@).drop_first().len()
                    ==> ints_of(hint@).drop_first()[i] >= 0);
            lemma_sum_nonneg(ints_of(hint@).drop_first());
            assert(hint@[0] + len <= sum_of(ints_of(hint@)) + len <= n);
        }
        let h0 = hint[0];
        let ghost pre = hint@;
        hint[0] = h0 + len;
        proof {
            assert(ints_of(hint@) =~= ints_of(pre).update(0, h0 + len as int));
        }
    } else if len != 0 {
        let ghost pre = hint@;
        hint.push(len);
        proof {
            assert(ints_of(hint@) =~= ints_of(pre).push(len as int));
        }
    }
    hint
}

/// `h` rotated left by `k` places.
fn rotate_hints(h: &Vec<usize>, k: usize) -> (r: Vec<usize>)
    requires
        k < h@.len(),
    ensures
        ints_of(r@) == rotate_left(ints_of(h@), k as int),
        r@.len() == h@.len(),
{
    let n = h.len();
    let mut out: Vec<usize> = Vec::new();
    let mut i: usize = k;
    while i < n
        invariant
            k <= i <= n,
            n == h@.len(),
            out@ == h@.subrange(k as int, i as int),
        decreases n - i,
    {
        let ghost pre = out@;
        out.push(h[i]);
        proof {
            assert(out@ =~= h@.subrange(k as int, i + 1 as int));
        }
        i = i + 1;
    }
    let mut j: usize = 0;
    while j < k
        invariant
            j <= k < n,
            n == h@.len(),
            out@ == h@.subrange(k as int, n as int) + h@.subrange(0, j as int),
        decreases k - j,
    {
        let ghost pre = out@;
        out.push(h[j]);
        proof {
            assert(out@ =~= h@.subrange(k as int, n as int) + h@.subrange(0, j + 1 as int));
        }
        j = j + 1;
    }
    proof {
        assert(ints_of(out@) =~= rotate_left(ints_of(h@), k as int));
    }
    out
}

/// Column `c` of the solution grid, gathered top to bottom.
fn column_of(board: &Vec<Vec<Mark>>, c: usize) -> (col: Vec<Mark>)
    requires
        forall|i: int| 0 <= i < board@.len() ==> (c as int) < (#[trigger] board@[i])@.len(),
    ensures
        col@.len() == board@.len(),
        forall|i: int| 0 <= i < board@.len() ==> col@[i] == (#[trigger] board@[i])@[c as int],
{
    let n = board.len();
    let mut col: Vec<Mark> = Vec::new();
    let mut i: usize = 0;
    while i < n
        invariant
            i <= n,
            n == board@.len(),
            forall|r: int| 0 <= r < board@.len() ==> (c as int) < (#[trigger] board@[r])@.len(),
            col@.len() == i,
            forall|r: int| 0 <= r < i ==> col@[r] == (#[trigger] board@[r])@[c as int],
        decreases n - i,
    {
        col.push(board[i][c]);
        i = i + 1;
    }
    col
}

/// A grid of `rows` by `cols` cells, all `NotMarked`.
fn new_working_grid(rows: usize, cols: usize) -> (g: Vec<Vec<State>>)
    ensures
        g@.len() == rows,
        forall|r: int| 0 <= r < rows ==> (#[trigger] g@[r])@.len() == cols,
        forall|r: int, c: int|
            0 <= r < rows && 0 <= c < cols ==> (#[trigger] g@[r]@[c]) == State::NotMarked,
{
    let mut g: Vec<Vec<State>> = Vec::new();
    let mut r: usize = 0;
    while r < rows
        invariant
            r <= rows,
            g@.len() == r,
            forall|i: int| 0 <= i < r ==> (#[trigger] g@[i])@.len() == cols,
            forall|i: int, c: int|
                0 <= i < r && 0 <= c < cols ==> (#[trigger] g@[i]@[c]) == State::NotMarked,
        decreases rows - r,
    {
        let mut line: Vec<State> = Vec::new();
        let mut c: usize = 0;
        while c < cols
            invariant
                c <= cols,
                line@.len() == c,
                forall|j: int| 0 <= j < c ==> line@[j] == State::NotMarked,
            decreases cols - c,
        {
            line.push(State::NotMarked);
            c = c + 1;
        }
        g.push(line);
        r = r + 1;
    }
    g
}

impl Problem {
    /// Whether the engine is well formed; established by construction and
    /// preserved by every operation.
    pub open spec fn wf(&self) -> bool {
        self@.wf()
    }

    /// Builds an engine from a solution grid: the working grid starts all
    /// `NotMarked`, and every row and column hint is computed by circular
    /// run decomposition and rotated by a random amount.
    pub fn from(answer_board: Vec<Vec<Mark>>) -> (p: Problem)
        requires
            1 <= answer_board@.len() <= isize::MAX as int,
            1 <= answer_board@[0]@.len() <= isize::MAX as int,
            forall|i: int|
                0 <= i < answer_board@.len()
                    ==> (#[trigger] answer_board@[i])@.len() == answer_board@[0]@.len(),
        ensures
            p.wf(),
            p@.rows == answer_board@.len(),
            p@.cols == answer_board@[0]@.len(),
            p@.answer == grid_view(answer_board@),
            forall|r: int, c: int|
                0 <= r < p@.rows && 0 <= c < p@.cols ==> p@.working[r][c] == State::NotMarked,
    {
        let row = answer_board.len();
        let column = answer_board[0].len();
        let working_board = new_working_grid(row, column);

        let mut row_hints: Vec<Vec<usize>> = Vec::new();
        let mut r: usize = 0;
        while r < row
            invariant
                r <= row,
                row == answer_board@.len(),
                column == answer_board@[0]@.len() >= 1,
                forall|i: int|
                    0 <= i < answer_board@.len()
                        ==> (#[trigger] answer_board@[i])@.len() == column,
                row_hints@.len() == r,
                forall|i: int|
                    0 <= i < r ==> is_rotation_of(
                        ints_of((#[trigger] row_hints@[i])@),
                        circular_hints(filled_mask(answer_board@[i]@)),
                    ),
            decreases row - r,
        {
            let h = line_hints(&answer_board[r]);
            let k = random_below(h.len());
            let rotated = rotate_hints(&h, k);
            row_hints.push(rotated);
            r = r + 1;
        }

        let mut column_hints: Vec<Vec<usize>> = Vec::new();
        let mut c: usize = 0;
        while c < column
            invariant
                c <= column,
                row == answer_board@.len() >= 1,
                column == answer_board@[0]@.len(),
                forall|i: int|
                    0 <= i < answer_board@.len()
                        ==> (#[trigger] answer_board@[i])@.len() == column,
                column_hints@.len() == c,
                forall|i: int|
                    0 <= i < c ==> is_rotation_of(
                        ints_of((#[trigger] column_hints@[i])@),
                        circular_hints(
                            filled_mask(
                                Seq::new(answer_board@.len(), |q: int| answer_board@[q]@[i]),
                            ),
                        ),
                    ),
            decreases column - c,
        {
            let col = column_of(&answer_board, c);
            proof {
                assert(col@ =~= Seq::new(answer_board@.len(), |q: int| answer_board@[q]@[c as int]));
            }
            let h = line_hints(&col);
            let k = random_below(h.len());
            let rotated = rotate_hints(&h, k);
            column_hints.push(rotated);
            c = c + 1;
        }

        let board_size = Size { row, column };
        let p = Problem { answer_board, row_hints, column_hints, working_board, board_size };
        proof {
            assert forall|i: int| 0 <= i < p@.rows implies (#[trigger] p@.answer[i]).len()
                == p@.cols by {}
            assert forall|i: int| 0 <= i < p@.rows implies is_rotation_of(
                #[trigger] p@.row_hints[i],
                circular_hints(filled_mask(p@.answer[i])),
            ) by {}
            assert forall|i: int| 0 <= i < p@.cols implies is_rotation_of(
                #[trigger] p@.col_hints[i],
                circular_hints(filled_mask(p@.column(i))),
            ) by {
                assert(p@.column(i) =~= Seq::new(
                    p.answer_board@.len(),
                    |q: int| p.answer_board@[q]@[i],
                ));
            }
        }
        p
    }

    /// The board dimensions.
    pub fn board_size(&self) -> (s: Size)
        ensures
            s.row as int == self@.rows,
            s.column as int == self@.cols,
    {
        self.board_size
    }

    /// The solution cell at an in-bounds point.
    pub fn get_answer_board(&self, point: Point) -> (m: Mark)
        requires
            self.wf(),
            0 <= point.row && (point.row as int) < self@.rows,
            0 <= point.column && (point.column as int) < self@.cols,
        ensures
            m == self@.answer[point.row as int][point.column as int],
    {
        self.answer_board[point.row as usize][point.column as usize]
    }

    /// The working cell at an in-bounds point.
    pub fn get_working_board(&self, point: Point) -> (s: State)
        requires
            self.wf(),
            0 <= point.row && (point.row as int) < self@.rows,
            0 <= point.column && (point.column as int) < self@.cols,
        ensures
            s == self@.working[point.row as int][point.column as int],
    {
        self.working_board[point.row as usize][point.column as usize]
    }

    /// Overwrites the working cell at an in-bounds point; everything else,
    /// the solution and the hints included, stays as it was.
    pub fn set_working_board(&mut self, point: Point, p_state: State)
        requires
            old(self).wf(),
            0 <= point.row && (point.row as int) < old(self)@.rows,
            0 <= point.column && (point.column as int) < old(self)@.cols,
        ensures
            final(self).wf(),
            final(self)@ == (ProblemView {
                working: old(self)@.working.update(
                    point.row as int,
                    old(self)@.working[point.row as int].update(point.column as int, p_state),
                ),
                ..old(self)@
            }),
    {
        let r = point.row as usize;
        let c = point.column as usize;
        self.working_board[r][c] = p_state;
        proof {
            assert(self@.working =~~= old(self)@.working.update(
                point.row as int,
                old(self)@.working[point.row as int].update(point.column as int, p_state),
            ));
            assert(self@ =~~= (ProblemView {
                working: old(self)@.working.update(
                    point.row as int,
                    old(self)@.working[point.row as int].update(point.column as int, p_state),
                ),
                ..old(self)@
            }));
        }
    }

    /// The row hints, one sequence per row.
    pub fn get_row_hints(&self) -> (h: &Vec<Vec<usize>>)
        ensures
            hints_view(h@) == self@.row_hints,
    {
        &self.row_hints
    }

    /// The column hints, one sequence per column.
    pub fn get_column_hints(&self) -> (h: &Vec<Vec<usize>>)
        ensures
            hints_view(h@) == self@.col_hints,
    {
        &self.column_hints
    }

    /// Every point whose working cell resolves to the wrong truth value,
    /// each exactly once.
    pub fn wrong_points(&self) -> (pv: Vec<Point>)
        requires
            self.wf(),
        ensures
            forall|q: Point|
                #[trigger] pv@.contains(q) ==> 0 <= q.row && (q.row as int) < self@.rows
                    && 0 <= q.column && (q.column as int) < self@.cols
                    && self@.wrong_at(q.row as int, q.column as int),
            forall|r: int, c: int|
                0 <= r < self@.rows && 0 <= c < self@.cols && #[trigger] self@.wrong_at(r, c)
                    ==> pv@.contains(Point { row: r as isize, column: c as isize }),
            row_major(pv@),
            pv@.no_duplicates(),
    {
        let rows = self.board_size.row;
        let cols = self.board_size.column;
        let mut point_vec: Vec<Point> = Vec::new();
        let mut row: usize = 0;
        while row < rows
            invariant
                self.wf(),
                row <= rows,
                rows as int == self@.rows,
                cols as int == self@.cols,
                forall|q: Point|
                    #[trigger] point_vec@.contains(q) ==> 0 <= q.row && (q.row as int) < row as int
                        && 0 <= q.column && (q.column as int) < self@.cols
                        && self@.wrong_at(q.row as int, q.column as int),
                forall|r: int, c: int|
                    0 <= r < row as int && 0 <= c < self@.cols && #[trigger] self@.wrong_at(r, c)
                        ==> point_vec@.contains(Point { row: r as isize, column: c as isize }),
                row_major(point_vec@),
                point_vec@.no_duplicates(),
            decreases rows - row,
        {
            let mut column: usize = 0;
            while column < cols
                invariant
                    self.wf(),
                    row < rows,
                    column <= cols,
                    rows as int == self@.rows,
                    cols as int == self@.cols,
                    forall|q: Point|
                        #[trigger] point_vec@.contains(q) ==> 0 <= q.row
                            && (q.row as int) <= row as int && 0 <= q.column
                            && (q.column as int) < self@.cols
                            && ((q.row as int) == row as int ==> (q.column as int) < column as int)
                            && self@.wrong_at(q.row as int, q.column as int),
                    forall|r: int, c: int|
                        0 <= r < row as int && 0 <= c < self@.cols
                            && #[trigger] self@.wrong_at(r, c)
                            ==> point_vec@.contains(Point { row: r as isize, column: c as isize }),
                    forall|c: int|
                        0 <= c < column as int && #[trigger] self@.wrong_at(row as int, c)
                            ==> point_vec@.contains(
                            Point { row: row as isize, column: c as isize },
                        ),
                    row_major(point_vec@),
                    point_vec@.no_duplicates(),
                decreases cols - column,
            {
                let point = Point { row: row as isize, column: column as isize };
                proof {
                    assert(self@.working[row as int] == self.working_board@[row as int]@);
                    assert(self@.answer[row as int] == self.answer_board@[row as int]@);
                }
                let resolved: Mark = Mark::from(self.working_board[row][column]);
                if self.answer_board[row][column] != resolved {
                    let ghost pre = point_vec@;
                    proof {
                        assert(!pre.contains(point));
                    }
                    point_vec.push(point);
                    proof {
                        assert forall|q: Point| #[trigger] point_vec@.contains(q) implies
                            pre.contains(q) || q == point by {
                            let w = choose|w: int|
                                0 <= w < point_vec@.len() && point_vec@[w] == q;
                            if w < pre.len() {
                                assert(pre[w] == q);
                            }
                        }
                        assert forall|q: Point| pre.contains(q) implies #[trigger] point_vec@
                            .contains(q) by {
                            let w = choose|w: int| 0 <= w < pre.len() && pre[w] == q;
                            assert(point_vec@[w] == q);
                        }
                        assert(point_vec@[pre.len() as int] == point);
                        assert(point_vec@.contains(point));
                        assert forall|i: int, j: int|
                            0 <= i < j < point_vec@.len() implies ((#[trigger] point_vec@[i]).row
                            < (#[trigger] point_vec@[j]).row || (point_vec@[i].row
                            == point_vec@[j].row && point_vec@[i].column
                            < point_vec@[j].column)) by {
                            if j == pre.len() {
                                assert(pre.contains(pre[i]));
                            } else {
                                assert(point_vec@[i] == pre[i] && point_vec@[j] == pre[j]);
                            }
                        }
                    }
                }
                column = column + 1;
            }
            row = row + 1;
        }
        point_vec
    }

    /// Whether the working grid resolves to the solution everywhere.
    pub fn is_correct_answer(&self) -> (b: bool)
        requires
            self.wf(),
        ensures
            b == self@.solved(),
    {
        let wp = self.wrong_points();
        let empty = wp.is_empty();
        proof {
            if empty {
                assert forall|r: int, c: int|
                    0 <= r < self@.rows && 0 <= c < self@.cols implies !(#[trigger] self@.wrong_at(
                    r,
                    c,
                )) by {
                    if self@.wrong_at(r, c) {
                        assert(wp@.contains(Point { row: r as isize, column: c as isize }));
                    }
                }
            } else {
                assert(wp@.contains(wp@[0]));
            }
        }
        empty
    }
}

/// For every row and every column of a well-formed engine, the hint values of
/// that line sum to the number of filled solution cells in it.
pub proof fn lemma_hint_sums(v: ProblemView, r: int, c: int)
    requires
        v.wf(),
        0 <= r < v.rows,
        0 <= c < v.cols,
    ensures
        sum_of(v.row_hints[r]) == count_true(filled_mask(v.answer[r])),
        sum_of(v.col_hints[c]) == count_true(filled_mask(v.column(c))),
{
    lemma_rotation_invariants(v.row_hints[r], circular_hints(filled_mask(v.answer[r])));
    lemma_circular_hints_sum(filled_mask(v.answer[r]));
    lemma_rotation_invariants(v.col_hints[c], circular_hints(filled_mask(v.column(c))));
    lemma_circular_hints_sum(filled_mask(v.column(c)));
}

/// The wrap-merge invariant at engine level: when a row's first and last
/// cells are both filled and its plain linear scan sees more than one run,
/// the row has one hint fewer than it has linear runs, the wrapped pair's
/// lengths summed into the one hint that (before rotation) leads the list.
pub proof fn lemma_row_wrap_merge(v: ProblemView, r: int)
    requires
        v.wf(),
        0 <= r < v.rows,
        v.answer[r][0] == Mark::Yes,
        v.answer[r][v.cols - 1] == Mark::Yes,
        linear_runs(filled_mask(v.answer[r])).len() > 1,
    ensures
        v.row_hints[r].len() == linear_runs(filled_mask(v.answer[r])).len() - 1,
        circular_hints(filled_mask(v.answer[r]))[0] == linear_runs(filled_mask(v.answer[r]))[0]
            + linear_runs(filled_mask(v.answer[r])).last(),
        v.row_hints[r].to_multiset() == circular_hints(filled_mask(v.answer[r])).to_multiset(),
{
    let mask = filled_mask(v.answer[r]);
    assert(mask.len() == v.cols);
    assert(mask[0] == (v.answer[r][0] == Mark::Yes));
    assert(mask[v.cols - 1] == (v.answer[r][v.cols - 1] == Mark::Yes));
    lemma_circular_merge(mask);
    lemma_rotation_invariants(v.row_hints[r], circular_hints(mask));
}

/// The wrap-merge invariant for columns: as `lemma_row_wrap_merge`, with the
/// column read top to bottom.
pub proof fn lemma_column_wrap_merge(v: ProblemView, c: int)
    requires
        v.wf(),
        0 <= c < v.cols,
        v.answer[0][c] == Mark::Yes,
        v.answer[v.rows - 1][c] == Mark::Yes,
        linear_runs(filled_mask(v.column(c))).len() > 1,
    ensures
        v.col_hints[c].len() == linear_runs(filled_mask(v.column(c))).len() - 1,
        circular_hints(filled_mask(v.column(c)))[0] == linear_runs(filled_mask(v.column(c)))[0]
            + linear_runs(filled_mask(v.column(c))).last(),
        v.col_hints[c].to_multiset() == circular_hints(filled_mask(v.column(c))).to_multiset(),
{
    let col = v.column(c);
    let mask = filled_mask(col);
    assert(col.len() == v.rows);
    assert(col[0] == v.answer[0][c]);
    assert(col[v.rows - 1] == v.answer[v.rows - 1][c]);
    assert(mask[0] == (col[0] == Mark::Yes));
    assert(mask[v.rows - 1] == (col[v.rows - 1] == Mark::Yes));
    lemma_circular_merge(mask);
    lemma_rotation_invariants(v.col_hints[c], circular_hints(mask));
}

/// Rotation never resizes: two engines built from the same solution hold, for
/// each line, the same multiset of hint values; only the order may differ.
pub proof fn lemma_hints_multiset_stable(a: ProblemView, b: ProblemView, r: int, c: int)
    requires
        a.wf(),
        b.wf(),
        a.answer == b.answer,
        0 <= r < a.rows,
        0 <= c < a.cols,
    ensures
        a.rows == b.rows,
        a.cols == b.cols,
        a.row_hints[r].to_multiset() == b.row_hints[r].to_multiset(),
        a.col_hints[c].to_multiset() == b.col_hints[c].to_multiset(),
{
    assert(a.column(c) =~= b.column(c));
    lemma_rotations_same_multiset(
        a.row_hints[r],
        b.row_hints[r],
        circular_hints(filled_mask(a.answer[r])),
    );
    lemma_rotations_same_multiset(
        a.col_hints[c],
        b.col_hints[c],
        circular_hints(filled_mask(a.column(c))),
    );
}

/// An all-empty row yields exactly the hint `[0]`, whatever rotation was
/// drawn; the same holds of an all-empty column.
pub proof fn lemma_all_empty_line_hint(v: ProblemView, r: int, c: int)
    requires
        v.wf(),
        0 <= r < v.rows ==> forall|j: int| 0 <= j < v.cols ==> v.answer[r][j] == Mark::No,
        0 <= c < v.cols ==> forall|i: int| 0 <= i < v.rows ==> v.answer[i][c] == Mark::No,
    ensures
        0 <= r < v.rows ==> v.row_hints[r] == seq![0int],
        0 <= c < v.cols ==> v.col_hints[c] == seq![0int],
{
    if 0 <= r < v.rows {
        let mask = filled_mask(v.answer[r]);
        assert(forall|j: int| 0 <= j < mask.len() ==> !mask[j]);
        lemma_all_empty_hints(mask);
        lemma_rotation_of_singleton(v.row_hints[r], circular_hints(mask));
    }
    if 0 <= c < v.cols {
        let mask = filled_mask(v.column(c));
        assert(forall|i: int| 0 <= i < mask.len() ==> !mask[i]);
        lemma_all_empty_hints(mask);
        lemma_rotation_of_singleton(v.col_hints[c], circular_hints(mask));
    }
}

} // verus!
