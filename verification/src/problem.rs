//! A simpler engine variant whose hints are the plain linear run
//! decomposition of each line: no wrap-merge across the board edge and no
//! rotation, so the hints are a deterministic function of the solution.
//! Coordinates are unsigned; there is no wrapping cursor here.
use vstd::prelude::*;
use crate::runs::{
    count_true, grid_view, hints_view, ints_of, lemma_all_empty_hints, lemma_linear_hints_sum,
    linear_hints, scan_runs, sum_of,
};

verus! {

/// The ground truth of one solution cell: filled (`Yes`) or empty (`No`).
#[derive(Debug, Copy, Clone, PartialEq, Eq, Structural)]
pub enum State {
    Yes,
    No,
}

/// The player-visible state of one working-grid cell.
#[derive(Debug, Copy, Clone, PartialEq, Eq, Structural)]
pub enum PointState {
    NotMarked,
    Marked(State),
}

impl core::convert::From<PointState> for State {
    fn from(value: PointState) -> (s: Self) {
        match value {
            PointState::Marked(State::Yes) => State::Yes,
            _ => State::No,
        }
    }
}

impl vstd::std_specs::convert::FromSpecImpl<PointState> for State {
    open spec fn obeys_from_spec() -> bool {
        true
    }

    open spec fn from_spec(value: PointState) -> State {
        if value == PointState::Marked(State::Yes) {
            State::Yes
        } else {
            State::No
        }
    }
}

/// The filled-cell mask of a line of solution cells.
pub open spec fn yes_mask(line: Seq<State>) -> Seq<bool> {
    line.map_values(|s: State| s == State::Yes)
}

/// The points appear in strictly increasing row-major order: earlier entries
/// have a smaller row, or the same row and a smaller column.
pub open spec fn row_major(s: Seq<Point>) -> bool {
    forall|i: int, j: int|
        0 <= i < j < s.len() ==> ((#[trigger] s[i]).row < (#[trigger] s[j]).row || (s[i].row
            == s[j].row && s[i].column < s[j].column))
}

/// Board dimensions; both are at least 1 for a well-formed board.
#[derive(Debug, Copy, Clone, PartialEq, Eq, Structural)]
pub struct Size {
    pub row: usize,
    pub column: usize,
}

/// A board coordinate; unsigned, since nothing wraps in this variant.
#[derive(Debug, Copy, Clone, PartialEq, Eq, Structural)]
pub struct Point {
    pub row: usize,
    pub column: usize,
}

impl Point {
    /// Component-wise sum.
    pub fn add(self, rhs: Self) -> (p: Point)
        requires
            self.row + rhs.row <= usize::MAX,
            self.column + rhs.column <= usize::MAX,
        ensures
            p.row == self.row + rhs.row,
            p.column == self.column + rhs.column,
    {
        Point { row: self.row + rhs.row, column: self.column + rhs.column }
    }

    /// Component-wise difference.
    pub fn sub(self, rhs: Self) -> (p: Point)
        requires
            rhs.row <= self.row,
            rhs.column <= self.column,
        ensures
            p.row == self.row - rhs.row,
            p.column == self.column - rhs.column,
    {
        Point { row: self.row - rhs.row, column: self.column - rhs.column }
    }

    /// Component-wise sum in place.
    pub fn add_assign(&mut self, other: Self)
        requires
            old(self).row + other.row <= usize::MAX,
            old(self).column + other.column <= usize::MAX,
        ensures
            final(self).row == old(self).row + other.row,
            final(self).column == old(self).column + other.column,
    {
        self.row = self.row + other.row;
        self.column = self.column + other.column;
    }

    /// Component-wise difference in place.
    pub fn sub_assign(&mut self, other: Self)
        requires
            other.row <= old(self).row,
            other.column <= old(self).column,
        ensures
            final(self).row == old(self).row - other.row,
            final(self).column == old(self).column - other.column,
    {
        self.row = self.row - other.row;
        self.column = self.column - other.column;
    }
}

/// The mathematical content of this engine variant.
#[verifier::ext_equal]
pub struct ProblemView {
    pub rows: int,
    pub cols: int,
    pub answer: Seq<Seq<State>>,
    pub working: Seq<Seq<PointState>>,
    pub row_hints: Seq<Seq<int>>,
    pub col_hints: Seq<Seq<int>>,
}

impl ProblemView {
    /// Column `c` of the solution grid, read top to bottom.
    pub open spec fn column(self, c: int) -> Seq<State> {
        Seq::new(self.answer.len(), |r: int| self.answer[r][c])
    }

    /// Whether the working cell at `(r, c)` resolves to the wrong truth
    /// value: only a cell marked `Yes` counts as filled.
    pub open spec fn wrong_at(self, r: int, c: int) -> bool {
        (self.working[r][c] == PointState::Marked(State::Yes)) != (self.answer[r][c] == State::Yes)
    }

    /// The puzzle is solved when no cell resolves wrongly.
    pub open spec fn solved(self) -> bool {
        forall|r: int, c: int|
            0 <= r < self.rows && 0 <= c < self.cols ==> !(#[trigger] self.wrong_at(r, c))
    }

    /// Well-formedness: a non-empty rectangular board, a working grid of the
    /// same shape, and every line's hints exactly its linear decomposition.
    pub open spec fn wf(self) -> bool {
        &&& 1 <= self.rows
        &&& 1 <= self.cols
        &&& self.answer.len() == self.rows
        &&& forall|r: int| 0 <= r < self.rows ==> (#[trigger] self.answer[r]).len() == self.cols
        &&& self.working.len() == self.rows
        &&& forall|r: int| 0 <= r < self.rows ==> (#[trigger] self.working[r]).len() == self.cols
        &&& self.row_hints.len() == self.rows
        &&& forall|r: int|
            0 <= r < self.rows ==> #[trigger] self.row_hints[r] == linear_hints(
                yes_mask(self.answer[r]),
            )
        &&& self.col_hints.len() == self.cols
        &&& forall|c: int|
            0 <= c < self.cols ==> #[trigger] self.col_hints[c] == linear_hints(
                yes_mask(self.column(c)),
            )
    }
}

/// The engine variant: hidden solution, linear hints, mutable working grid.
pub struct Problem {
    answer_board: Vec<Vec<State>>,
    row_hints: Vec<Vec<usize>>,
    column_hints: Vec<Vec<usize>>,
    working_board: Vec<Vec<PointState>>,
    board_size: Size,
}

impl View for Problem {
    type V = ProblemView;

    closed spec fn view(&self) -> ProblemView {
        ProblemView {
            rows: self.board_size.row as int,
            cols: self.board_size.column as int,
            answer: grid_view(self.answer_board@),
            working: grid_view(self.working_board@),
            row_hints: hints_view(self.row_hints@),
            col_hints: hints_view(self.column_hints@),
        }
    }
}

/// The linear hints of one line: the lengths of its maximal `Yes` runs, or
/// `[0]` when it has none.
fn line_hints(line: &Vec<State>) -> (h: Vec<usize>)
    requires
        1 <= line@.len(),
    ensures
        ints_of(h@) == linear_hints(yes_mask(line@)),
        h@.len() >= 1,
{
    let ghost mask = yes_mask(line@);
    let n = line.len();
    let mut hint: Vec<usize> = Vec::new();
    let mut len: usize = 0;
    let mut column: usize = 0;
    while column < n
        invariant
            n == line@.len() <= usize::MAX,
            mask == yes_mask(line@),
            column <= n,
            ints_of(hint@) == scan_runs(mask, column as int).0,
            len as int == scan_runs(mask, column as int).1,
            len <= column,
        decreases n - column,
    {
        proof {
            assert(mask[column as int] == (line@[column as int] == State::Yes));
        }
        if line[column] == State::Yes {
            len = len + 1;
        } else {
            if len != 0 {
                let ghost pre = hint@;
                hint.push(len);
                proof {
                    assert(ints_of(hint@) =~= ints_of(pre).push(len as int));
                }
                len = 0;
            }
        }
        column = column + 1;
    }
    if len != 0 {
        let ghost pre = hint@;
        hint.push(len);
        proof {
            assert(ints_of(hint@) =~= ints_of(pre).push(len as int));
        }
    }
    if hint.len() == 0 {
        hint.push(0);
        proof {
            assert(ints_of(hint@) =~= seq![0int]);
        }
    }
    hint
}

/// Column `c` of the solution grid, gathered top to bottom.
fn column_of(board: &Vec<Vec<State>>, c: usize) -> (col: Vec<State>)
    requires
        forall|i: int| 0 <= i < board@.len() ==> (c as int) < (#[trigger] board@[i])@.len(),
    ensures
        col@.len() == board@.len(),
        forall|i: int| 0 <= i < board@.len() ==> col@[i] == (#[trigger] board@[i])@[c as int],
{
    let n = board.len();
    let mut col: Vec<State> = Vec::new();
    let mut i: usize = 0;
    while i < n
        invariant
            i <= n,
            n == board@.len(),
            forall|r: int| 0 <= r < board@.len() ==> (c as int) < (#[trigger] board@[r])@.len(),
            col@.len() == i,
            forall|r: int| 0 <= r < i ==> col@[r] == (#[trigger] board@[r])@[c as int],
        decreases n - i,
    {
        col.push(board[i][c]);
        i = i + 1;
    }
    col
}

/// A grid of `rows` by `cols` cells, all `NotMarked`.
fn new_working_grid(rows: usize, cols: usize) -> (g: Vec<Vec<PointState>>)
    ensures
        g@.len() == rows,
        forall|r: int| 0 <= r < rows ==> (#[trigger] g@[r])@.len() == cols,
        forall|r: int, c: int|
            0 <= r < rows && 0 <= c < cols ==> (#[trigger] g@[r]@[c]) == PointState::NotMarked,
{
    let mut g: Vec<Vec<PointState>> = Vec::new();
    let mut r: usize = 0;
    while r < rows
        invariant
            r <= rows,
            g@.len() == r,
            forall|i: int| 0 <= i < r ==> (#[trigger] g@[i])@.len() == cols,
            forall|i: int, c: int|
                0 <= i < r && 0 <= c < cols ==> (#[trigger] g@[i]@[c]) == PointState::NotMarked,
        decreases rows - r,
    {
        let mut line: Vec<PointState> = Vec::new();
        let mut c: usize = 0;
        while c < cols
            invariant
                c <= cols,
                line@.len() == c,
                forall|j: int| 0 <= j < c ==> line@[j] == PointState::NotMarked,
            decreases cols - c,
        {
            line.push(PointState::NotMarked);
            c = c + 1;
        }
        g.push(line);
        r = r + 1;
    }
    g
}

impl Problem {
    /// Whether the engine is well formed; established by construction and
    /// preserved by every operation.
    pub open spec fn wf(&self) -> bool {
        self@.wf()
    }

    /// Builds an engine from a solution grid: the working grid starts all
    /// `NotMarked` and every row and column hint is exactly that line's
    /// linear run decomposition.
    pub fn from(answer_board: Vec<Vec<State>>) -> (p: Problem)
        requires
            1 <= answer_board@.len(),
            1 <= answer_board@[0]@.len(),
            forall|i: int|
                0 <= i < answer_board@.len()
                    ==> (#[trigger] answer_board@[i])@.len() == answer_board@[0]@.len(),
        ensures
            p.wf(),
            p@.rows == answer_board@.len(),
            p@.cols == answer_board@[0]@.len(),
            p@.answer == grid_view(answer_board@),
            forall|r: int, c: int|
                0 <= r < p@.rows && 0 <= c < p@.cols ==> p@.working[r][c]
                    == PointState::NotMarked,
    {
        let row = answer_board.len();
        let column = answer_board[0].len();
        let working_board = new_working_grid(row, column);

        let mut row_hints: Vec<Vec<usize>> = Vec::new();
        let mut r: usize = 0;
        while r < row
            invariant
                r <= row,
                row == answer_board@.len(),
                column == answer_board@[0]@.len() >= 1,
                forall|i: int|
                    0 <= i < answer_board@.len()
                        ==> (#[trigger] answer_board@[i])@.len() == column,
                row_hints@.len() == r,
                forall|i: int|
                    0 <= i < r ==> ints_of((#[trigger] row_hints@[i])@) == linear_hints(
                        yes_mask(answer_board@[i]@),
                    ),
            decreases row - r,
        {
            let h = line_hints(&answer_board[r]);
            row_hints.push(h);
            r = r + 1;
        }

        let mut column_hints: Vec<Vec<usize>> = Vec::new();
        let mut c: usize = 0;
        while c < column
            invariant
                c <= column,
                row == answer_board@.len() >= 1,
                column == answer_board@[0]@.len(),
                forall|i: int|
                    0 <= i < answer_board@.len()
                        ==> (#[trigger] answer_board@[i])@.len() == column,
                column_hints@.len() == c,
                forall|i: int|
                    0 <= i < c ==> ints_of((#[trigger] column_hints@[i])@) == linear_hints(
                        yes_mask(
                            Seq::new(answer_board@.len(), |q: int| answer_board@[q]@[i]),
                        ),
                    ),
            decreases column - c,
        {
            let col = column_of(&answer_board, c);
            proof {
                assert(col@ =~= Seq::new(
                    answer_board@.len(),
                    |q: int| answer_board@[q]@[c as int],
                ));
            }
            let h = line_hints(&col);
            column_hints.push(h);
            c = c + 1;
        }

        let board_size = Size { row, column };
        let p = Problem { answer_board, row_hints, column_hints, working_board, board_size };
        proof {
            assert forall|i: int| 0 <= i < p@.rows implies #[trigger] p@.row_hints[i]
                == linear_hints(yes_mask(p@.answer[i])) by {}
            assert forall|i: int| 0 <= i < p@.cols implies #[trigger] p@.col_hints[i]
                == linear_hints(yes_mask(p@.column(i))) by {
                assert(p@.column(i) =~= Seq::new(
                    p.answer_board@.len(),
                    |q: int| p.answer_board@[q]@[i],
                ));
            }
        }
        p
    }

    /// The board dimensions.
    pub fn board_size(&self) -> (s: Size)
        ensures
            s.row as int == self@.rows,
            s.column as int == self@.cols,
    {
        self.board_size
    }

    /// The solution cell at an in-bounds point.
    pub fn get_answer_board(&self, point: Point) -> (s: State)
        requires
            self.wf(),
            (point.row as int) < self@.rows,
            (point.column as int) < self@.cols,
        ensures
            s == self@.answer[point.row as int][point.column as int],
    {
        self.answer_board[point.row][point.column]
    }

    /// The working cell at an in-bounds point.
    pub fn get_working_board(&self, point: Point) -> (s: PointState)
        requires
            self.wf(),
            (point.row as int) < self@.rows,
            (point.column as int) < self@.cols,
        ensures
            s == self@.working[point.row as int][point.column as int],
    {
        self.working_board[point.row][point.column]
    }

    /// Overwrites the working cell at an in-bounds point; everything else,
    /// the solution and the hints included, stays as it was.
    pub fn set_working_board(&mut self, point: Point, p_state: PointState)
        requires
            old(self).wf(),
            (point.row as int) < old(self)@.rows,
            (point.column as int) < old(self)@.cols,
        ensures
            final(self).wf(),
            final(self)@ == (ProblemView {
                working: old(self)@.working.update(
                    point.row as int,
                    old(self)@.working[point.row as int].update(point.column as int, p_state),
                ),
                ..old(self)@
            }),
    {
        self.working_board[point.row][point.column] = p_state;
        proof {
            assert(self@.working =~~= old(self)@.working.update(
                point.row as int,
                old(self)@.working[point.row as int].update(point.column as int, p_state),
            ));
            assert(self@ =~~= (ProblemView {
                working: old(self)@.working.update(
                    point.row as int,
                    old(self)@.working[point.row as int].update(point.column as int, p_state),
                ),
                ..old(self)@
            }));
        }
    }

    /// Every point whose working cell resolves to the wrong truth value,
    /// each exactly once.
    pub fn wrong_points(&self) -> (pv: Vec<Point>)
        requires
            self.wf(),
        ensures
            forall|q: Point|
                #[trigger] pv@.contains(q) ==> (q.row as int) < self@.rows
                    && (q.column as int) < self@.cols
                    && self@.wrong_at(q.row as int, q.column as int),
            forall|r: int, c: int|
                0 <= r < self@.rows && 0 <= c < self@.cols && #[trigger] self@.wrong_at(r, c)
                    ==> pv@.contains(Point { row: r as usize, column: c as usize }),
            row_major(pv@),
            pv@.no_duplicates(),
    {
        let rows = self.board_size.row;
        let cols = self.board_size.column;
        let mut point_vec: Vec<Point> = Vec::new();
        let mut row: usize = 0;
        while row < rows
            invariant
                self.wf(),
                row <= rows,
                rows as int == self@.rows,
                cols as int == self@.cols,
                forall|q: Point|
                    #[trigger] point_vec@.contains(q) ==> (q.row as int) < row as int
                        && (q.column as int) < self@.cols
                        && self@.wrong_at(q.row as int, q.column as int),
                forall|r: int, c: int|
                    0 <= r < row as int && 0 <= c < self@.cols && #[trigger] self@.wrong_at(r, c)
                        ==> point_vec@.contains(Point { row: r as usize, column: c as usize }),
                row_major(point_vec@),
                point_vec@.no_duplicates(),
            decreases rows - row,
        {
            let mut column: usize = 0;
            while column < cols
                invariant
                    self.wf(),
                    row < rows,
                    column <= cols,
                    rows as int == self@.rows,
                    cols as int == self@.cols,
                    forall|q: Point|
                        #[trigger] point_vec@.contains(q) ==> (q.row as int) <= row as int
                            && (q.column as int) < self@.cols
                            && ((q.row as int) == row as int ==> (q.column as int) < column as int)
                            && self@.wrong_at(q.row as int, q.column as int),
                    forall|r: int, c: int|
                        0 <= r < row as int && 0 <= c < self@.cols
                            && #[trigger] self@.wrong_at(r, c)
                            ==> point_vec@.contains(Point { row: r as usize, column: c as usize }),
                    forall|c: int|
                        0 <= c < column as int && #[trigger] self@.wrong_at(row as int, c)
                            ==> point_vec@.contains(
                            Point { row: row as usize, column: c as usize },
                        ),
                    row_major(point_vec@),
                    point_vec@.no_duplicates(),
                decreases cols - column,
            {
                let point = Point { row, column };
                proof {
                    assert(self@.working[row as int] == self.working_board@[row as int]@);
                    assert(self@.answer[row as int] == self.answer_board@[row as int]@);
                }
                let resolved: State = State::from(self.working_board[row][column]);
                if self.answer_board[row][column] != resolved {
                    let ghost pre = point_vec@;
                    proof {
                        assert(!pre.contains(point));
                    }
                    point_vec.push(point);
                    proof {
                        assert forall|q: Point| #[trigger] point_vec@.contains(q) implies
                            pre.contains(q) || q == point by {
                            let w = choose|w: int|
                                0 <= w < point_vec@.len() && point_vec@[w] == q;
                            if w < pre.len() {
                                assert(pre[w] == q);
                            }
                        }
                        assert forall|q: Point| pre.contains(q) implies #[trigger] point_vec@
                            .contains(q) by {
                            let w = choose|w: int| 0 <= w < pre.len() && pre[w] == q;
                            assert(point_vec@[w] == q);
                        }
                        assert(point_vec@[pre.len() as int] == point);
                        assert(point_vec@.contains(point));
                        assert forall|i: int, j: int|
                            0 <= i < j < point_vec@.len() implies ((#[trigger] point_vec@[i]).row
                            < (#[trigger] point_vec@[j]).row || (point_vec@[i].row
                            == point_vec@[j].row && point_vec@[i].column
                            < point_vec@[j].column)) by {
                            if j == pre.len() {
                                assert(pre.contains(pre[i]));
                            } else {
                                assert(point_vec@[i] == pre[i] && point_vec@[j] == pre[j]);
                            }
                        }
                    }
                }
                column = column + 1;
            }
            row = row + 1;
        }
        point_vec
    }

    /// Whether the working grid resolves to the solution everywhere.
    pub fn is_correct_answer(&self) -> (b: bool)
        requires
            self.wf(),
        ensures
            b == self@.solved(),
    {
        let wp = self.wrong_points();
        let empty = wp.is_empty();
        proof {
            if empty {
                assert forall|r: int, c: int|
                    0 <= r < self@.rows && 0 <= c < self@.cols implies !(#[trigger] self@.wrong_at(
                    r,
                    c,
                )) by {
                    if self@.wrong_at(r, c) {
                        assert(wp@.contains(Point { row: r as usize, column: c as usize }));
                    }
                }
            } else {
                assert(wp@.contains(wp@[0]));
            }
        }
        empty
    }
}

/// For every row and every column of a well-formed engine, the hint values of
/// that line sum to the number of filled solution cells in it.
pub proof fn lemma_hint_sums(v: ProblemView, r: int, c: int)
    requires
        v.wf(),
        0 <= r < v.rows,
        0 <= c < v.cols,
    ensures
        sum_of(v.row_hints[r]) == count_true(yes_mask(v.answer[r])),
        sum_of(v.col_hints[c]) == count_true(yes_mask(v.column(c))),
{
    lemma_linear_hints_sum(yes_mask(v.answer[r]));
    lemma_linear_hints_sum(yes_mask(v.column(c)));
}

/// An all-empty row yields exactly the hint `[0]`; the same holds of an
/// all-empty column.
pub proof fn lemma_all_empty_line_hint(v: ProblemView, r: int, c: int)
    requires
        v.wf(),
        0 <= r < v.rows ==> forall|j: int| 0 <= j < v.cols ==> v.answer[r][j] == State::No,
        0 <= c < v.cols ==> forall|i: int| 0 <= i < v.rows ==> v.answer[i][c] == State::No,
    ensures
        0 <= r < v.rows ==> v.row_hints[r] == seq![0int],
        0 <= c < v.cols ==> v.col_hints[c] == seq![0int],
{
    if 0 <= r < v.rows {
        let mask = yes_mask(v.answer[r]);
        assert(forall|j: int| 0 <= j < mask.len() ==> !mask[j]);
        lemma_all_empty_hints(mask);
    }
    if 0 <= c < v.cols {
        let mask = yes_mask(v.column(c));
        assert(forall|i: int| 0 <= i < mask.len() ==> !mask[i]);
        lemma_all_empty_hints(mask);
    }
}

} // verus!
