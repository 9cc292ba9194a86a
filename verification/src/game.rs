use vstd::prelude::*;

verus! {

broadcast use vstd::array::group_array_axioms;

/// One of the two players' symbols. `Circle` is the computer's mark by
/// convention and `Cross` the human's, though the model itself is symmetric.
#[derive(Clone, Copy, PartialEq, Eq, Structural, Debug)]
pub enum Mark {
    Circle,
    Cross,
}

/// One square of the 3x3 board: empty, or holding one of the two marks.
#[derive(Clone, Copy, PartialEq, Eq, Structural, Debug)]
pub enum Cell {
    Empty,
    Circle,
    Cross,
}

/// Whether a game is still running, drawn, or won by one side.
#[derive(Clone, Copy, PartialEq, Eq, Structural, Debug)]
pub enum Outcome {
    Ongoing,
    Draw,
    Win(Mark),
}

/// The one error the move search reports: no empty cell is left to choose.
#[derive(Clone, Copy, PartialEq, Eq, Structural, Debug)]
pub enum SearchError {
    SearchOnFullBoard,
}

/// What one turn of the state machine yields: the move was rejected
/// because its target cell is taken, play passes to the other side, or
/// the game ended with an outcome.
#[derive(Clone, Copy, PartialEq, Eq, Structural, Debug)]
pub enum TurnResult {
    Rejected,
    Next(Mark),
    Finished(Outcome),
}

impl Mark {
    /// The opposing side.
    pub open spec fn spec_other(self) -> Mark {
        match self {
            Mark::Circle => Mark::Cross,
            Mark::Cross => Mark::Circle,
        }
    }

    /// The opposing side.
    #[verifier::when_used_as_spec(spec_other)]
    pub fn other(self) -> (m: Mark)
        ensures
            m == self.spec_other(),
    {
        match self {
            Mark::Circle => Mark::Cross,
            Mark::Cross => Mark::Circle,
        }
    }

    /// The cell value this mark leaves on the board.
    pub open spec fn spec_cell(self) -> Cell {
        match self {
            Mark::Circle => Cell::Circle,
            Mark::Cross => Cell::Cross,
        }
    }

    /// The cell value this mark leaves on the board.
    #[verifier::when_used_as_spec(spec_cell)]
    pub fn cell(self) -> (c: Cell)
        ensures
            c == self.spec_cell(),
    {
        match self {
            Mark::Circle => Cell::Circle,
            Mark::Cross => Cell::Cross,
        }
    }
}

/// 1 for a taken cell, 0 for an empty one.
pub open spec fn mark_count(c: Cell) -> int {
    if c is Empty {
        0
    } else {
        1
    }
}

/// How many of the first `n` cells of `b` hold a mark.
pub open spec fn num_marks_upto(b: Seq<Cell>, n: int) -> int
    decreases n,
{
    if n <= 0 {
        0
    } else {
        num_marks_upto(b, n - 1) + mark_count(b[n - 1])
    }
}

/// How many cells of a 3x3 board hold a mark.
pub open spec fn num_marks(b: Seq<Cell>) -> int {
    num_marks_upto(b, 9)
}

/// The board after `m` is placed on cell `i`.
pub open spec fn place(b: Seq<Cell>, i: int, m: Mark) -> Seq<Cell> {
    b.update(i, m.spec_cell())
}

/// The cell on row `row`, column `col` of the board view `b`.
pub open spec fn cell_at(b: Seq<Cell>, row: int, col: int) -> Cell {
    b[3 * row + col]
}

/// Row `row` is filled with three equal non-empty cells.
pub open spec fn row_full(b: Seq<Cell>, row: int) -> bool {
    &&& cell_at(b, row, 0) == cell_at(b, row, 1)
    &&& cell_at(b, row, 1) == cell_at(b, row, 2)
    &&& !(cell_at(b, row, 0) is Empty)
}

/// Column `col` is filled with three equal non-empty cells.
pub open spec fn col_full(b: Seq<Cell>, col: int) -> bool {
    &&& cell_at(b, 0, col) == cell_at(b, 1, col)
    &&& cell_at(b, 1, col) == cell_at(b, 2, col)
    &&& !(cell_at(b, 0, col) is Empty)
}

/// The mark of the winning diagonal, checking the main diagonal first,
/// or `Empty` when neither diagonal is won.
pub open spec fn diag_winner(b: Seq<Cell>) -> Cell {
    if cell_at(b, 0, 0) == cell_at(b, 1, 1) && cell_at(b, 1, 1) == cell_at(b, 2, 2) && !(cell_at(
        b,
        1,
        1,
    ) is Empty) {
        cell_at(b, 1, 1)
    } else if cell_at(b, 2, 0) == cell_at(b, 1, 1) && cell_at(b, 1, 1) == cell_at(b, 0, 2) && !(
    cell_at(b, 1, 1) is Empty) {
        cell_at(b, 1, 1)
    } else {
        Cell::Empty
    }
}

/// The mark of the first winning row in top-to-bottom order, or `Empty`.
pub open spec fn rows_winner(b: Seq<Cell>) -> Cell {
    if row_full(b, 0) {
        cell_at(b, 0, 0)
    } else if row_full(b, 1) {
        cell_at(b, 1, 0)
    } else if row_full(b, 2) {
        cell_at(b, 2, 0)
    } else {
        Cell::Empty
    }
}

/// The mark of the first winning column in left-to-right order, or `Empty`.
pub open spec fn cols_winner(b: Seq<Cell>) -> Cell {
    if col_full(b, 0) {
        cell_at(b, 0, 0)
    } else if col_full(b, 1) {
        cell_at(b, 0, 1)
    } else if col_full(b, 2) {
        cell_at(b, 0, 2)
    } else {
        Cell::Empty
    }
}

/// The winning mark the detector reports, checking diagonals, then rows,
/// then columns, or `Empty` when no line is won.
pub open spec fn winner_cell(b: Seq<Cell>) -> Cell {
    if diag_winner(b) != Cell::Empty {
        diag_winner(b)
    } else if rows_winner(b) != Cell::Empty {
        rows_winner(b)
    } else {
        cols_winner(b)
    }
}

/// Mark `m` owns every cell of row `row`.
pub open spec fn row_won(b: Seq<Cell>, row: int, m: Mark) -> bool {
    &&& cell_at(b, row, 0) == m.spec_cell()
    &&& cell_at(b, row, 1) == m.spec_cell()
    &&& cell_at(b, row, 2) == m.spec_cell()
}

/// Mark `m` owns every cell of column `col`.
pub open spec fn col_won(b: Seq<Cell>, col: int, m: Mark) -> bool {
    &&& cell_at(b, 0, col) == m.spec_cell()
    &&& cell_at(b, 1, col) == m.spec_cell()
    &&& cell_at(b, 2, col) == m.spec_cell()
}

/// Mark `m` owns one of the eight winning lines.
pub open spec fn wins(b: Seq<Cell>, m: Mark) -> bool {
    ||| row_won(b, 0, m)
    ||| row_won(b, 1, m)
    ||| row_won(b, 2, m)
    ||| col_won(b, 0, m)
    ||| col_won(b, 1, m)
    ||| col_won(b, 2, m)
    ||| cell_at(b, 0, 0) == m.spec_cell() && cell_at(b, 1, 1) == m.spec_cell() && cell_at(b, 2, 2)
        == m.spec_cell()
    ||| cell_at(b, 2, 0) == m.spec_cell() && cell_at(b, 1, 1) == m.spec_cell() && cell_at(b, 0, 2)
        == m.spec_cell()
}

/// The outcome of a board on which `steps` moves were made: a win for the
/// reported winning line's mark, else a draw once nine moves are placed,
/// else still running.
pub open spec fn outcome_of(b: Seq<Cell>, steps: int) -> Outcome {
    match winner_cell(b) {
        Cell::Circle => Outcome::Win(Mark::Circle),
        Cell::Cross => Outcome::Win(Mark::Cross),
        Cell::Empty => if steps == 9 {
            Outcome::Draw
        } else {
            Outcome::Ongoing
        },
    }
}

proof fn lemma_num_marks_upto_bounds(b: Seq<Cell>, n: int)
    ensures
        0 <= num_marks_upto(b, n),
        n >= 0 ==> num_marks_upto(b, n) <= n,
    decreases n,
{
    if n > 0 {
        lemma_num_marks_upto_bounds(b, n - 1);
    }
}

proof fn lemma_num_marks_upto_update(b: Seq<Cell>, i: int, c: Cell, n: int)
    requires
        0 <= i < b.len(),
        n <= b.len(),
    ensures
        num_marks_upto(b.update(i, c), n) == num_marks_upto(b, n) + if 0 <= i < n {
            mark_count(c) - mark_count(b[i])
        } else {
            0
        },
    decreases n,
{
    if n > 0 {
        lemma_num_marks_upto_update(b, i, c, n - 1);
    }
}

proof fn lemma_num_marks_place(b: Seq<Cell>, i: int, m: Mark)
    requires
        b.len() == 9,
        0 <= i < 9,
        b[i] is Empty,
    ensures
        num_marks(place(b, i, m)) == num_marks(b) + 1,
{
    lemma_num_marks_upto_update(b, i, m.spec_cell(), 9);
}

proof fn lemma_num_marks_none(b: Seq<Cell>, n: int)
    requires
        forall|i: int| 0 <= i < n ==> b[i] is Empty,
    ensures
        num_marks_upto(b, n) == 0,
    decreases n,
{
    if n > 0 {
        lemma_num_marks_none(b, n - 1);
    }
}

proof fn lemma_num_marks_full(b: Seq<Cell>, n: int)
    requires
        0 <= n,
    ensures
        num_marks_upto(b, n) == n <==> (forall|i: int| 0 <= i < n ==> !(b[i] is Empty)),
    decreases n,
{
    if n > 0 {
        lemma_num_marks_full(b, n - 1);
        lemma_num_marks_upto_bounds(b, n - 1);
    }
}

/// The minimax value of the position `b` with `turn` to move: +10 when
/// circle can force a win, -10 when cross can, 0 when best play from both
/// sides ends in a draw. A position whose reported winner is already
/// decided, or whose board is full, is terminal.
pub open spec fn game_value(b: Seq<Cell>, turn: Mark) -> int
    decreases 9 - num_marks(b), 10int,
{
    if b.len() != 9 {
        0
    } else if winner_cell(b) == Cell::Circle {
        10
    } else if winner_cell(b) == Cell::Cross {
        -10
    } else if num_marks(b) >= 9 {
        0
    } else {
        best_upto(b, turn, 9)
    }
}

/// The best value `turn` can reach by moving on an empty cell among the
/// first `idx` cells of `b`: the greatest child value for circle, the
/// least for cross. With no empty cell in range it stays at the sentinel
/// -1000 (circle) or 1000 (cross), below or above every real value.
pub open spec fn best_upto(b: Seq<Cell>, turn: Mark, idx: int) -> int
    decreases 9 - num_marks(b), idx,
    via best_upto_decreases
{
    if b.len() != 9 || idx <= 0 || idx > 9 {
        if turn is Circle {
            -1000
        } else {
            1000
        }
    } else {
        let prev: int = best_upto(b, turn, idx - 1);
        if b[idx - 1] is Empty {
            let child: int = game_value(place(b, idx - 1, turn), turn.spec_other());
            if turn is Circle {
                if child > prev {
                    child
                } else {
                    prev
                }
            } else {
                if child < prev {
                    child
                } else {
                    prev
                }
            }
        } else {
            prev
        }
    }
}

#[via_fn]
proof fn best_upto_decreases(b: Seq<Cell>, turn: Mark, idx: int) {
    lemma_num_marks_upto_bounds(b, 9);
    if b.len() == 9 && 0 < idx <= 9 && b[idx - 1] is Empty {
        lemma_num_marks_place(b, idx - 1, turn);
        lemma_num_marks_upto_bounds(place(b, idx - 1, turn), 9);
    }
}

/// Every position's minimax value lies between the two win scores.
pub proof fn lemma_game_value_bounds(b: Seq<Cell>, turn: Mark)
    ensures
        -10 <= game_value(b, turn) <= 10,
    decreases 9 - num_marks(b), 10int,
{
    lemma_num_marks_upto_bounds(b, 9);
    if b.len() == 9 && winner_cell(b) == Cell::Empty && num_marks(b) < 9 {
        lemma_num_marks_full(b, 9);
        lemma_best_upto_bounds(b, turn, 9);
    }
}

proof fn lemma_best_upto_bounds(b: Seq<Cell>, turn: Mark, idx: int)
    requires
        b.len() == 9,
        0 <= idx <= 9,
    ensures
        (exists|j: int| 0 <= j < idx && b[j] is Empty) ==> -10 <= best_upto(b, turn, idx) <= 10,
        !(exists|j: int| 0 <= j < idx && b[j] is Empty) ==> best_upto(b, turn, idx) == if turn
             is Circle {
            -1000
        } else {
            1000
        },
        turn is Circle ==> -1000 <= best_upto(b, turn, idx) <= 10,
        turn is Cross ==> -10 <= best_upto(b, turn, idx) <= 1000,
    decreases 9 - num_marks(b), idx,
{
    lemma_num_marks_upto_bounds(b, 9);
    if idx > 0 {
        lemma_best_upto_bounds(b, turn, idx - 1);
        if b[idx - 1] is Empty {
            lemma_num_marks_place(b, idx - 1, turn);
            lemma_num_marks_upto_bounds(place(b, idx - 1, turn), 9);
            lemma_game_value_bounds(place(b, idx - 1, turn), turn.spec_other());
        }
    }
}

/// Law: the value the search keeps for circle is at least the value of
/// every single move on an empty cell it has scanned.
pub proof fn lemma_best_upto_is_max(b: Seq<Cell>, j: int, idx: int)
    requires
        b.len() == 9,
        0 <= j < idx <= 9,
        b[j] is Empty,
    ensures
        game_value(place(b, j, Mark::Circle), Mark::Cross) <= best_upto(b, Mark::Circle, idx),
    decreases idx,
{
    if j < idx - 1 {
        lemma_best_upto_is_max(b, j, idx - 1);
    }
}

/// A 3x3 tic-tac-toe position: the board, and how many moves were made.
#[derive(Clone, Copy, Debug)]
pub struct Game {
    pub steps: u16,
    pub board: [Cell; 9],
}

impl Game {
    /// The move counter matches the number of marks on the board.
    pub open spec fn wf(self) -> bool {
        self.steps == num_marks(self.board@)
    }

    /// A fresh game: empty board, no moves made.
    pub fn new() -> (g: Game)
        ensures
            g.wf(),
            g.steps == 0,
            forall|i: int| 0 <= i < 9 ==> g.board@[i] is Empty,
    {
        let g = Game { steps: 0, board: [Cell::Empty; 9] };
        proof {
            lemma_num_marks_none(g.board@, 9);
        }
        g
    }

    /// Apply one move. When the target cell is taken the move is rejected:
    /// the game is unchanged and the result is false. Otherwise the cell
    /// receives the player's mark, the move counter grows by one, and the
    /// result is true.
    pub fn step(&mut self, player: Mark, row: usize, column: usize) -> (ok: bool)
        requires
            old(self).wf(),
            row < 3,
            column < 3,
        ensures
            final(self).wf(),
            ok == (old(self).board@[3 * row + column] is Empty),
            ok ==> final(self).board@ == place(old(self).board@, 3 * row + column, player)
                && final(self).steps == old(self).steps + 1,
            !ok ==> *final(self) == *old(self),
    {
        let idx: usize = 3 * row + column;
        if self.board[idx] != Cell::Empty {
            return false;
        }
        proof {
            lemma_num_marks_upto_bounds(self.board@, 9);
            lemma_num_marks_place(self.board@, idx as int, player);
        }
        self.board[idx] = player.cell();
        self.steps = self.steps + 1;
        true
    }

    /// Reports the mark of a won diagonal, main diagonal first, together
    /// with whether one was won at all.
    pub fn check_diagonals(&self) -> (r: (bool, Cell))
        ensures
            r.1 == diag_winner(self.board@),
            r.0 == (r.1 != Cell::Empty),
    {
        if self.board[0] == self.board[4] && self.board[4] == self.board[8] && self.board[4]
            != Cell::Empty {
            return (true, self.board[4]);
        }
        if self.board[6] == self.board[4] && self.board[4] == self.board[2] && self.board[4]
            != Cell::Empty {
            return (true, self.board[4]);
        }
        (false, Cell::Empty)
    }

    /// Reports the mark of the first won row in top-to-bottom order,
    /// together with whether any row is won.
    pub fn check_rows(&self) -> (r: (bool, Cell))
        ensures
            r.1 == rows_winner(self.board@),
            r.0 == (r.1 != Cell::Empty),
    {
        let mut row: usize = 0;
        while row < 3
            invariant
                row <= 3,
                forall|k: int| 0 <= k < row ==> !row_full(self.board@, k),
            decreases 3 - row,
        {
            let first: Cell = self.board[3 * row];
            if self.board[3 * row + 1] == first && self.board[3 * row + 2] == first && first
                != Cell::Empty {
                return (true, first);
            }
            row = row + 1;
        }
        (false, Cell::Empty)
    }

    /// Reports the mark of the first won column in left-to-right order,
    /// together with whether any column is won.
    pub fn check_columns(&self) -> (r: (bool, Cell))
        ensures
            r.1 == cols_winner(self.board@),
            r.0 == (r.1 != Cell::Empty),
    {
        let mut col: usize = 0;
        while col < 3
            invariant
                col <= 3,
                forall|k: int| 0 <= k < col ==> !col_full(self.board@, k),
            decreases 3 - col,
        {
            let first: Cell = self.board[col];
            if self.board[col + 3] == first && self.board[col + 6] == first && first
                != Cell::Empty {
                return (true, first);
            }
            col = col + 1;
        }
        (false, Cell::Empty)
    }

    /// Whether the game has ended, and the winning mark's cell value;
    /// `Empty` stands for a draw or for a game still running. Diagonals
    /// are checked first, then rows, then columns.
    pub fn is_game_over(&self) -> (r: (bool, Cell))
        ensures
            r.0 == (outcome_of(self.board@, self.steps as int) != Outcome::Ongoing),
            r.1 == winner_cell(self.board@),
    {
        let (is_over_diagonal, winner_diagonal) = self.check_diagonals();
        let (is_over_rows, winner_rows) = self.check_rows();
        let (is_over_columns, winner_columns) = self.check_columns();
        if is_over_diagonal {
            return (true, winner_diagonal);
        }
        if is_over_rows {
            return (true, winner_rows);
        }
        if is_over_columns {
            return (true, winner_columns);
        }
        if self.steps == 9 {
            return (true, Cell::Empty);
        }
        (false, Cell::Empty)
    }

    /// Exhaustive minimax evaluation of the current position with `player`
    /// to move: circle maximizes, cross minimizes. `depth` only records how
    /// deep the search already is; its bound keeps `depth + 1` within `i32`
    /// over the at most `9 - steps` remaining levels.
    pub fn minimax(&self, depth: i32, player: Mark) -> (r: i32)
        requires
            self.wf(),
            depth + 9 - self.steps as int <= i32::MAX,
        ensures
            r == game_value(self.board@, player),
        decreases 9 - self.steps,
    {
        proof {
            lemma_num_marks_upto_bounds(self.board@, 9);
        }
        let (over, winner) = self.is_game_over();
        if over {
            match winner {
                Cell::Circle => 10,
                Cell::Cross => -10,
                Cell::Empty => 0,
            }
        } else if player == Mark::Circle {
            let mut best: i32 = -1000;
            let mut idx: usize = 0;
            while idx < 9
                invariant
                    self.wf(),
                    self.steps < 9,
                    winner_cell(self.board@) == Cell::Empty,
                    depth + 9 - self.steps as int <= i32::MAX,
                    idx <= 9,
                    best == best_upto(self.board@, Mark::Circle, idx as int),
                decreases 9 - idx,
            {
                if self.board[idx] == Cell::Empty {
                    let mut child: Game = *self;
                    child.board[idx] = Cell::Circle;
                    child.steps = child.steps + 1;
                    proof {
                        lemma_num_marks_place(self.board@, idx as int, Mark::Circle);
                        lemma_num_marks_upto_bounds(self.board@, 9);
                    }
                    let v = child.minimax(depth + 1, Mark::Cross);
                    if v > best {
                        best = v;
                    }
                }
                idx = idx + 1;
            }
            best
        } else {
            let mut best: i32 = 1000;
            let mut idx: usize = 0;
            while idx < 9
                invariant
                    self.wf(),
                    self.steps < 9,
                    winner_cell(self.board@) == Cell::Empty,
                    depth + 9 - self.steps as int <= i32::MAX,
                    idx <= 9,
                    best == best_upto(self.board@, Mark::Cross, idx as int),
                decreases 9 - idx,
            {
                if self.board[idx] == Cell::Empty {
                    let mut child: Game = *self;
                    child.board[idx] = Cell::Cross;
                    child.steps = child.steps + 1;
                    proof {
                        lemma_num_marks_place(self.board@, idx as int, Mark::Cross);
                        lemma_num_marks_upto_bounds(self.board@, 9);
                    }
                    let v = child.minimax(depth + 1, Mark::Circle);
                    if v < best {
                        best = v;
                    }
                }
                idx = idx + 1;
            }
            best
        }
    }

    /// The optimal move for the circle player: among the empty cells, the
    /// first one in row-major scan order whose minimax value no other
    /// empty cell beats. On a full board no move exists and the search
    /// reports its error instead.
    pub fn find_best_move(&self) -> (r: Result<(usize, usize), SearchError>)
        requires
            self.wf(),
        ensures
            (num_marks(self.board@) == 9) <==> (r is Err),
            r matches Err(e) ==> e == SearchError::SearchOnFullBoard,
            r matches Ok((row, col)) ==> {
                &&& row < 3
                &&& col < 3
                &&& self.board@[3 * row + col] is Empty
                &&& game_value(place(self.board@, 3 * row + col, Mark::Circle), Mark::Cross)
                    == best_upto(self.board@, Mark::Circle, 9)
                &&& forall|j: int|
                    0 <= j < 3 * row + col && self.board@[j] is Empty ==> game_value(
                        place(self.board@, j, Mark::Circle),
                        Mark::Cross,
                    ) < best_upto(self.board@, Mark::Circle, 9)
                &&& forall|j: int|
                    0 <= j < 9 && self.board@[j] is Empty ==> game_value(
                        place(self.board@, j, Mark::Circle),
                        Mark::Cross,
                    ) <= best_upto(self.board@, Mark::Circle, 9)
            },
    {
        proof {
            lemma_num_marks_upto_bounds(self.board@, 9);
            lemma_num_marks_full(self.board@, 9);
        }
        if self.steps == 9 {
            return Err(SearchError::SearchOnFullBoard);
        }
        let mut best_val: i32 = -1000;
        let mut best_move: (usize, usize) = (0, 0);
        let mut idx: usize = 0;
        while idx < 9
            invariant
                self.wf(),
                self.steps < 9,
                idx <= 9,
                best_val == best_upto(self.board@, Mark::Circle, idx as int),
                (exists|j: int| 0 <= j < idx && self.board@[j] is Empty) ==> {
                    &&& best_move.0 < 3
                    &&& best_move.1 < 3
                    &&& 3 * best_move.0 + best_move.1 < idx
                    &&& self.board@[3 * best_move.0 + best_move.1] is Empty
                    &&& game_value(
                        place(self.board@, 3 * best_move.0 + best_move.1, Mark::Circle),
                        Mark::Cross,
                    ) == best_val
                    &&& forall|j: int|
                        0 <= j < 3 * best_move.0 + best_move.1 && self.board@[j] is Empty
                            ==> game_value(place(self.board@, j, Mark::Circle), Mark::Cross)
                            < best_val
                },
            decreases 9 - idx,
        {
            proof {
                lemma_best_upto_bounds(self.board@, Mark::Circle, idx as int);
            }
            if self.board[idx] == Cell::Empty {
                let mut child: Game = *self;
                child.board[idx] = Cell::Circle;
                child.steps = child.steps + 1;
                proof {
                    lemma_num_marks_place(self.board@, idx as int, Mark::Circle);
                    lemma_num_marks_upto_bounds(self.board@, 9);
                    lemma_game_value_bounds(child.board@, Mark::Cross);
                }
                let v = child.minimax(0, Mark::Cross);
                if v > best_val {
                    proof {
                        assert(3 * (idx / 3) + idx % 3 == idx && idx / 3 < 3) by (nonlinear_arith)
                            requires
                                idx < 9,
                        ;
                        assert forall|j: int|
                            0 <= j < idx && self.board@[j] is Empty implies game_value(
                            place(self.board@, j, Mark::Circle),
                            Mark::Cross,
                        ) < v by {
                            lemma_best_upto_is_max(self.board@, j, idx as int);
                        }
                    }
                    best_val = v;
                    best_move = (idx / 3, idx % 3);
                }
            }
            idx = idx + 1;
        }
        proof {
            assert(num_marks(self.board@) < 9);
            assert(exists|j: int| 0 <= j < 9 && self.board@[j] is Empty);
            assert forall|j: int| 0 <= j < 9 && self.board@[j] is Empty implies game_value(
                place(self.board@, j, Mark::Circle),
                Mark::Cross,
            ) <= best_upto(self.board@, Mark::Circle, 9) by {
                lemma_best_upto_is_max(self.board@, j, 9);
            }
        }
        Ok(best_move)
    }

    /// The outcome of the current position.
    pub fn outcome(&self) -> (r: Outcome)
        ensures
            r == outcome_of(self.board@, self.steps as int),
    {
        let (over, winner) = self.is_game_over();
        if !over {
            Outcome::Ongoing
        } else {
            match winner {
                Cell::Circle => Outcome::Win(Mark::Circle),
                Cell::Cross => Outcome::Win(Mark::Cross),
                Cell::Empty => Outcome::Draw,
            }
        }
    }

    /// One transition of the turn-taking state machine: `side` moves on the
    /// given cell. A taken target cell rejects the move and changes
    /// nothing; otherwise the game either ends with its outcome or play
    /// passes to the other side.
    pub fn take_turn(&mut self, side: Mark, row: usize, column: usize) -> (r: TurnResult)
        requires
            old(self).wf(),
            row < 3,
            column < 3,
        ensures
            final(self).wf(),
            (r is Rejected) == !(old(self).board@[3 * row + column] is Empty),
            r is Rejected ==> *final(self) == *old(self),
            !(r is Rejected) ==> final(self).board@ == place(
                old(self).board@,
                3 * row + column,
                side,
            ) && final(self).steps == old(self).steps + 1,
            !(r is Rejected) ==> r == (if outcome_of(
                final(self).board@,
                final(self).steps as int,
            ) is Ongoing {
                TurnResult::Next(side.spec_other())
            } else {
                TurnResult::Finished(outcome_of(final(self).board@, final(self).steps as int))
            }),
    {
        let ok = self.step(side, row, column);
        if !ok {
            return TurnResult::Rejected;
        }
        let o = self.outcome();
        if o == Outcome::Ongoing {
            TurnResult::Next(side.other())
        } else {
            TurnResult::Finished(o)
        }
    }

    /// Read one cell of the board, for rendering and inspection.
    pub fn cell(&self, row: usize, column: usize) -> (c: Cell)
        requires
            row < 3,
            column < 3,
        ensures
            c == self.board@[3 * row + column],
    {
        self.board[3 * row + column]
    }
}

/// Law: a move that attains the search's best value keeps the position's
/// whole minimax value: choosing it never worsens circle's prospects.
pub proof fn lemma_optimal_move_keeps_value(b: Seq<Cell>, steps: int, i: int)
    requires
        b.len() == 9,
        steps == num_marks(b),
        outcome_of(b, steps) is Ongoing,
        0 <= i < 9,
        b[i] is Empty,
        game_value(place(b, i, Mark::Circle), Mark::Cross) == best_upto(b, Mark::Circle, 9),
    ensures
        game_value(place(b, i, Mark::Circle), Mark::Cross) == game_value(b, Mark::Circle),
{
    lemma_num_marks_upto_bounds(b, 9);
}

/// Law: from any well-counted ongoing position whose minimax value does
/// not already favor cross, a move attaining the search's best value, as
/// the returned best move does, leads to a position from which cross
/// cannot force a win: circle secures at least a draw.
pub proof fn lemma_best_move_secures_draw(b: Seq<Cell>, steps: int, i: int)
    requires
        b.len() == 9,
        steps == num_marks(b),
        outcome_of(b, steps) is Ongoing,
        game_value(b, Mark::Circle) >= 0,
        0 <= i < 9,
        b[i] is Empty,
        game_value(place(b, i, Mark::Circle), Mark::Cross) == best_upto(b, Mark::Circle, 9),
    ensures
        game_value(place(b, i, Mark::Circle), Mark::Cross) >= 0,
{
    lemma_optimal_move_keeps_value(b, steps, i);
}

/// Law: on a board where one mark owns a full row, column or diagonal and
/// the other mark owns none, the outcome is a win for that mark.
pub proof fn lemma_win_line_outcome(b: Seq<Cell>, steps: int, m: Mark)
    requires
        wins(b, m),
        !wins(b, m.spec_other()),
    ensures
        outcome_of(b, steps) == Outcome::Win(m),
{
}

/// Law: a reported win always rests on a real line of that mark.
pub proof fn lemma_win_sound(b: Seq<Cell>, steps: int, m: Mark)
    requires
        outcome_of(b, steps) == Outcome::Win(m),
    ensures
        wins(b, m),
{
}

/// Law: with no winning line and nine moves placed, the outcome is a draw.
pub proof fn lemma_no_line_full_draw(b: Seq<Cell>, steps: int)
    requires
        !wins(b, Mark::Circle),
        !wins(b, Mark::Cross),
        steps == 9,
    ensures
        outcome_of(b, steps) == Outcome::Draw,
{
}

/// Law: with no winning line and fewer than nine moves made, play goes on.
pub proof fn lemma_no_line_ongoing(b: Seq<Cell>, steps: int)
    requires
        !wins(b, Mark::Circle),
        !wins(b, Mark::Cross),
        0 <= steps < 9,
    ensures
        outcome_of(b, steps) == Outcome::Ongoing,
{
}

} // verus!
