//! The board model: marks, players, the 3x3 grid, and the derived
//! classification of a position (ongoing, won, or drawn).

use vstd::prelude::*;

verus! {

/// Width (and height) of the square board.
pub const BOARD_WIDTH: usize = 3;

/// Length of an aligned run of one mark that wins the game.
pub const CHESS_NUM_FOR_WIN: usize = 3;

/// The mark occupying a cell. The maximizing side always plays `Cross`,
/// the minimizing side always plays `Circle`.
#[derive(Debug, Copy, Clone, PartialEq, Eq, Structural)]
pub enum Chess {
    Cross,
    Circle,
}

/// A player identity, independent of the mark it uses. `Max` is the side
/// whose outcomes are valued `+1`, `Min` the side valued `-1`.
#[derive(Debug, Copy, Clone, PartialEq, Eq, Structural)]
pub enum Player {
    Max,
    Min,
}

/// The derived classification of a board. It is a pure function of the
/// cell contents, never of the history of moves that produced them.
#[derive(Debug, Copy, Clone, PartialEq, Eq, Structural)]
pub enum GameStage {
    Ongoing,
    MaxWin,
    MinWin,
    Draw,
}

impl Player {
    /// The mark this player places on the board.
    pub open spec fn spec_chess(self) -> Chess {
        match self {
            Player::Max => Chess::Cross,
            Player::Min => Chess::Circle,
        }
    }

    /// The other player.
    pub open spec fn spec_exchange(self) -> Player {
        match self {
            Player::Max => Player::Min,
            Player::Min => Player::Max,
        }
    }

    /// The mark this player places on the board.
    pub fn to_chess(&self) -> (chess: Chess)
        ensures
            chess == self.spec_chess(),
    {
        match self {
            Player::Max => Chess::Cross,
            Player::Min => Chess::Circle,
        }
    }

    /// The other player; used to alternate turns.
    pub fn exchange(&self) -> (other: Player)
        ensures
            other == self.spec_exchange(),
            other != *self,
    {
        match self {
            Player::Max => Player::Min,
            Player::Min => Player::Max,
        }
    }
}

impl Chess {
    /// The outcome of a game won by a run of this mark.
    pub open spec fn spec_result(self) -> GameStage {
        match self {
            Chess::Cross => GameStage::MaxWin,
            Chess::Circle => GameStage::MinWin,
        }
    }

    /// The stage a board reaches when this mark forms a winning run.
    fn to_result(&self) -> (stage: GameStage)
        ensures
            stage == self.spec_result(),
    {
        match self {
            Chess::Cross => GameStage::MaxWin,
            Chess::Circle => GameStage::MinWin,
        }
    }
}

/// Flat index of the cell at `row`, `col` in the row-major cell sequence.
pub open spec fn flat(row: int, col: int) -> int {
    row * (BOARD_WIDTH as int) + col
}

/// The position `(row, col)` lies on the board.
pub open spec fn pos_on_board(position: (usize, usize)) -> bool {
    position.0 < BOARD_WIDTH && position.1 < BOARD_WIDTH
}

/// Mark `ch` fills a vertical run of winning length anchored at `(row, col)`
/// and the run stays on the board.
pub open spec fn line_vertical(s: Seq<Option<Chess>>, ch: Chess, row: int, col: int) -> bool {
    &&& 0 <= row
    &&& 0 <= col < BOARD_WIDTH as int
    &&& row + CHESS_NUM_FOR_WIN as int <= BOARD_WIDTH as int
    &&& s[flat(row, col)] == Some(ch)
    &&& s[flat(row + 1, col)] == Some(ch)
    &&& s[flat(row + 2, col)] == Some(ch)
}

/// Mark `ch` fills a horizontal run of winning length anchored at `(row, col)`.
pub open spec fn line_horizontal(s: Seq<Option<Chess>>, ch: Chess, row: int, col: int) -> bool {
    &&& 0 <= row < BOARD_WIDTH as int
    &&& 0 <= col
    &&& col + CHESS_NUM_FOR_WIN as int <= BOARD_WIDTH as int
    &&& s[flat(row, col)] == Some(ch)
    &&& s[flat(row, col + 1)] == Some(ch)
    &&& s[flat(row, col + 2)] == Some(ch)
}

/// Mark `ch` fills a downward diagonal run (row and column both growing)
/// anchored at `(row, col)`.
pub open spec fn line_down_diagonal(s: Seq<Option<Chess>>, ch: Chess, row: int, col: int) -> bool {
    &&& 0 <= row
    &&& 0 <= col
    &&& row + CHESS_NUM_FOR_WIN as int <= BOARD_WIDTH as int
    &&& col + CHESS_NUM_FOR_WIN as int <= BOARD_WIDTH as int
    &&& s[flat(row, col)] == Some(ch)
    &&& s[flat(row + 1, col + 1)] == Some(ch)
    &&& s[flat(row + 2, col + 2)] == Some(ch)
}

/// Mark `ch` fills an upward diagonal run (row shrinking, column growing)
/// anchored at `(row, col)`.
pub open spec fn line_up_diagonal(s: Seq<Option<Chess>>, ch: Chess, row: int, col: int) -> bool {
    &&& row >= CHESS_NUM_FOR_WIN as int - 1
    &&& row < BOARD_WIDTH as int
    &&& 0 <= col
    &&& col + CHESS_NUM_FOR_WIN as int <= BOARD_WIDTH as int
    &&& s[flat(row, col)] == Some(ch)
    &&& s[flat(row - 1, col + 1)] == Some(ch)
    &&& s[flat(row - 2, col + 2)] == Some(ch)
}

/// Some winning run of mark `ch` is anchored at `(row, col)`.
pub open spec fn win_at(s: Seq<Option<Chess>>, ch: Chess, row: int, col: int) -> bool {
    ||| line_vertical(s, ch, row, col)
    ||| line_horizontal(s, ch, row, col)
    ||| line_up_diagonal(s, ch, row, col)
    ||| line_down_diagonal(s, ch, row, col)
}

/// Mark `ch` has a winning run somewhere on the board.
pub open spec fn wins(s: Seq<Option<Chess>>, ch: Chess) -> bool {
    exists|row: int, col: int|
        0 <= row < BOARD_WIDTH as int && 0 <= col < BOARD_WIDTH as int && win_at(s, ch, row, col)
}

/// Every cell of the board is occupied.
pub open spec fn full(s: Seq<Option<Chess>>) -> bool {
    forall|i: int| 0 <= i < s.len() ==> s[i] is Some
}

/// The classification of a board with cells `s`: a winning run for `Cross`
/// makes it won for the maximizing side, otherwise a run for `Circle` makes
/// it won for the minimizing side, otherwise a full board is drawn and a
/// board with an empty cell is still being played.
pub open spec fn spec_stage(s: Seq<Option<Chess>>) -> GameStage {
    if wins(s, Chess::Cross) {
        GameStage::MaxWin
    } else if wins(s, Chess::Circle) {
        GameStage::MinWin
    } else if full(s) {
        GameStage::Draw
    } else {
        GameStage::Ongoing
    }
}

/// The legal moves (empty cells) of a board with cells `s` whose flat index
/// is `i` or more, as `(row, col)` pairs in row-major order.
pub open spec fn spec_moves_from(s: Seq<Option<Chess>>, i: int) -> Seq<(usize, usize)>
    decreases (BOARD_WIDTH * BOARD_WIDTH) as int - i,
{
    if i < 0 || i >= (BOARD_WIDTH * BOARD_WIDTH) as int {
        Seq::empty()
    } else if s[i] is None {
        seq![((i / BOARD_WIDTH as int) as usize, (i % BOARD_WIDTH as int) as usize)]
            + spec_moves_from(s, i + 1)
    } else {
        spec_moves_from(s, i + 1)
    }
}

/// The number of empty cells at flat index `i` or more; the measure that
/// shrinks with every move.
pub open spec fn empties_from(s: Seq<Option<Chess>>, i: int) -> nat
    decreases (BOARD_WIDTH * BOARD_WIDTH) as int - i,
{
    if i < 0 || i >= (BOARD_WIDTH * BOARD_WIDTH) as int {
        0
    } else if s[i] is None {
        1 + empties_from(s, i + 1)
    } else {
        empties_from(s, i + 1)
    }
}

/// Placing a mark on an empty cell lowers the count of empty cells at or
/// after index `i` exactly when that cell lies at or after `i`.
pub proof fn lemma_empties_update(s: Seq<Option<Chess>>, ch: Chess, j: int, i: int)
    requires
        s.len() == BOARD_WIDTH * BOARD_WIDTH,
        0 <= i,
        0 <= j < s.len(),
        s[j] is None,
    ensures
        i <= j ==> empties_from(s.update(j, Some(ch)), i) + 1 == empties_from(s, i),
        i > j ==> empties_from(s.update(j, Some(ch)), i) == empties_from(s, i),
    decreases (BOARD_WIDTH * BOARD_WIDTH) as int - i,
{
    if i < (BOARD_WIDTH * BOARD_WIDTH) as int {
        lemma_empties_update(s, ch, j, i + 1);
    }
}

/// An immutable 3x3 grid of optional marks, stored row-major. A board is
/// only ever read, or copied with one more cell set: a move never mutates
/// the value it starts from, so sibling branches of a search share it
/// safely.
#[derive(Debug, Clone)]
pub struct Board(Vec<Option<Chess>>);

impl View for Board {
    type V = Seq<Option<Chess>>;

    closed spec fn view(&self) -> Seq<Option<Chess>> {
        self.0@
    }
}

impl Board {
    /// A board value is well formed when it holds exactly one cell per
    /// position of the grid.
    pub open spec fn wf(self) -> bool {
        self@.len() == BOARD_WIDTH * BOARD_WIDTH
    }

    /// An empty board: every cell unoccupied.
    pub fn new() -> (board: Board)
        ensures
            board.wf(),
            forall|i: int| 0 <= i < board@.len() ==> board@[i] is None,
    {
        let mut cells: Vec<Option<Chess>> = Vec::new();
        let mut i: usize = 0;
        while i < BOARD_WIDTH * BOARD_WIDTH
            invariant
                i <= BOARD_WIDTH * BOARD_WIDTH,
                cells@.len() == i,
                forall|j: int| 0 <= j < i ==> cells@[j] is None,
            decreases BOARD_WIDTH * BOARD_WIDTH - i,
        {
            cells.push(None);
            i += 1;
        }
        Board(cells)
    }

    /// The content of the cell at `position`: the mark there, or `None`
    /// for an empty cell.
    pub fn cell(&self, position: (usize, usize)) -> (content: Option<Chess>)
        requires
            self.wf(),
            pos_on_board(position),
        ensures
            content == self@[flat(position.0 as int, position.1 as int)],
    {
        self.0[position.0 * BOARD_WIDTH + position.1]
    }

    /// True iff the cell at `position` is occupied by a mark.
    pub fn filled(&self, position: (usize, usize)) -> (occupied: bool)
        requires
            self.wf(),
            pos_on_board(position),
        ensures
            occupied == (self@[flat(position.0 as int, position.1 as int)] is Some),
    {
        self.0[position.0 * BOARD_WIDTH + position.1].is_some()
    }

    /// A new board identical to this one except that `position` now holds
    /// `chess`. The receiver is left untouched; callers must only ever put
    /// a mark on an empty cell.
    pub fn put(&self, chess: Chess, position: (usize, usize)) -> (board: Board)
        requires
            self.wf(),
            pos_on_board(position),
            self@[flat(position.0 as int, position.1 as int)] is None,
        ensures
            board.wf(),
            board@ == self@.update(flat(position.0 as int, position.1 as int), Some(chess)),
    {
        let mut cells = self.0.clone();
        cells[position.0 * BOARD_WIDTH + position.1] = Some(chess);
        let board = Board(cells);
        proof {
            assert(board@ =~= self@.update(
                flat(position.0 as int, position.1 as int),
                Some(chess),
            ));
        }
        board
    }

    /// The cell at `(row, col)` holds exactly the mark `chess`.
    fn cell_is(&self, chess: Chess, row: usize, col: usize) -> (found: bool)
        requires
            self.wf(),
            row < BOARD_WIDTH,
            col < BOARD_WIDTH,
        ensures
            found == (self@[flat(row as int, col as int)] == Some(chess)),
    {
        match self.0[row * BOARD_WIDTH + col] {
            Some(c) => c == chess,
            None => false,
        }
    }

    /// A winning vertical run of `chess` starts at `(row, col)`.
    fn check_vertical(&self, chess: Chess, row: usize, col: usize) -> (found: bool)
        requires
            self.wf(),
            row < BOARD_WIDTH,
            col < BOARD_WIDTH,
        ensures
            found == line_vertical(self@, chess, row as int, col as int),
    {
        if row + CHESS_NUM_FOR_WIN > BOARD_WIDTH {
            return false;
        }
        self.cell_is(chess, row, col) && self.cell_is(chess, row + 1, col) && self.cell_is(
            chess,
            row + 2,
            col,
        )
    }

    /// A winning horizontal run of `chess` starts at `(row, col)`.
    fn check_horizontal(&self, chess: Chess, row: usize, col: usize) -> (found: bool)
        requires
            self.wf(),
            row < BOARD_WIDTH,
            col < BOARD_WIDTH,
        ensures
            found == line_horizontal(self@, chess, row as int, col as int),
    {
        if col + CHESS_NUM_FOR_WIN > BOARD_WIDTH {
            return false;
        }
        self.cell_is(chess, row, col) && self.cell_is(chess, row, col + 1) && self.cell_is(
            chess,
            row,
            col + 2,
        )
    }

    /// A winning downward diagonal run of `chess` starts at `(row, col)`.
    fn check_down_diagonal(&self, chess: Chess, row: usize, col: usize) -> (found: bool)
        requires
            self.wf(),
            row < BOARD_WIDTH,
            col < BOARD_WIDTH,
        ensures
            found == line_down_diagonal(self@, chess, row as int, col as int),
    {
        if row + CHESS_NUM_FOR_WIN > BOARD_WIDTH {
            return false;
        }
        if col + CHESS_NUM_FOR_WIN > BOARD_WIDTH {
            return false;
        }
        self.cell_is(chess, row, col) && self.cell_is(chess, row + 1, col + 1) && self.cell_is(
            chess,
            row + 2,
            col + 2,
        )
    }

    /// A winning upward diagonal run of `chess` starts at `(row, col)`.
    fn check_up_diagonal(&self, chess: Chess, row: usize, col: usize) -> (found: bool)
        requires
            self.wf(),
            row < BOARD_WIDTH,
            col < BOARD_WIDTH,
        ensures
            found == line_up_diagonal(self@, chess, row as int, col as int),
    {
        if col + CHESS_NUM_FOR_WIN > BOARD_WIDTH {
            return false;
        }
        if row < CHESS_NUM_FOR_WIN - 1 {
            return false;
        }
        self.cell_is(chess, row, col) && self.cell_is(chess, row - 1, col + 1) && self.cell_is(
            chess,
            row - 2,
            col + 2,
        )
    }

    /// `chess` has a winning run somewhere on the board, found by trying
    /// every cell as the anchor of a run in each of the four directions.
    fn has_line(&self, chess: Chess) -> (found: bool)
        requires
            self.wf(),
        ensures
            found == wins(self@, chess),
    {
        let mut row: usize = 0;
        while row < BOARD_WIDTH
            invariant
                self.wf(),
                row <= BOARD_WIDTH,
                forall|r: int, c: int|
                    0 <= r < row && 0 <= c < BOARD_WIDTH as int ==> !win_at(self@, chess, r, c),
            decreases BOARD_WIDTH - row,
        {
            let mut col: usize = 0;
            while col < BOARD_WIDTH
                invariant
                    self.wf(),
                    row < BOARD_WIDTH,
                    col <= BOARD_WIDTH,
                    forall|r: int, c: int|
                        0 <= r < row && 0 <= c < BOARD_WIDTH as int ==> !win_at(self@, chess, r, c),
                    forall|c: int| 0 <= c < col ==> !win_at(self@, chess, row as int, c),
                decreases BOARD_WIDTH - col,
            {
                if self.check_vertical(chess, row, col) || self.check_horizontal(chess, row, col)
                    || self.check_up_diagonal(chess, row, col) || self.check_down_diagonal(
                    chess,
                    row,
                    col,
                ) {
                    proof {
                        assert(win_at(self@, chess, row as int, col as int));
                    }
                    return true;
                }
                col += 1;
            }
            row += 1;
        }
        false
    }

    /// The classification of this board: won for a side with a winning run
    /// (a run of `Cross` taking precedence), otherwise drawn when full,
    /// otherwise still being played.
    pub fn terminal_test(&self) -> (stage: GameStage)
        requires
            self.wf(),
        ensures
            stage == spec_stage(self@),
    {
        if self.has_line(Chess::Cross) {
            return Chess::Cross.to_result();
        }
        if self.has_line(Chess::Circle) {
            return Chess::Circle.to_result();
        }
        let mut row: usize = 0;
        while row < BOARD_WIDTH
            invariant
                self.wf(),
                row <= BOARD_WIDTH,
                !wins(self@, Chess::Cross),
                !wins(self@, Chess::Circle),
                forall|r: int, c: int|
                    0 <= r < row && 0 <= c < BOARD_WIDTH as int ==> self@[flat(r, c)] is Some,
            decreases BOARD_WIDTH - row,
        {
            let mut col: usize = 0;
            while col < BOARD_WIDTH
                invariant
                    self.wf(),
                    row < BOARD_WIDTH,
                    col <= BOARD_WIDTH,
                    !wins(self@, Chess::Cross),
                    !wins(self@, Chess::Circle),
                    forall|r: int, c: int|
                        0 <= r < row && 0 <= c < BOARD_WIDTH as int ==> self@[flat(r, c)] is Some,
                    forall|c: int| 0 <= c < col ==> self@[flat(row as int, c)] is Some,
                decreases BOARD_WIDTH - col,
            {
                if !self.filled((row, col)) {
                    proof {
                        assert(self@[flat(row as int, col as int)] is None);
                        assert(0 <= flat(row as int, col as int) < self@.len());
                        assert(!full(self@));
                    }
                    return GameStage::Ongoing;
                }
                col += 1;
            }
            row += 1;
        }
        proof {
            assert forall|i: int| 0 <= i < self@.len() implies self@[i] is Some by {
                let r = i / BOARD_WIDTH as int;
                let c = i % BOARD_WIDTH as int;
                assert(0 <= r < BOARD_WIDTH as int && 0 <= c < BOARD_WIDTH as int);
                assert(flat(r, c) == i);
            }
        }
        GameStage::Draw
    }

    /// Every currently empty position, as `(row, col)` pairs in row-major
    /// order: the deterministic scan order of an exhaustive search.
    pub fn actions(&self) -> (moves: Vec<(usize, usize)>)
        requires
            self.wf(),
        ensures
            moves@ == spec_moves_from(self@, 0),
            forall|k: int|
                0 <= k < moves@.len() ==> pos_on_board(#[trigger] moves@[k]) && self@[flat(
                    moves@[k].0 as int,
                    moves@[k].1 as int,
                )] is None,
            forall|row: int, col: int|
                0 <= row < BOARD_WIDTH as int && 0 <= col < BOARD_WIDTH as int && self@[flat(
                    row,
                    col,
                )] is None ==> moves@.contains((row as usize, col as usize)),
    {
        let mut moves: Vec<(usize, usize)> = Vec::new();
        let mut i: usize = 0;
        while i < BOARD_WIDTH * BOARD_WIDTH
            invariant
                self.wf(),
                i <= BOARD_WIDTH * BOARD_WIDTH,
                spec_moves_from(self@, 0) == moves@ + spec_moves_from(self@, i as int),
                forall|k: int|
                    0 <= k < moves@.len() ==> pos_on_board(#[trigger] moves@[k]) && self@[flat(
                        moves@[k].0 as int,
                        moves@[k].1 as int,
                    )] is None,
                forall|row: int, col: int|
                    0 <= row < BOARD_WIDTH as int && 0 <= col < BOARD_WIDTH as int && flat(row, col)
                        < i && self@[flat(row, col)] is None ==> moves@.contains(
                        (row as usize, col as usize),
                    ),
            decreases BOARD_WIDTH * BOARD_WIDTH - i,
        {
            let ghost prev = moves@;
            if self.0[i].is_none() {
                moves.push((i / BOARD_WIDTH, i % BOARD_WIDTH));
                proof {
                    assert(moves@ =~= prev.push(
                        ((i / BOARD_WIDTH) as usize, (i % BOARD_WIDTH) as usize),
                    ));
                    assert(moves@ + spec_moves_from(self@, i as int + 1) =~= prev + (seq![
                        ((i / BOARD_WIDTH) as usize, (i % BOARD_WIDTH) as usize),
                    ] + spec_moves_from(self@, i as int + 1)));
                    assert forall|row: int, col: int|
                        0 <= row < BOARD_WIDTH as int && 0 <= col < BOARD_WIDTH as int && flat(
                            row,
                            col,
                        ) < i + 1 && self@[flat(row, col)] is None implies moves@.contains(
                        (row as usize, col as usize),
                    ) by {
                        if flat(row, col) < i {
                            assert(prev.contains((row as usize, col as usize)));
                            let k = choose|k: int|
                                0 <= k < prev.len() && prev[k] == (row as usize, col as usize);
                            assert(moves@[k] == (row as usize, col as usize));
                        } else {
                            assert(flat(row, col) == i);
                            assert(row == i as int / BOARD_WIDTH as int && col == i as int
                                % BOARD_WIDTH as int) by {
                                assert(flat(row, col) == row * BOARD_WIDTH as int + col);
                            }
                            assert(moves@[moves@.len() - 1] == (row as usize, col as usize));
                        }
                    }
                }
            } else {
                proof {
                    assert forall|row: int, col: int|
                        0 <= row < BOARD_WIDTH as int && 0 <= col < BOARD_WIDTH as int && flat(
                            row,
                            col,
                        ) < i + 1 && self@[flat(row, col)] is None implies moves@.contains(
                        (row as usize, col as usize),
                    ) by {
                        if flat(row, col) >= i {
                            assert(flat(row, col) == i);
                        }
                    }
                }
            }
            i += 1;
        }
        proof {
            assert(moves@ + spec_moves_from(self@, (BOARD_WIDTH * BOARD_WIDTH) as int) =~= moves@);
        }
        moves
    }
}

} // verus!
