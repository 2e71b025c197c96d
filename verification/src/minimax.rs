//! The minimax decision engine: the game-theoretic value of a position for
//! each side, and the selection of a move that guarantees the best
//! reachable outcome against optimal opposition.

use rand::Rng;
use vstd::prelude::*;

use crate::game::{
    Board, Chess, GameStage, BOARD_WIDTH, flat, pos_on_board, spec_stage, full, empties_from,
    lemma_empties_update,
};

verus! {

/// The game value of a board for the side to move being the maximizer:
/// `+1`, `-1` or `0` on a terminal board (always from the maximizing side's
/// perspective), and otherwise the best value the maximizer can force by
/// placing a `Cross` on some empty cell.
pub open spec fn spec_max_value(s: Seq<Option<Chess>>) -> int
    decreases empties_from(s, 0), (BOARD_WIDTH * BOARD_WIDTH) as int + 1,
        when s.len() == BOARD_WIDTH * BOARD_WIDTH
{
    match spec_stage(s) {
        GameStage::MaxWin => 1,
        GameStage::MinWin => -1,
        GameStage::Draw => 0,
        GameStage::Ongoing => spec_max_from(s, 0),
    }
}

/// The largest value the maximizer reaches by a move at flat index `i` or
/// more; `-2` (below every game value) when no such move exists.
pub open spec fn spec_max_from(s: Seq<Option<Chess>>, i: int) -> int
    decreases empties_from(s, 0), (BOARD_WIDTH * BOARD_WIDTH) as int - i,
        when s.len() == BOARD_WIDTH * BOARD_WIDTH
{
    if i < 0 || i >= (BOARD_WIDTH * BOARD_WIDTH) as int {
        -2
    } else if s[i] is None {
        {
            proof {
                lemma_empties_update(s, Chess::Cross, i, 0);
            }
            vstd::math::max(
                spec_min_value(s.update(i, Some(Chess::Cross))),
                spec_max_from(s, i + 1),
            )
        }
    } else {
        spec_max_from(s, i + 1)
    }
}

/// The game value of a board for the side to move being the minimizer:
/// terminal outcomes as in `spec_max_value`, and otherwise the worst value
/// (for the maximizer) the minimizer can force by placing a `Circle`.
pub open spec fn spec_min_value(s: Seq<Option<Chess>>) -> int
    decreases empties_from(s, 0), (BOARD_WIDTH * BOARD_WIDTH) as int + 1,
        when s.len() == BOARD_WIDTH * BOARD_WIDTH
{
    match spec_stage(s) {
        GameStage::MaxWin => 1,
        GameStage::MinWin => -1,
        GameStage::Draw => 0,
        GameStage::Ongoing => spec_min_from(s, 0),
    }
}

/// The smallest value the minimizer reaches by a move at flat index `i` or
/// more; `2` (above every game value) when no such move exists.
pub open spec fn spec_min_from(s: Seq<Option<Chess>>, i: int) -> int
    decreases empties_from(s, 0), (BOARD_WIDTH * BOARD_WIDTH) as int - i,
        when s.len() == BOARD_WIDTH * BOARD_WIDTH
{
    if i < 0 || i >= (BOARD_WIDTH * BOARD_WIDTH) as int {
        2
    } else if s[i] is None {
        {
            proof {
                lemma_empties_update(s, Chess::Circle, i, 0);
            }
            vstd::math::min(
                spec_max_value(s.update(i, Some(Chess::Circle))),
                spec_min_from(s, i + 1),
            )
        }
    } else {
        spec_min_from(s, i + 1)
    }
}

/// Every game value lies in `{-1, 0, 1}`.
pub proof fn lemma_value_range(s: Seq<Option<Chess>>)
    requires
        s.len() == BOARD_WIDTH * BOARD_WIDTH,
    ensures
        -1 <= spec_max_value(s) <= 1,
        -1 <= spec_min_value(s) <= 1,
    decreases empties_from(s, 0), (BOARD_WIDTH * BOARD_WIDTH) as int + 1,
{
    if spec_stage(s) == GameStage::Ongoing {
        assert(!full(s));
        let j = choose|j: int| 0 <= j < s.len() && !(s[j] is Some);
        assert(0 <= j < s.len() && s[j] is None);
        lemma_max_from_range(s, 0);
        lemma_min_from_range(s, 0);
    }
}

/// The maximizer's fold over moves at index `i` or more is a game value
/// when some such move exists, and the sentinel `-2` when none does.
pub proof fn lemma_max_from_range(s: Seq<Option<Chess>>, i: int)
    requires
        s.len() == BOARD_WIDTH * BOARD_WIDTH,
        0 <= i <= s.len(),
    ensures
        (exists|j: int| i <= j < s.len() && s[j] is None) ==> -1 <= spec_max_from(s, i) <= 1,
        !(exists|j: int| i <= j < s.len() && s[j] is None) ==> spec_max_from(s, i) == -2,
    decreases empties_from(s, 0), (BOARD_WIDTH * BOARD_WIDTH) as int - i,
{
    if i < s.len() {
        lemma_max_from_range(s, i + 1);
        if s[i] is None {
            lemma_empties_update(s, Chess::Cross, i, 0);
            lemma_value_range(s.update(i, Some(Chess::Cross)));
            assert(i <= i < s.len() && s[i] is None);
        } else {
            assert forall|j: int| i <= j < s.len() && s[j] is None implies i + 1 <= j by {}
        }
    }
}

/// The minimizer's fold over moves at index `i` or more is a game value
/// when some such move exists, and the sentinel `2` when none does.
pub proof fn lemma_min_from_range(s: Seq<Option<Chess>>, i: int)
    requires
        s.len() == BOARD_WIDTH * BOARD_WIDTH,
        0 <= i <= s.len(),
    ensures
        (exists|j: int| i <= j < s.len() && s[j] is None) ==> -1 <= spec_min_from(s, i) <= 1,
        !(exists|j: int| i <= j < s.len() && s[j] is None) ==> spec_min_from(s, i) == 2,
    decreases empties_from(s, 0), (BOARD_WIDTH * BOARD_WIDTH) as int - i,
{
    if i < s.len() {
        lemma_min_from_range(s, i + 1);
        if s[i] is None {
            lemma_empties_update(s, Chess::Circle, i, 0);
            lemma_value_range(s.update(i, Some(Chess::Circle)));
            assert(i <= i < s.len() && s[i] is None);
        } else {
            assert forall|j: int| i <= j < s.len() && s[j] is None implies i + 1 <= j by {}
        }
    }
}

/// Relies on `rand::Rng::gen_range` on the thread-local generator
/// `rand::thread_rng`: for the non-empty half-open range `min..max` it
/// returns a value of that range. It panics only on an empty range, which
/// the precondition rules out. Nothing more is assumed: the result may
/// differ between two calls on the same arguments.
#[verifier::external_body]
fn rand_usize(min: usize, max: usize) -> (choice: usize)
    requires
        min < max,
    ensures
        min <= choice < max,
{
    rand::thread_rng().gen_range(min..max)
}

impl Board {
    /// The game value of this board when it is the maximizer's turn:
    /// the terminal outcome, or the maximum over all legal moves of the
    /// value after placing a `Cross` there.
    pub fn max_value(&self) -> (value: i32)
        requires
            self.wf(),
        ensures
            value as int == spec_max_value(self@),
        decreases empties_from(self@, 0),
    {
        match self.terminal_test() {
            GameStage::MaxWin => 1,
            GameStage::MinWin => -1,
            GameStage::Draw => 0,
            GameStage::Ongoing => {
                let mut value: i32 = -2;
                let mut i: usize = 0;
                proof {
                    lemma_max_from_range(self@, 0);
                }
                while i < BOARD_WIDTH * BOARD_WIDTH
                    invariant
                        self.wf(),
                        spec_stage(self@) == GameStage::Ongoing,
                        i <= BOARD_WIDTH * BOARD_WIDTH,
                        -2 <= value <= 1,
                        vstd::math::max(value as int, spec_max_from(self@, i as int))
                            == spec_max_from(self@, 0),
                    decreases BOARD_WIDTH * BOARD_WIDTH - i,
                {
                    let row = i / BOARD_WIDTH;
                    let col = i % BOARD_WIDTH;
                    if !self.filled((row, col)) {
                        let next = self.put(Chess::Cross, (row, col));
                        proof {
                            lemma_empties_update(self@, Chess::Cross, i as int, 0);
                        }
                        let sub = next.min_value();
                        proof {
                            lemma_value_range(next@);
                        }
                        if sub > value {
                            value = sub;
                        }
                    }
                    i += 1;
                }
                value
            },
        }
    }

    /// The game value of this board when it is the minimizer's turn:
    /// the terminal outcome, or the minimum over all legal moves of the
    /// value after placing a `Circle` there.
    pub fn min_value(&self) -> (value: i32)
        requires
            self.wf(),
        ensures
            value as int == spec_min_value(self@),
        decreases empties_from(self@, 0),
    {
        match self.terminal_test() {
            GameStage::MaxWin => 1,
            GameStage::MinWin => -1,
            GameStage::Draw => 0,
            GameStage::Ongoing => {
                let mut value: i32 = 2;
                let mut i: usize = 0;
                proof {
                    lemma_min_from_range(self@, 0);
                }
                while i < BOARD_WIDTH * BOARD_WIDTH
                    invariant
                        self.wf(),
                        spec_stage(self@) == GameStage::Ongoing,
                        i <= BOARD_WIDTH * BOARD_WIDTH,
                        -1 <= value <= 2,
                        vstd::math::min(value as int, spec_min_from(self@, i as int))
                            == spec_min_from(self@, 0),
                    decreases BOARD_WIDTH * BOARD_WIDTH - i,
                {
                    let row = i / BOARD_WIDTH;
                    let col = i % BOARD_WIDTH;
                    if !self.filled((row, col)) {
                        let next = self.put(Chess::Circle, (row, col));
                        proof {
                            lemma_empties_update(self@, Chess::Circle, i as int, 0);
                        }
                        let sub = next.max_value();
                        proof {
                            lemma_value_range(next@);
                        }
                        if sub < value {
                            value = sub;
                        }
                    }
                    i += 1;
                }
                value
            },
        }
    }

    /// An optimal move for the maximizing side (which plays `Cross`) on a
    /// board that is still being played: the returned position is an empty
    /// cell, and placing a `Cross` there reaches the best value the
    /// maximizer can force. Among all equally optimal moves one is chosen
    /// at random, so optimal play stays hard to exploit.
    pub fn minimax_decision(&self) -> (position: (usize, usize))
        requires
            self.wf(),
            spec_stage(self@) == GameStage::Ongoing,
        ensures
            pos_on_board(position),
            self@[flat(position.0 as int, position.1 as int)] is None,
            spec_min_value(
                self@.update(flat(position.0 as int, position.1 as int), Some(Chess::Cross)),
            ) == spec_max_value(self@),
            forall|row: int, col: int|
                0 <= row < BOARD_WIDTH as int && 0 <= col < BOARD_WIDTH as int && self@[
                    #[trigger] flat(row, col)] is None ==> spec_min_value(
                    self@.update(flat(row, col), Some(Chess::Cross)),
                ) <= spec_min_value(
                    self@.update(flat(position.0 as int, position.1 as int), Some(Chess::Cross)),
                ),
    {
        proof {
            crate::laws::lemma_max_value_is_best_move(self@);
        }
        let mut best: i32 = -2;
        let mut win_positions: Vec<(usize, usize)> = Vec::new();
        let mut draw_positions: Vec<(usize, usize)> = Vec::new();
        let mut lose_positions: Vec<(usize, usize)> = Vec::new();

        let mut i: usize = 0;
        proof {
            lemma_max_from_range(self@, 0);
        }
        while i < BOARD_WIDTH * BOARD_WIDTH
            invariant
                self.wf(),
                spec_stage(self@) == GameStage::Ongoing,
                i <= BOARD_WIDTH * BOARD_WIDTH,
                -2 <= best <= 1,
                vstd::math::max(best as int, spec_max_from(self@, i as int))
                    == spec_max_from(self@, 0),
                forall|k: int|
                    0 <= k < win_positions@.len() ==> pos_on_board(#[trigger] win_positions@[k])
                        && self@[flat(win_positions@[k].0 as int, win_positions@[k].1 as int)]
                        is None && spec_min_value(
                        self@.update(
                            flat(win_positions@[k].0 as int, win_positions@[k].1 as int),
                            Some(Chess::Cross),
                        ),
                    ) == 1,
                forall|k: int|
                    0 <= k < draw_positions@.len() ==> pos_on_board(#[trigger] draw_positions@[k])
                        && self@[flat(draw_positions@[k].0 as int, draw_positions@[k].1 as int)]
                        is None && spec_min_value(
                        self@.update(
                            flat(draw_positions@[k].0 as int, draw_positions@[k].1 as int),
                            Some(Chess::Cross),
                        ),
                    ) == 0,
                forall|k: int|
                    0 <= k < lose_positions@.len() ==> pos_on_board(#[trigger] lose_positions@[k])
                        && self@[flat(lose_positions@[k].0 as int, lose_positions@[k].1 as int)]
                        is None && spec_min_value(
                        self@.update(
                            flat(lose_positions@[k].0 as int, lose_positions@[k].1 as int),
                            Some(Chess::Cross),
                        ),
                    ) == -1,
                best == 1 ==> win_positions@.len() > 0,
                best == 0 ==> draw_positions@.len() > 0,
                best == -1 ==> lose_positions@.len() > 0,
            decreases BOARD_WIDTH * BOARD_WIDTH - i,
        {
            let row = i / BOARD_WIDTH;
            let col = i % BOARD_WIDTH;
            if !self.filled((row, col)) {
                let next = self.put(Chess::Cross, (row, col));
                proof {
                    lemma_empties_update(self@, Chess::Cross, i as int, 0);
                }
                let value = next.min_value();
                proof {
                    lemma_value_range(next@);
                }
                if value > best {
                    best = value;
                }
                if value == 1 {
                    win_positions.push((row, col));
                } else if value == 0 {
                    draw_positions.push((row, col));
                } else {
                    lose_positions.push((row, col));
                }
            }
            i += 1;
        }
        proof {
            assert(!full(self@));
            let j = choose|j: int| 0 <= j < self@.len() && !(self@[j] is Some);
            assert(0 <= j < self@.len() && self@[j] is None);
            lemma_max_from_range(self@, 0);
        }
        match best {
            1 => {
                let choice = rand_usize(0, win_positions.len());
                win_positions[choice]
            },
            0 => {
                let choice = rand_usize(0, draw_positions.len());
                draw_positions[choice]
            },
            _ => {
                let choice = rand_usize(0, lose_positions.len());
                lose_positions[choice]
            },
        }
    }
}

} // verus!
