//! The laws the engine obeys, stated over the spec-level model and proved
//! once for every board.

use vstd::prelude::*;

use crate::game::{Chess, GameStage, BOARD_WIDTH, flat, spec_stage, full};
use crate::minimax::{
    spec_max_value, spec_max_from, spec_min_value, spec_min_from, lemma_value_range,
    lemma_max_from_range, lemma_min_from_range,
};

verus! {

/// The classification of a board depends only on its cell contents: any
/// two play histories that fill the grid the same way reach the same
/// stage, whatever the order of the moves was.
pub proof fn lemma_stage_only_depends_on_cells(s1: Seq<Option<Chess>>, s2: Seq<Option<Chess>>)
    requires
        s1 == s2,
    ensures
        spec_stage(s1) == spec_stage(s2),
{
}

/// The maximizer's fold over moves at index `i` or more is exactly the
/// maximum over those moves of the minimizer's value of the board after a
/// `Cross` there: it is reached by one of them and no move beats it.
proof fn lemma_max_from_is_best(s: Seq<Option<Chess>>, i: int)
    requires
        s.len() == BOARD_WIDTH * BOARD_WIDTH,
        0 <= i <= s.len(),
    ensures
        forall|j: int|
            i <= j < s.len() && s[j] is None ==> spec_max_from(s, i) >= spec_min_value(
                s.update(j, Some(Chess::Cross)),
            ),
        (exists|j: int| i <= j < s.len() && s[j] is None) ==> exists|j: int|
            i <= j < s.len() && s[j] is None && spec_max_from(s, i) == spec_min_value(
                s.update(j, Some(Chess::Cross)),
            ),
    decreases s.len() - i,
{
    if i < s.len() {
        lemma_max_from_is_best(s, i + 1);
        lemma_max_from_range(s, i + 1);
        if s[i] is None {
            lemma_value_range(s.update(i, Some(Chess::Cross)));
            assert(i <= i < s.len() && s[i] is None);
            if spec_max_from(s, i) != spec_min_value(s.update(i, Some(Chess::Cross))) {
                assert(spec_max_from(s, i) == spec_max_from(s, i + 1));
                assert(spec_max_from(s, i + 1) > -2);
                let j0 = choose|j: int|
                    i + 1 <= j < s.len() && s[j] is None && spec_max_from(s, i + 1)
                        == spec_min_value(s.update(j, Some(Chess::Cross)));
                assert(i <= j0 < s.len() && s[j0] is None && spec_max_from(s, i)
                    == spec_min_value(s.update(j0, Some(Chess::Cross))));
            }
        } else {
            assert forall|j: int| i <= j < s.len() && s[j] is None implies i + 1 <= j by {}
            if exists|j: int| i <= j < s.len() && s[j] is None {
                let j0 = choose|j: int|
                    i + 1 <= j < s.len() && s[j] is None && spec_max_from(s, i + 1)
                        == spec_min_value(s.update(j, Some(Chess::Cross)));
                assert(i <= j0 < s.len() && s[j0] is None && spec_max_from(s, i)
                    == spec_min_value(s.update(j0, Some(Chess::Cross))));
            }
        }
    }
}

/// The minimizer's fold over moves at index `i` or more is exactly the
/// minimum over those moves of the maximizer's value of the board after a
/// `Circle` there.
proof fn lemma_min_from_is_best(s: Seq<Option<Chess>>, i: int)
    requires
        s.len() == BOARD_WIDTH * BOARD_WIDTH,
        0 <= i <= s.len(),
    ensures
        forall|j: int|
            i <= j < s.len() && s[j] is None ==> spec_min_from(s, i) <= spec_max_value(
                s.update(j, Some(Chess::Circle)),
            ),
        (exists|j: int| i <= j < s.len() && s[j] is None) ==> exists|j: int|
            i <= j < s.len() && s[j] is None && spec_min_from(s, i) == spec_max_value(
                s.update(j, Some(Chess::Circle)),
            ),
    decreases s.len() - i,
{
    if i < s.len() {
        lemma_min_from_is_best(s, i + 1);
        lemma_min_from_range(s, i + 1);
        if s[i] is None {
            lemma_value_range(s.update(i, Some(Chess::Circle)));
            assert(i <= i < s.len() && s[i] is None);
            if spec_min_from(s, i) != spec_max_value(s.update(i, Some(Chess::Circle))) {
                assert(spec_min_from(s, i) == spec_min_from(s, i + 1));
                assert(spec_min_from(s, i + 1) < 2);
                let j0 = choose|j: int|
                    i + 1 <= j < s.len() && s[j] is None && spec_min_from(s, i + 1)
                        == spec_max_value(s.update(j, Some(Chess::Circle)));
                assert(i <= j0 < s.len() && s[j0] is None && spec_min_from(s, i)
                    == spec_max_value(s.update(j0, Some(Chess::Circle))));
            }
        } else {
            assert forall|j: int| i <= j < s.len() && s[j] is None implies i + 1 <= j by {}
            if exists|j: int| i <= j < s.len() && s[j] is None {
                let j0 = choose|j: int|
                    i + 1 <= j < s.len() && s[j] is None && spec_min_from(s, i + 1)
                        == spec_max_value(s.update(j, Some(Chess::Circle)));
                assert(i <= j0 < s.len() && s[j0] is None && spec_min_from(s, i)
                    == spec_max_value(s.update(j0, Some(Chess::Circle))));
            }
        }
    }
}

/// On a board that is still being played, the maximizer's game value is
/// exactly the maximum over all legal moves of the minimizer's value of
/// the board after placing a `Cross` there: no legal move beats it, and
/// some legal move reaches it.
pub proof fn lemma_max_value_is_best_move(s: Seq<Option<Chess>>)
    requires
        s.len() == BOARD_WIDTH * BOARD_WIDTH,
        spec_stage(s) == GameStage::Ongoing,
    ensures
        forall|row: int, col: int|
            0 <= row < BOARD_WIDTH as int && 0 <= col < BOARD_WIDTH as int && s[#[trigger] flat(
                row,
                col,
            )] is None ==> spec_max_value(s) >= spec_min_value(
                s.update(flat(row, col), Some(Chess::Cross)),
            ),
        exists|row: int, col: int|
            0 <= row < BOARD_WIDTH as int && 0 <= col < BOARD_WIDTH as int && s[#[trigger] flat(
                row,
                col,
            )] is None && spec_max_value(s) == spec_min_value(
                s.update(flat(row, col), Some(Chess::Cross)),
            ),
{
    lemma_max_from_is_best(s, 0);
    assert(spec_max_value(s) == spec_max_from(s, 0));
    assert(!full(s));
    let j = choose|j: int| 0 <= j < s.len() && !(s[j] is Some);
    assert(0 <= j < s.len() && s[j] is None);
    let j0 = choose|j: int|
        0 <= j < s.len() && s[j] is None && spec_max_from(s, 0) == spec_min_value(
            s.update(j, Some(Chess::Cross)),
        );
    let row = j0 / BOARD_WIDTH as int;
    let col = j0 % BOARD_WIDTH as int;
    assert(0 <= row < BOARD_WIDTH as int && 0 <= col < BOARD_WIDTH as int && flat(row, col) == j0);
}

/// On a board that is still being played, the minimizer's game value is
/// exactly the minimum over all legal moves of the maximizer's value of
/// the board after placing a `Circle` there.
pub proof fn lemma_min_value_is_best_move(s: Seq<Option<Chess>>)
    requires
        s.len() == BOARD_WIDTH * BOARD_WIDTH,
        spec_stage(s) == GameStage::Ongoing,
    ensures
        forall|row: int, col: int|
            0 <= row < BOARD_WIDTH as int && 0 <= col < BOARD_WIDTH as int && s[#[trigger] flat(
                row,
                col,
            )] is None ==> spec_min_value(s) <= spec_max_value(
                s.update(flat(row, col), Some(Chess::Circle)),
            ),
        exists|row: int, col: int|
            0 <= row < BOARD_WIDTH as int && 0 <= col < BOARD_WIDTH as int && s[#[trigger] flat(
                row,
                col,
            )] is None && spec_min_value(s) == spec_max_value(
                s.update(flat(row, col), Some(Chess::Circle)),
            ),
{
    lemma_min_from_is_best(s, 0);
    assert(spec_min_value(s) == spec_min_from(s, 0));
    assert(!full(s));
    let j = choose|j: int| 0 <= j < s.len() && !(s[j] is Some);
    assert(0 <= j < s.len() && s[j] is None);
    let j0 = choose|j: int|
        0 <= j < s.len() && s[j] is None && spec_min_from(s, 0) == spec_max_value(
            s.update(j, Some(Chess::Circle)),
        );
    let row = j0 / BOARD_WIDTH as int;
    let col = j0 % BOARD_WIDTH as int;
    assert(0 <= row < BOARD_WIDTH as int && 0 <= col < BOARD_WIDTH as int && flat(row, col) == j0);
}

} // verus!
