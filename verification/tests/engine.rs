use tictactoe::game::{Board, Chess, GameStage};

fn put_all(moves: &[(Chess, (usize, usize))]) -> Board {
    let mut board = Board::new();
    for (chess, position) in moves {
        board = board.put(*chess, *position);
    }
    board
}

/// The best value the maximizer can reach in one move, recomputed move by
/// move, to cross-check the engine's own fold.
fn best_reply_value(board: &Board) -> i32 {
    let mut best = i32::MIN;
    for position in board.actions() {
        let value = board.put(Chess::Cross, position).min_value();
        if value > best {
            best = value;
        }
    }
    best
}

#[test]
fn the_empty_board_is_a_forced_draw() {
    let board = Board::new();
    assert_eq!(board.max_value(), 0);
}

#[test]
fn terminal_values_are_fixed() {
    let max_win = put_all(&[
        (Chess::Cross, (0, 0)),
        (Chess::Circle, (1, 0)),
        (Chess::Cross, (0, 1)),
        (Chess::Circle, (1, 1)),
        (Chess::Cross, (0, 2)),
    ]);
    assert_eq!(max_win.terminal_test(), GameStage::MaxWin);
    assert_eq!(max_win.max_value(), 1);
    assert_eq!(max_win.min_value(), 1);

    let min_win = put_all(&[
        (Chess::Cross, (0, 0)),
        (Chess::Circle, (1, 0)),
        (Chess::Cross, (0, 1)),
        (Chess::Circle, (1, 1)),
        (Chess::Cross, (2, 2)),
        (Chess::Circle, (1, 2)),
    ]);
    assert_eq!(min_win.terminal_test(), GameStage::MinWin);
    assert_eq!(min_win.max_value(), -1);
    assert_eq!(min_win.min_value(), -1);
}

#[test]
fn max_value_equals_the_best_value_over_legal_moves() {
    let board = put_all(&[
        (Chess::Cross, (0, 0)),
        (Chess::Circle, (1, 1)),
        (Chess::Cross, (2, 2)),
        (Chess::Circle, (0, 2)),
    ]);
    assert_eq!(board.terminal_test(), GameStage::Ongoing);
    assert_eq!(board.max_value(), best_reply_value(&board));
}

#[test]
fn min_value_equals_the_worst_value_over_legal_moves() {
    let board = put_all(&[
        (Chess::Cross, (0, 0)),
        (Chess::Circle, (1, 1)),
        (Chess::Cross, (2, 2)),
    ]);
    assert_eq!(board.terminal_test(), GameStage::Ongoing);
    let mut worst = i32::MAX;
    for position in board.actions() {
        let value = board.put(Chess::Circle, position).max_value();
        if value < worst {
            worst = value;
        }
    }
    assert_eq!(board.min_value(), worst);
}

#[test]
fn the_unique_winning_move_is_always_chosen() {
    let board = put_all(&[
        (Chess::Cross, (0, 0)),
        (Chess::Circle, (1, 0)),
        (Chess::Cross, (0, 1)),
        (Chess::Circle, (1, 1)),
    ]);
    for _ in 0..10 {
        assert_eq!(board.minimax_decision(), (0, 2));
    }
    assert_eq!(board.put(Chess::Cross, (0, 2)).min_value(), 1);
}

#[test]
fn the_blocking_move_is_chosen_over_any_losing_move() {
    let board = put_all(&[
        (Chess::Cross, (0, 0)),
        (Chess::Circle, (1, 0)),
        (Chess::Cross, (2, 2)),
        (Chess::Circle, (1, 1)),
    ]);
    // `Circle` threatens to complete its middle row at (1, 2); no move wins
    // outright for `Cross`, so blocking there is the only draw.
    for _ in 0..10 {
        assert_eq!(board.minimax_decision(), (1, 2));
    }
    assert_eq!(board.put(Chess::Cross, (1, 2)).min_value(), 0);
}

#[test]
fn the_chosen_move_is_legal_and_optimal() {
    let board = put_all(&[(Chess::Cross, (1, 1)), (Chess::Circle, (0, 0))]);
    let best = best_reply_value(&board);
    for _ in 0..20 {
        let position = board.minimax_decision();
        assert!(position.0 < 3 && position.1 < 3);
        assert!(!board.filled(position));
        assert_eq!(board.put(Chess::Cross, position).min_value(), best);
    }
}
