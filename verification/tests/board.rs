use tictactoe::game::{Board, Chess, GameStage, Player};

fn put_all(moves: &[(Chess, (usize, usize))]) -> Board {
    let mut board = Board::new();
    for (chess, position) in moves {
        board = board.put(*chess, *position);
    }
    board
}

#[test]
fn new_board_is_empty() {
    let board = Board::new();
    for row in 0..3 {
        for col in 0..3 {
            assert!(!board.filled((row, col)));
            assert_eq!(board.cell((row, col)), None);
        }
    }
    assert_eq!(board.terminal_test(), GameStage::Ongoing);
}

#[test]
fn actions_lists_empty_cells_in_row_major_order() {
    let board = Board::new();
    let moves = board.actions();
    assert_eq!(moves.len(), 9);
    assert_eq!(
        moves,
        vec![
            (0, 0),
            (0, 1),
            (0, 2),
            (1, 0),
            (1, 1),
            (1, 2),
            (2, 0),
            (2, 1),
            (2, 2),
        ]
    );

    let board = put_all(&[(Chess::Cross, (0, 1)), (Chess::Circle, (2, 2))]);
    let moves = board.actions();
    assert_eq!(
        moves,
        vec![(0, 0), (0, 2), (1, 0), (1, 1), (1, 2), (2, 0), (2, 1)]
    );
}

#[test]
fn put_fills_one_cell_and_leaves_the_receiver_untouched() {
    let board = Board::new();
    let after = board.put(Chess::Cross, (1, 2));
    assert!(!board.filled((1, 2)));
    assert!(after.filled((1, 2)));
    assert_eq!(after.cell((1, 2)), Some(Chess::Cross));
    for row in 0..3 {
        for col in 0..3 {
            if (row, col) != (1, 2) {
                assert_eq!(after.cell((row, col)), None);
            }
        }
    }
}

#[test]
fn filled_and_stage_are_idempotent() {
    let board = put_all(&[
        (Chess::Cross, (0, 0)),
        (Chess::Circle, (1, 1)),
        (Chess::Cross, (2, 0)),
    ]);
    for row in 0..3 {
        for col in 0..3 {
            assert_eq!(board.filled((row, col)), board.filled((row, col)));
        }
    }
    assert_eq!(board.terminal_test(), board.terminal_test());
}

#[test]
fn stage_ignores_the_order_moves_were_made_in() {
    let one = put_all(&[
        (Chess::Cross, (0, 0)),
        (Chess::Circle, (1, 0)),
        (Chess::Cross, (0, 1)),
        (Chess::Circle, (1, 1)),
        (Chess::Cross, (0, 2)),
    ]);
    let two = put_all(&[
        (Chess::Cross, (0, 2)),
        (Chess::Circle, (1, 1)),
        (Chess::Cross, (0, 1)),
        (Chess::Circle, (1, 0)),
        (Chess::Cross, (0, 0)),
    ]);
    assert_eq!(one.terminal_test(), two.terminal_test());
    assert_eq!(one.terminal_test(), GameStage::MaxWin);
}

#[test]
fn horizontal_run_wins() {
    let board = put_all(&[
        (Chess::Circle, (2, 0)),
        (Chess::Cross, (1, 1)),
        (Chess::Circle, (2, 1)),
        (Chess::Cross, (0, 0)),
        (Chess::Circle, (2, 2)),
    ]);
    assert_eq!(board.terminal_test(), GameStage::MinWin);
}

#[test]
fn vertical_run_wins() {
    let board = put_all(&[
        (Chess::Cross, (0, 1)),
        (Chess::Circle, (0, 0)),
        (Chess::Cross, (1, 1)),
        (Chess::Circle, (2, 2)),
        (Chess::Cross, (2, 1)),
    ]);
    assert_eq!(board.terminal_test(), GameStage::MaxWin);
}

#[test]
fn up_diagonal_run_wins() {
    let board = put_all(&[
        (Chess::Cross, (2, 0)),
        (Chess::Circle, (0, 0)),
        (Chess::Cross, (1, 1)),
        (Chess::Circle, (1, 0)),
        (Chess::Cross, (0, 2)),
    ]);
    assert_eq!(board.terminal_test(), GameStage::MaxWin);
}

#[test]
fn full_diagonal_of_cross_wins_whatever_else_is_on_the_board() {
    let board = put_all(&[
        (Chess::Cross, (0, 0)),
        (Chess::Circle, (0, 1)),
        (Chess::Cross, (1, 1)),
        (Chess::Circle, (1, 0)),
        (Chess::Cross, (2, 2)),
    ]);
    assert_eq!(board.terminal_test(), GameStage::MaxWin);

    let crowded = put_all(&[
        (Chess::Cross, (0, 0)),
        (Chess::Circle, (0, 1)),
        (Chess::Cross, (1, 1)),
        (Chess::Circle, (2, 1)),
        (Chess::Cross, (2, 2)),
        (Chess::Circle, (2, 0)),
    ]);
    assert_eq!(crowded.terminal_test(), GameStage::MaxWin);
}

#[test]
fn full_board_without_a_run_is_a_draw() {
    let board = put_all(&[
        (Chess::Cross, (0, 0)),
        (Chess::Circle, (0, 1)),
        (Chess::Cross, (0, 2)),
        (Chess::Cross, (1, 0)),
        (Chess::Circle, (1, 1)),
        (Chess::Circle, (1, 2)),
        (Chess::Circle, (2, 0)),
        (Chess::Cross, (2, 1)),
        (Chess::Cross, (2, 2)),
    ]);
    assert_eq!(board.terminal_test(), GameStage::Draw);
    assert_eq!(board.actions().len(), 0);
}

#[test]
fn players_map_to_their_marks_and_alternate() {
    assert_eq!(Player::Max.to_chess(), Chess::Cross);
    assert_eq!(Player::Min.to_chess(), Chess::Circle);
    assert_eq!(Player::Max.exchange(), Player::Min);
    assert_eq!(Player::Min.exchange(), Player::Max);
    assert_eq!(Player::Max.exchange().exchange(), Player::Max);
}
