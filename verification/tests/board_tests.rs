use blokus::{Board, GameError, Piece, Position, State};

fn piece_1x1() -> Piece {
    Piece::new(vec![Position { x: 0, y: 0 }], 0)
}

fn domino() -> Piece {
    Piece::new(vec![Position { x: 0, y: 0 }, Position { x: 1, y: 0 }], 1)
}

fn state(board: &Board, x: u16, y: u16) -> State {
    board.get_state_on_position(&Position { x, y }).unwrap()
}

#[test]
fn should_place_block() {
    let mut board = Board::new(1, 1);
    let was_placed = board.place_piece(piece_1x1(), Position { x: 0, y: 0 }, 0, true).unwrap();
    assert!(was_placed.is_none());

    assert_eq!(board.get_state_on_position(&Position { x: 0, y: 0 }).unwrap(), State::Occupied(0));

    let was_placed = board.place_piece(piece_1x1(), Position { x: 0, y: 0 }, 0, true).unwrap();
    assert!(was_placed.is_some())
}

#[test]
fn new_board_is_free_everywhere() {
    let board = Board::new(4, 3);
    assert_eq!(board.width(), 4);
    assert_eq!(board.height(), 3);
    for y in 0..3 {
        for x in 0..4 {
            assert_eq!(state(&board, x, y), State::Free);
        }
    }
}

#[test]
fn state_off_the_grid_is_an_error() {
    let board = Board::new(4, 3);
    assert_eq!(
        board.get_state_on_position(&Position { x: 4, y: 0 }),
        Err(GameError::OutOfBounds { x: 4, y: 0 })
    );
    assert_eq!(
        board.get_state_on_position(&Position { x: 0, y: 3 }),
        Err(GameError::OutOfBounds { x: 0, y: 3 })
    );
    assert_eq!(
        Board::new(0, 0).get_state_on_position(&Position { x: 0, y: 0 }),
        Err(GameError::OutOfBounds { x: 0, y: 0 })
    );
}

#[test]
fn single_block_marks_exactly_its_cell() {
    let mut board = Board::new(3, 3);
    assert!(board.place_piece(piece_1x1(), Position { x: 2, y: 0 }, 1, true).unwrap().is_none());
    for y in 0..3 {
        for x in 0..3 {
            let expected = if (x, y) == (2, 0) { State::Occupied(1) } else { State::Free };
            assert_eq!(state(&board, x, y), expected);
        }
    }
    let returned = board.place_piece(piece_1x1(), Position { x: 2, y: 0 }, 1, true).unwrap();
    assert_eq!(returned, Some(piece_1x1()));
    for y in 0..3 {
        for x in 0..3 {
            let expected = if (x, y) == (2, 0) { State::Occupied(1) } else { State::Free };
            assert_eq!(state(&board, x, y), expected);
        }
    }
}

#[test]
fn first_move_must_touch_a_corner() {
    let mut board = Board::new(3, 3);
    let returned = board.place_piece(piece_1x1(), Position { x: 1, y: 1 }, 0, true).unwrap();
    assert_eq!(returned, Some(piece_1x1()));
    assert_eq!(state(&board, 1, 1), State::Free);
    for (x, y) in [(0, 0), (2, 0), (0, 2), (2, 2)] {
        let mut board = Board::new(3, 3);
        assert!(board.place_piece(piece_1x1(), Position { x, y }, 0, true).unwrap().is_none());
        assert_eq!(state(&board, x, y), State::Occupied(0));
    }
}

#[test]
fn later_move_must_touch_own_cell_diagonally() {
    let mut board = Board::new(3, 3);
    assert!(board.place_piece(piece_1x1(), Position { x: 0, y: 0 }, 0, true).unwrap().is_none());

    let below = board.place_piece(piece_1x1(), Position { x: 0, y: 1 }, 0, false).unwrap();
    assert!(below.is_some());
    let beside = board.place_piece(piece_1x1(), Position { x: 1, y: 0 }, 0, false).unwrap();
    assert!(beside.is_some());
    let apart = board.place_piece(piece_1x1(), Position { x: 2, y: 2 }, 0, false).unwrap();
    assert!(apart.is_some());
    assert_eq!(state(&board, 0, 1), State::Free);
    assert_eq!(state(&board, 1, 0), State::Free);
    assert_eq!(state(&board, 2, 2), State::Free);

    let diagonal = board.place_piece(piece_1x1(), Position { x: 1, y: 1 }, 0, false).unwrap();
    assert!(diagonal.is_none());
    assert_eq!(state(&board, 1, 1), State::Occupied(0));
}

#[test]
fn later_move_does_not_ask_for_a_corner() {
    let mut board = Board::new(3, 3);
    let corner = board.place_piece(piece_1x1(), Position { x: 2, y: 2 }, 0, false).unwrap();
    assert!(corner.is_some());
    assert_eq!(state(&board, 2, 2), State::Free);
}

#[test]
fn edge_adjacency_is_forbidden_on_a_first_move_too() {
    let mut board = Board::new(3, 3);
    assert!(board.place_piece(piece_1x1(), Position { x: 0, y: 0 }, 0, true).unwrap().is_none());
    // (2, 0) is a corner, and (1, 0) beside it is free: the domino at (1, 0)
    // would lie against the player's block at (0, 0).
    let returned = board.place_piece(domino(), Position { x: 1, y: 0 }, 0, true).unwrap();
    assert_eq!(returned, Some(domino()));
    assert_eq!(state(&board, 1, 0), State::Free);
    assert_eq!(state(&board, 2, 0), State::Free);
}

#[test]
fn edge_adjacency_to_another_player_is_allowed() {
    let mut board = Board::new(3, 3);
    assert!(board.place_piece(piece_1x1(), Position { x: 0, y: 0 }, 0, true).unwrap().is_none());
    assert!(board.place_piece(domino(), Position { x: 1, y: 0 }, 1, true).unwrap().is_none());
    assert_eq!(state(&board, 0, 0), State::Occupied(0));
    assert_eq!(state(&board, 1, 0), State::Occupied(1));
    assert_eq!(state(&board, 2, 0), State::Occupied(1));
}

#[test]
fn diagonal_touch_of_another_player_does_not_anchor() {
    let mut board = Board::new(3, 3);
    assert!(board.place_piece(piece_1x1(), Position { x: 0, y: 0 }, 0, true).unwrap().is_none());
    let returned = board.place_piece(piece_1x1(), Position { x: 1, y: 1 }, 1, false).unwrap();
    assert!(returned.is_some());
}

#[test]
fn occupied_cell_rejects_every_player() {
    let mut board = Board::new(2, 2);
    assert!(board.place_piece(piece_1x1(), Position { x: 0, y: 0 }, 0, true).unwrap().is_none());
    let returned = board.place_piece(piece_1x1(), Position { x: 0, y: 0 }, 1, true).unwrap();
    assert!(returned.is_some());
    assert_eq!(state(&board, 0, 0), State::Occupied(0));
}

#[test]
fn piece_reaching_off_the_grid_is_an_error() {
    let mut board = Board::new(3, 3);
    let outcome = board.place_piece(domino(), Position { x: 2, y: 0 }, 0, true);
    assert_eq!(outcome, Err(GameError::OutOfBounds { x: 3, y: 0 }));
    assert_eq!(state(&board, 2, 0), State::Free);

    let outcome = board.place_piece(domino(), Position { x: 65535, y: 65535 }, 0, true);
    assert_eq!(outcome, Err(GameError::OutOfBounds { x: 65535, y: 65535 }));

    let outcome = board.place_piece(domino(), Position { x: 1, y: 7 }, 0, true);
    assert_eq!(outcome, Err(GameError::OutOfBounds { x: 1, y: 7 }));
}

#[test]
fn error_names_the_first_block_off_the_grid() {
    let board = Board::new(3, 3);
    let piece = Piece::new(
        vec![Position { x: 1, y: 0 }, Position { x: 0, y: 0 }, Position { x: 2, y: 0 }],
        2,
    );
    assert_eq!(
        board.check_piece_within_bounds(&piece, &Position { x: 2, y: 1 }),
        Err(GameError::OutOfBounds { x: 3, y: 1 })
    );
    assert_eq!(
        board.check_piece_within_bounds(&piece, &Position { x: 65535, y: 1 }),
        Err(GameError::OutOfBounds { x: 65536, y: 1 })
    );
    assert_eq!(board.check_piece_within_bounds(&piece, &Position { x: 0, y: 2 }), Ok(()));
}

#[test]
fn legality_query_leaves_the_board_alone() {
    let board = Board::new(3, 3);
    assert_eq!(board.piece_can_be_placed(&domino(), &Position { x: 0, y: 0 }, 0, true), Ok(true));
    assert_eq!(board.piece_can_be_placed(&domino(), &Position { x: 0, y: 1 }, 0, true), Ok(false));
    assert_eq!(board.piece_can_be_placed(&domino(), &Position { x: 1, y: 2 }, 0, true), Ok(true));
    assert_eq!(
        board.piece_can_be_placed(&domino(), &Position { x: 2, y: 2 }, 0, true),
        Err(GameError::OutOfBounds { x: 3, y: 2 })
    );
    assert_eq!(state(&board, 0, 0), State::Free);
    assert_eq!(
        board.target_positions(&domino(), &Position { x: 1, y: 2 }),
        Ok(vec![Position { x: 1, y: 2 }, Position { x: 2, y: 2 }])
    );
}

#[test]
fn piece_is_placed_relative_to_its_bounding_box() {
    let mut board = Board::new(4, 4);
    let piece = Piece::new(vec![Position { x: 3, y: 2 }, Position { x: 3, y: 3 }], 3);
    assert!(board.place_piece(piece, Position { x: 0, y: 0 }, 2, true).unwrap().is_none());
    assert_eq!(state(&board, 0, 0), State::Occupied(2));
    assert_eq!(state(&board, 0, 1), State::Occupied(2));
    assert_eq!(state(&board, 3, 2), State::Free);
    assert_eq!(state(&board, 3, 3), State::Free);
}
