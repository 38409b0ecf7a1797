use blokus::{GameError, Piece, Position};

fn at(x: u16, y: u16) -> Position {
    Position { x, y }
}

#[test]
fn should_rotate_block() {
    let mut piece = Piece::new(vec![Position { x: 0, y: 1 }, Position { x: 1, y: 1 }, Position { x: 2, y: 1 }], 2);

    piece.rotate();
    assert_eq!(piece.frame_blocks(), vec![Position { x: 1, y: 0 }, Position { x: 1, y: 1 }, Position { x: 1, y: 2 }]);

    piece.rotate();
    assert_eq!(piece.frame_blocks(), vec![Position { x: 2, y: 1 }, Position { x: 1, y: 1 }, Position { x: 0, y: 1 }]);
}

#[test]
fn should_rotate_box_block() {
    let mut piece = Piece::new(vec![Position { x: 0, y: 0 }, Position { x: 1, y: 0 }, Position { x: 0, y: 1 }, Position { x: 1, y: 1 }], 1);
    piece.rotate();
    assert_eq!(piece.frame_blocks(), vec![Position { x: 1, y: 0 }, Position { x: 1, y: 1 }, Position { x: 0, y: 0 }, Position { x: 0, y: 1 }])
}

#[test]
fn new_piece_measures_its_bounding_box() {
    let piece = Piece::new(vec![at(2, 5), at(3, 5), at(4, 5), at(4, 6)], 9);
    assert_eq!(piece.num_columns(), 3);
    assert_eq!(piece.num_lines(), 2);
    assert_eq!(piece.bounding_box_offset(), at(2, 5));
    assert_eq!(piece.doubled_pivot(), 9);
    assert_eq!(piece.frame_blocks(), vec![at(2, 5), at(3, 5), at(4, 5), at(4, 6)]);
    assert_eq!(piece.blocks(), vec![at(0, 0), at(1, 0), at(2, 0), at(2, 1)]);
}

#[test]
fn four_rotations_restore_the_piece() {
    let fresh = Piece::new(vec![at(0, 0), at(1, 0), at(2, 0), at(2, 1), at(3, 3)], 3);
    let mut piece = fresh.clone();
    for _ in 0..4 {
        piece.rotate();
    }
    assert_eq!(piece, fresh);
    assert_eq!(piece.frame_blocks(), fresh.frame_blocks());

    let fresh = Piece::new(vec![at(0, 1), at(1, 1), at(1, 0)], 1);
    let mut piece = fresh.clone();
    for turn in 1..=4 {
        piece.rotate();
        assert_eq!(piece == fresh, turn == 4);
    }
}

#[test]
fn rotation_swaps_the_box_and_resets_the_offset() {
    let mut piece = Piece::new(vec![at(0, 1), at(1, 1), at(2, 1), at(2, 2)], 2);
    assert_eq!((piece.num_lines(), piece.num_columns()), (2, 3));
    assert_eq!(piece.bounding_box_offset(), at(0, 1));
    piece.rotate();
    assert_eq!((piece.num_lines(), piece.num_columns()), (3, 2));
    assert_eq!(piece.frame_blocks(), vec![at(1, 0), at(1, 1), at(1, 2), at(0, 2)]);
    assert_eq!(piece.bounding_box_offset(), at(0, 0));
    assert_eq!(piece.blocks(), vec![at(1, 0), at(1, 1), at(1, 2), at(0, 2)]);
    piece.rotate();
    assert_eq!((piece.num_lines(), piece.num_columns()), (2, 3));
    assert_eq!(piece.bounding_box_offset(), at(0, 0));
    assert_eq!(piece.blocks(), vec![at(2, 1), at(1, 1), at(0, 1), at(0, 0)]);
    for _ in 0..4 {
        piece.rotate();
        let local = piece.blocks();
        assert_eq!(local.iter().map(|block| block.x).min(), Some(0));
        assert_eq!(local.iter().map(|block| block.y).min(), Some(0));
        assert_eq!(piece.num_lines() * piece.num_columns(), 6);
    }
}

#[test]
fn block_beyond_the_pivot_is_held_at_zero() {
    let mut piece = Piece::new(vec![at(0, 0), at(0, 3)], 1);
    piece.rotate();
    assert_eq!(piece.frame_blocks(), vec![at(1, 0), at(0, 0)]);
    assert_eq!((piece.num_lines(), piece.num_columns()), (1, 4));
    for _ in 0..3 {
        piece.rotate();
    }
    // four turns in all, and the far block has not come back to (0, 3)
    assert_eq!(piece.frame_blocks(), vec![at(0, 0), at(0, 1)]);
}

#[test]
fn position_rotates_about_a_half_pivot() {
    let mut position = at(0, 0);
    position.rotate_around_pivot(1);
    assert_eq!(position, at(1, 0));
    position.rotate_around_pivot(1);
    assert_eq!(position, at(1, 1));
    position.rotate_around_pivot(1);
    assert_eq!(position, at(0, 1));
    position.rotate_around_pivot(1);
    assert_eq!(position, at(0, 0));

    let mut position = at(4, 7);
    position.rotate_around_pivot(5);
    assert_eq!(position, at(0, 4));
}

#[test]
fn position_bounds_check() {
    assert_eq!(at(2, 3).check_within_bounds(3, 4), Ok(()));
    assert_eq!(at(3, 3).check_within_bounds(3, 4), Err(GameError::OutOfBounds { x: 3, y: 3 }));
    assert_eq!(at(2, 4).check_within_bounds(3, 4), Err(GameError::OutOfBounds { x: 2, y: 4 }));
    assert_eq!(at(0, 0).check_within_bounds(0, 0), Err(GameError::OutOfBounds { x: 0, y: 0 }));
    assert_eq!(
        at(65535, 65535).check_within_bounds(65535, 65535),
        Err(GameError::OutOfBounds { x: 65535, y: 65535 })
    );
}

#[test]
fn positions_add_and_subtract() {
    assert_eq!(at(1, 2) + at(30, 40), at(31, 42));
    assert_eq!(at(31, 42) - at(30, 40), at(1, 2));
    assert_eq!(at(5, 5) - at(5, 5), at(0, 0));
    assert_eq!(Position::default(), at(0, 0));
}
