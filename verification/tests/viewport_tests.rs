use blokus::viewport::{scroll_offset, Area, Cursor, IndexedPiece};
use blokus::{Piece, Position};

fn area(x: u16, y: u16, width: u16, height: u16) -> Area {
    Area { x, y, width, height }
}

#[test]
fn simple_cursor_is_one_cell_at_the_origin() {
    let cursor = Cursor::simple(20, 10);
    assert_eq!(cursor.area, area(0, 0, 1, 1));
    assert_eq!((cursor.max_x, cursor.max_y), (20, 10));
    assert_eq!(Cursor::default(), Cursor::new(0, 0, area(0, 0, 0, 0)));
    assert_eq!(Area::default(), area(0, 0, 0, 0));
}

#[test]
fn cursor_moves_and_stops_at_the_edges() {
    let mut cursor = Cursor::new(20, 10, area(3, 4, 2, 3));
    cursor.move_down(2);
    assert_eq!(cursor.area, area(3, 6, 2, 3));
    cursor.move_down(1);
    assert_eq!(cursor.area, area(3, 7, 2, 3));
    cursor.move_down(1);
    assert_eq!(cursor.area, area(3, 7, 2, 3));
    cursor.move_down(7);
    assert_eq!(cursor.area, area(3, 7, 2, 3));
    cursor.move_up(5);
    assert_eq!(cursor.area, area(3, 2, 2, 3));
    cursor.move_up(3);
    assert_eq!(cursor.area, area(3, 0, 2, 3));
    cursor.move_right(15);
    assert_eq!(cursor.area, area(18, 0, 2, 3));
    cursor.move_right(1);
    assert_eq!(cursor.area, area(18, 0, 2, 3));
    cursor.move_left(17);
    assert_eq!(cursor.area, area(1, 0, 2, 3));
    cursor.move_left(2);
    assert_eq!(cursor.area, area(0, 0, 2, 3));
}

#[test]
fn cursor_beyond_the_field_is_brought_back() {
    let mut cursor = Cursor::new(20, 10, area(19, 9, 3, 2));
    cursor.move_right(0);
    cursor.move_down(0);
    assert_eq!(cursor.area, area(17, 8, 3, 2));
}

#[test]
fn signed_steps_move_both_ways() {
    let mut cursor = Cursor::new(20, 20, area(5, 5, 1, 1));
    cursor.move_cursor(-2, 3);
    assert_eq!(cursor.area, area(3, 8, 1, 1));
    cursor.move_cursor(4, -9);
    assert_eq!(cursor.area, area(7, 0, 1, 1));
    cursor.move_cursor(0, 0);
    assert_eq!(cursor.area, area(7, 0, 1, 1));
    // a step keeps its low sixteen bits
    cursor.move_cursor(-65537, 65536 + 2);
    assert_eq!(cursor.area, area(6, 2, 1, 1));
}

#[test]
fn rotated_cursor_swaps_its_measures() {
    let mut cursor = Cursor::new(20, 20, area(5, 6, 1, 4));
    cursor.rotate_cursor();
    assert_eq!(cursor.area, area(5, 6, 4, 1));
    assert_eq!((cursor.max_x, cursor.max_y), (20, 20));
}

#[test]
fn list_scrolls_to_keep_the_cursor_in_view() {
    // in view: nothing moves
    assert_eq!(scroll_offset(0, 10, 0, 3), 0);
    assert_eq!(scroll_offset(4, 10, 4, 3), 4);
    assert_eq!(scroll_offset(4, 10, 11, 3), 4);
    // below the last row shown
    assert_eq!(scroll_offset(4, 10, 12, 3), 5);
    assert_eq!(scroll_offset(0, 10, 30, 10), 30);
    // above the first row shown
    assert_eq!(scroll_offset(4, 10, 3, 3), 3);
    assert_eq!(scroll_offset(40, 10, 0, 1), 0);
}

#[test]
fn picked_piece_counts_its_turns_round() {
    let piece = Piece::new(
        vec![Position { x: 0, y: 1 }, Position { x: 1, y: 1 }, Position { x: 2, y: 1 }],
        2,
    );
    let mut picked = IndexedPiece { piece: piece.clone(), index: 5, rotations: 0 };
    picked.rotate();
    assert_eq!(picked.rotations, 1);
    assert_eq!(picked.index, 5);
    assert_eq!(
        picked.piece.frame_blocks(),
        vec![Position { x: 1, y: 0 }, Position { x: 1, y: 1 }, Position { x: 1, y: 2 }]
    );
    picked.rotate();
    picked.rotate();
    assert_eq!(picked.rotations, 3);
    picked.rotate();
    assert_eq!(picked.rotations, 0);
    assert_eq!(picked.piece, piece);
}
