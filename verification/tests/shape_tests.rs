use blokus::shape::{chars_of, read_piece_set, ShapeError};
use blokus::{Piece, Position};

fn at(x: u16, y: u16) -> Position {
    Position { x, y }
}

#[test]
fn shape_is_read_by_column_and_row() {
    let piece = Piece::from_str(".x.\nxxx\n.x.").unwrap();
    assert_eq!(piece.frame_blocks(), vec![at(1, 0), at(0, 1), at(1, 1), at(2, 1), at(1, 2)]);
    assert_eq!(piece.doubled_pivot(), 2);
    assert_eq!((piece.num_lines(), piece.num_columns()), (3, 3));
    assert_eq!(piece.bounding_box_offset(), at(0, 0));
}

#[test]
fn shape_equals_the_piece_built_by_hand() {
    let piece = Piece::from_str("...\nxxx\n...").unwrap();
    assert_eq!(piece, Piece::new(vec![at(0, 1), at(1, 1), at(2, 1)], 2));
    let piece = Piece::from_str("xx\nxx").unwrap();
    assert_eq!(piece, Piece::new(vec![at(0, 0), at(1, 0), at(0, 1), at(1, 1)], 1));
    let piece = Piece::from_str("x").unwrap();
    assert_eq!(piece, Piece::new(vec![at(0, 0)], 0));
}

#[test]
fn final_line_feed_adds_no_line() {
    let open = Piece::from_str("x.\n.x").unwrap();
    let closed = Piece::from_str("x.\n.x\n").unwrap();
    assert_eq!(open, closed);
    assert_eq!(closed.doubled_pivot(), 1);
    let spaced = Piece::from_str("x.\n.x\n\n").unwrap();
    assert_eq!(spaced.doubled_pivot(), 2);
    let late = Piece::from_str("\n\nx").unwrap();
    assert_eq!(late.frame_blocks(), vec![at(0, 2)]);
    assert_eq!(late.doubled_pivot(), 2);
    assert_eq!(late.bounding_box_offset(), at(0, 2));
}

#[test]
fn only_the_marker_is_a_block() {
    let piece = Piece::from_str(" X\r\n x\r\nx-x").unwrap();
    assert_eq!(piece.frame_blocks(), vec![at(1, 1), at(0, 2), at(2, 2)]);
    assert_eq!(piece.doubled_pivot(), 2);
    let piece = Piece::from_str("\u{e9}x\n\u{4e16}\u{754c}x").unwrap();
    assert_eq!(piece.frame_blocks(), vec![at(1, 0), at(2, 1)]);
}

#[test]
fn shape_without_a_marker_is_an_error() {
    assert_eq!(Piece::from_str(""), Err(ShapeError::NoBlocks));
    assert_eq!(Piece::from_str("...\n...\n"), Err(ShapeError::NoBlocks));
    assert_eq!(Piece::from_str("\n"), Err(ShapeError::NoBlocks));
    assert_eq!(Piece::from_str("X"), Err(ShapeError::NoBlocks));
}

#[test]
fn shape_too_large_is_an_error() {
    let mut wide = ".".repeat(65534);
    wide.push('x');
    assert_eq!(Piece::from_str(&wide).unwrap().frame_blocks(), vec![at(65534, 0)]);
    wide.insert(0, '.');
    assert_eq!(Piece::from_str(&wide), Err(ShapeError::TooLarge));

    let mut tall = "\n".repeat(65534);
    tall.push('x');
    let piece = Piece::from_str(&tall).unwrap();
    assert_eq!(piece.frame_blocks(), vec![at(0, 65534)]);
    assert_eq!(piece.doubled_pivot(), 65534);
    tall.push('\n');
    assert_eq!(Piece::from_str(&tall).unwrap().doubled_pivot(), 65534);
    tall.push('.');
    assert_eq!(Piece::from_str(&tall), Err(ShapeError::TooLarge));
    assert_eq!(Piece::from_str(&"\n".repeat(70000)), Err(ShapeError::NoBlocks));
}

#[test]
fn set_is_parted_by_blank_lines() {
    let pieces = read_piece_set("x\n\nxx\n\n.x.\nxxx\n.x.").unwrap();
    assert_eq!(pieces.len(), 3);
    assert_eq!(pieces[0], Piece::new(vec![at(0, 0)], 0));
    assert_eq!(pieces[1], Piece::new(vec![at(0, 0), at(1, 0)], 0));
    assert_eq!(pieces[2].frame_blocks(), vec![at(1, 0), at(0, 1), at(1, 1), at(2, 1), at(1, 2)]);
    assert_eq!(pieces[2].doubled_pivot(), 2);
}

#[test]
fn set_of_one_record() {
    let pieces = read_piece_set("x.\nxx").unwrap();
    assert_eq!(pieces, vec![Piece::new(vec![at(0, 0), at(0, 1), at(1, 1)], 1)]);
}

#[test]
fn blank_lines_are_taken_from_the_left() {
    // three line feeds: the third begins the second record
    let pieces = read_piece_set("x\n\n\nx").unwrap();
    assert_eq!(pieces.len(), 2);
    assert_eq!(pieces[1].frame_blocks(), vec![at(0, 1)]);
    assert_eq!(pieces[1].doubled_pivot(), 1);
}

#[test]
fn first_bad_record_gives_the_error() {
    assert_eq!(read_piece_set(""), Err(ShapeError::NoBlocks));
    assert_eq!(read_piece_set("x\n\n"), Err(ShapeError::NoBlocks));
    assert_eq!(read_piece_set("x\n\n..\n\nx"), Err(ShapeError::NoBlocks));
    let mut wide = ".".repeat(65535);
    wide.push('x');
    assert_eq!(read_piece_set(&format!("x\n\n{}\n\n..", wide)), Err(ShapeError::TooLarge));
    assert_eq!(read_piece_set(&format!("..\n\n{}", wide)), Err(ShapeError::NoBlocks));
}

#[test]
fn characters_are_listed_in_order() {
    assert_eq!(chars_of("a\u{e9}\nx"), vec!['a', '\u{e9}', '\n', 'x']);
    assert_eq!(chars_of(""), Vec::<char>::new());
}

#[test]
fn text_parses_into_a_piece() {
    let parsed: Result<Piece, ShapeError> = "x.\nxx".parse();
    assert_eq!(parsed, Piece::from_str("x.\nxx"));
    assert_eq!(parsed.unwrap().frame_blocks(), vec![at(0, 0), at(0, 1), at(1, 1)]);
    assert_eq!("..".parse::<Piece>(), Err(ShapeError::NoBlocks));
    let pieces: Result<Vec<Piece>, ShapeError> = "x\n\n.x".split("\n\n").map(str::parse).collect();
    assert_eq!(pieces, read_piece_set("x\n\n.x"));
}
