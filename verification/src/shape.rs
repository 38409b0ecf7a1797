use vstd::prelude::*;
use crate::piece::{lemma_extremes, Piece, PieceView};
use crate::position::Position;

verus! {

/// The character that marks a block in the text of a shape. Every other
/// character stands for an empty cell.
pub const MARKER: char = 'x';

/// Why a text is not the shape of a piece.
#[derive(Clone, Copy, Debug, PartialEq, Eq, Structural)]
pub enum ShapeError {
    /// The text marks no block.
    NoBlocks,
    /// The text has more than 65535 lines, or marks a block beyond column
    /// 65534.
    TooLarge,
}

/// The number of line feeds in `text`.
pub open spec fn newlines(text: Seq<char>) -> int
    decreases text.len(),
{
    if text.len() == 0 {
        0
    } else {
        newlines(text.drop_last()) + if text.last() == '\n' {
            1int
        } else {
            0int
        }
    }
}

/// The number of lines of `text`: every line feed ends a line, and what
/// follows the last line feed is a line if it is not empty.
pub open spec fn line_count(text: Seq<char>) -> int {
    newlines(text) + if text.len() > 0 && text.last() != '\n' {
        1int
    } else {
        0int
    }
}

/// The column of the character at `index`: the number of characters between
/// it and the line feed before it, or the start of the text.
pub open spec fn column_at(text: Seq<char>, index: int) -> int
    decreases index,
{
    if index <= 0 {
        0
    } else if text[index - 1] == '\n' {
        0
    } else {
        column_at(text, index - 1) + 1
    }
}

/// Column and row of every marker in `text`, in the order of the text.
pub open spec fn marks(text: Seq<char>) -> Seq<(int, int)>
    decreases text.len(),
{
    if text.len() == 0 {
        Seq::empty()
    } else if text.last() == MARKER {
        marks(text.drop_last()).push(
            (column_at(text, text.len() - 1), newlines(text.drop_last())),
        )
    } else {
        marks(text.drop_last())
    }
}

/// The text is small enough for a piece: at most 65535 lines, and no marker
/// beyond column 65534.
pub open spec fn fits(text: Seq<char>) -> bool {
    &&& line_count(text) <= u16::MAX
    &&& forall|i: int| 0 <= i < marks(text).len() ==> (#[trigger] marks(text)[i]).0 < u16::MAX
}

/// The marks as blocks.
pub open spec fn blocks_of(marked: Seq<(int, int)>) -> Seq<Position> {
    marked.map_values(|mark: (int, int)| Position { x: mark.0 as u16, y: mark.1 as u16 })
}

/// The piece that `text` describes: its blocks are the markers, by column and
/// row, and its pivot is the middle of the rows, half of the number of lines
/// less one.
pub open spec fn parsed(text: Seq<char>) -> Result<PieceView, ShapeError> {
    if marks(text).len() == 0 {
        Err(ShapeError::NoBlocks)
    } else if !fits(text) {
        Err(ShapeError::TooLarge)
    } else {
        Ok(PieceView::framed(blocks_of(marks(text)), (line_count(text) - 1) as u16))
    }
}

/// Where the first blank line of `text` begins: the least index at which two
/// line feeds follow each other, or the length of the text if none do.
pub open spec fn separator_at(text: Seq<char>) -> int
    decreases text.len(),
{
    if text.len() < 2 {
        text.len() as int
    } else if text[0] == '\n' && text[1] == '\n' {
        0
    } else {
        1 + separator_at(text.drop_first())
    }
}

/// The records of `text`: what stands between one pair of line feeds and the
/// next, the pairs taken from the left. A text without such a pair is one
/// record, and so is the empty text.
pub open spec fn records(text: Seq<char>) -> Seq<Seq<char>>
    decreases text.len(),
{
    let cut = separator_at(text);
    if 0 <= cut && cut + 2 <= text.len() {
        seq![text.take(cut)] + records(text.skip(cut + 2))
    } else {
        seq![text]
    }
}

/// The characters of `text`, in order.
pub fn chars_of(text: &str) -> (chars: Vec<char>)
    ensures
        chars@ == text@,
{
    let mut chars: Vec<char> = Vec::new();
    for c in it: text.chars()
        invariant
            it.seq() == text@,
            chars@ == text@.take(it.index() as int),
    {
        chars.push(c);
        assert(text@.take(it.index() + 1) == text@.take(it.index() as int).push(c));
    }
    assert(text@.take(text@.len() as int) == text@);
    chars
}

/// Line feeds, columns and marks of a text grown by one character.
proof fn lemma_step(text: Seq<char>, index: int)
    requires
        0 <= index < text.len(),
    ensures
        newlines(text.take(index + 1)) == newlines(text.take(index)) + if text[index] == '\n' {
            1int
        } else {
            0int
        },
        column_at(text, index + 1) == if text[index] == '\n' {
            0
        } else {
            column_at(text, index) + 1
        },
        marks(text.take(index + 1)) == if text[index] == MARKER {
            marks(text.take(index)).push((column_at(text, index), newlines(text.take(index))))
        } else {
            marks(text.take(index))
        },
        0 <= column_at(text, index) <= index,
        0 <= newlines(text.take(index)) <= index,
{
    let longer = text.take(index + 1);
    assert(longer.drop_last() == text.take(index));
    assert(longer.last() == text[index]);
    lemma_column_same(longer, text, index);
    lemma_counts_bounded(text, index);
}

/// The column of a character depends only on what stands before it.
proof fn lemma_column_same(first: Seq<char>, second: Seq<char>, index: int)
    requires
        0 <= index <= first.len(),
        index <= second.len(),
        forall|k: int| 0 <= k < index ==> first[k] == second[k],
    ensures
        column_at(first, index) == column_at(second, index),
    decreases index,
{
    if index > 0 {
        lemma_column_same(first, second, index - 1);
    }
}

/// Neither the column nor the row of a character exceeds its index.
proof fn lemma_counts_bounded(text: Seq<char>, index: int)
    requires
        0 <= index <= text.len(),
    ensures
        0 <= column_at(text, index) <= index,
        0 <= newlines(text.take(index)) <= index,
    decreases index,
{
    if index > 0 {
        lemma_counts_bounded(text, index - 1);
        assert(text.take(index).drop_last() == text.take(index - 1));
    }
}

/// Every mark lies in the grid of the text: its column is not negative, and
/// its row is one of the lines.
pub proof fn lemma_marks_in_grid(text: Seq<char>)
    ensures
        forall|k: int|
            0 <= k < marks(text).len() ==> 0 <= (#[trigger] marks(text)[k]).0 && 0 <= marks(
                text,
            )[k].1 < line_count(text),
        marks(text).len() <= text.len(),
    decreases text.len(),
{
    if text.len() > 0 {
        let shorter = text.drop_last();
        lemma_marks_in_grid(shorter);
        assert(shorter.take(shorter.len() as int) == shorter);
        lemma_counts_bounded(shorter, shorter.len() as int);
        lemma_counts_bounded(text, text.len() - 1);
        assert forall|k: int| 0 <= k < marks(text).len() implies 0 <= (#[trigger] marks(text)[k]).0
            && 0 <= marks(text)[k].1 < line_count(text) by {
            if k < marks(shorter).len() {
                assert(marks(text)[k] == marks(shorter)[k]);
            }
        }
    }
}

impl core::str::FromStr for Piece {
    type Err = ShapeError;

    /// Reads a piece from the text of its shape, as `Piece::from_str` does.
    fn from_str(text: &str) -> (outcome: Result<Piece, ShapeError>)
        ensures
            match outcome {
                Ok(piece) => parsed(text@) == Ok::<PieceView, ShapeError>(piece@),
                Err(error) => parsed(text@) == Err::<PieceView, ShapeError>(error),
            },
    {
        Piece::from_str(text)
    }
}

impl Piece {
    /// Reads a piece from the text of its shape.
    ///
    /// The text is a grid of characters, one line to a row. An `x` marks a
    /// block at its column and row; any other character is an empty cell.
    /// The pivot is the middle of the rows. A text without a marker, and one
    /// too large for a piece, is an error.
    pub fn from_str(text: &str) -> (outcome: Result<Piece, ShapeError>)
        ensures
            match outcome {
                Ok(piece) => parsed(text@) == Ok::<PieceView, ShapeError>(piece@),
                Err(error) => parsed(text@) == Err::<PieceView, ShapeError>(error),
            },
    {
        let chars = chars_of(text);
        assert(chars@.subrange(0, chars@.len() as int) == text@);
        parse_shape(&chars, 0, chars.len())
    }
}

/// Reads a piece from the characters from `start` up to `end`.
fn parse_shape(chars: &Vec<char>, start: usize, end: usize) -> (outcome: Result<Piece, ShapeError>)
    requires
        start <= end <= chars@.len(),
    ensures
        match outcome {
            Ok(piece) => parsed(chars@.subrange(start as int, end as int)) == Ok::<
                PieceView,
                ShapeError,
            >(piece@),
            Err(error) => parsed(chars@.subrange(start as int, end as int)) == Err::<
                PieceView,
                ShapeError,
            >(error),
        },
{
    let ghost text = chars@.subrange(start as int, end as int);
    let mut blocks: Vec<Position> = Vec::new();
    let mut oversized = false;
    let mut row: usize = 0;
    let mut column: usize = 0;
    let mut i: usize = start;
    assert(text.take(0) == Seq::<char>::empty());
    while i < end
        invariant
            start <= i <= end <= chars@.len(),
            text == chars@.subrange(start as int, end as int),
            row == newlines(text.take(i - start)),
            column == column_at(text, i - start),
            row <= i - start,
            column <= i - start,
            oversized ==> exists|k: int|
                0 <= k < marks(text.take(i - start)).len() && ((#[trigger] marks(
                    text.take(i - start),
                )[k]).0 >= u16::MAX || marks(text.take(i - start))[k].1 >= u16::MAX),
            !oversized ==> blocks@ == blocks_of(marks(text.take(i - start))),
            !oversized ==> forall|k: int|
                0 <= k < marks(text.take(i - start)).len() ==> (#[trigger] marks(
                    text.take(i - start),
                )[k]).0 < u16::MAX && marks(text.take(i - start))[k].1 < u16::MAX,
        decreases end - i,
    {
        let c = chars[i];
        let ghost index = i - start;
        let ghost before = marks(text.take(index));
        proof {
            assert(text[index] == c);
            lemma_step(text, index);
        }
        if c == MARKER {
            let ghost after = marks(text.take(index + 1));
            if column < 65535 && row < 65535 && !oversized {
                blocks.push(Position { x: column as u16, y: row as u16 });
                assert(blocks@ == blocks_of(after));
            } else {
                proof {
                    if oversized {
                        let k = choose|k: int|
                            0 <= k < before.len() && ((#[trigger] before[k]).0 >= u16::MAX
                                || before[k].1 >= u16::MAX);
                        assert(after[k] == before[k]);
                    } else {
                        assert(after[before.len() as int] == (column as int, row as int));
                    }
                }
                oversized = true;
            }
        }
        if c == '\n' {
            row = row + 1;
            column = 0;
        } else {
            column = column + 1;
        }
        i = i + 1;
    }
    assert(text.take(end - start) == text);
    if !oversized && blocks.len() == 0 {
        return Err(ShapeError::NoBlocks);
    }
    proof {
        lemma_marks_in_grid(text);
    }
    if oversized {
        return Err(ShapeError::TooLarge);
    }
    let ends_open = chars[end - 1] != '\n';
    assert(text.last() == chars@[end - 1]);
    if row > 65535 || (row == 65535 && ends_open) {
        return Err(ShapeError::TooLarge);
    }
    let lines = if ends_open {
        row + 1
    } else {
        row
    };
    proof {
        lemma_extremes(blocks@);
        assert forall|k: int| 0 <= k < blocks@.len() implies (#[trigger] blocks@[k]).x < u16::MAX
            && blocks@[k].y < u16::MAX by {
            assert(0 <= marks(text)[k].0 < u16::MAX);
            assert(0 <= marks(text)[k].1 < u16::MAX);
        }
    }
    Ok(Piece::new(blocks, (lines - 1) as u16))
}

/// Two line feeds follow each other at `index`.
pub open spec fn blank_at(text: Seq<char>, index: int) -> bool {
    0 <= index && index + 1 < text.len() && text[index] == '\n' && text[index + 1] == '\n'
}

/// The first blank line begins at `cut` if two line feeds follow each other
/// there and nowhere before; and there is none if they do so nowhere.
pub proof fn lemma_separator(text: Seq<char>, cut: int)
    requires
        0 <= cut <= text.len(),
        forall|j: int| 0 <= j < cut ==> !blank_at(text, j),
        cut == text.len() || blank_at(text, cut),
    ensures
        separator_at(text) == cut,
    decreases text.len(),
{
    if text.len() < 2 {
    } else if text[0] == '\n' && text[1] == '\n' {
        assert(blank_at(text, 0));
    } else {
        assert(!blank_at(text, 0));
        let rest = text.drop_first();
        assert forall|j: int| 0 <= j < cut - 1 implies !blank_at(rest, j) by {
            assert(!blank_at(text, j + 1));
        }
        lemma_separator(rest, cut - 1);
    }
}

/// Reads a set of pieces: the records of `text`, parted by blank lines, each
/// the shape of one piece. The pieces come in the order of the records. The
/// first record that is not the shape of a piece gives the error.
pub fn read_piece_set(text: &str) -> (outcome: Result<Vec<Piece>, ShapeError>)
    ensures
        match outcome {
            Ok(pieces) => pieces@.len() == records(text@).len() && forall|k: int|
                0 <= k < pieces@.len() ==> parsed(#[trigger] records(text@)[k]) == Ok::<
                    PieceView,
                    ShapeError,
                >(pieces@[k]@),
            Err(error) => exists|k: int|
                0 <= k < records(text@).len() && parsed(#[trigger] records(text@)[k]) == Err::<
                    PieceView,
                    ShapeError,
                >(error) && forall|j: int|
                    0 <= j < k ==> parsed(#[trigger] records(text@)[j]) is Ok,
        },
{
    let chars = chars_of(text);
    let len = chars.len();
    let mut pieces: Vec<Piece> = Vec::new();
    let mut start: usize = 0;
    let mut more = true;
    let ghost mut done: Seq<Seq<char>> = Seq::empty();
    assert(text@.skip(0) == text@);
    while more
        invariant
            chars@ == text@,
            len == chars@.len(),
            start <= len,
            more ==> records(text@) == done + records(text@.skip(start as int)),
            !more ==> records(text@) == done,
            pieces@.len() == done.len(),
            forall|k: int|
                0 <= k < done.len() ==> parsed(#[trigger] done[k]) == Ok::<PieceView, ShapeError>(
                    pieces@[k]@,
                ),
        decreases len - start + if more { 1int } else { 0int },
    {
        let ghost rest = text@.skip(start as int);
        let mut cut: usize = start;
        while len - cut >= 2 && !(chars[cut] == '\n' && chars[cut + 1] == '\n')
            invariant
                chars@ == text@,
                len == chars@.len(),
                start <= cut <= len,
                rest == text@.skip(start as int),
                forall|j: int| 0 <= j < cut - start ==> !blank_at(rest, j),
            decreases len - cut,
        {
            cut = cut + 1;
        }
        let found = len - cut >= 2;
        let end = if found {
            cut
        } else {
            len
        };
        let ghost record = chars@.subrange(start as int, end as int);
        proof {
            lemma_separator(rest, end - start);
            assert(rest.take(end - start) == record);
            if found {
                assert(rest.skip(end - start + 2) == text@.skip(cut + 2));
            } else {
                assert(record == rest);
            }
            assert(records(rest) == if found {
                seq![record] + records(text@.skip(cut + 2))
            } else {
                seq![record]
            });
        }
        match parse_shape(&chars, start, end) {
            Err(error) => {
                proof {
                    let k = done.len() as int;
                    assert(records(text@)[k] == record);
                    assert forall|j: int| 0 <= j < k implies parsed(
                        #[trigger] records(text@)[j],
                    ) is Ok by {
                        assert(records(text@)[j] == done[j]);
                    }
                }
                return Err(error);
            },
            Ok(piece) => {
                pieces.push(piece);
            },
        }
        proof {
            let grown = done.push(record);
            if found {
                assert(records(text@) == grown + records(text@.skip(cut + 2)));
            } else {
                assert(records(text@) == grown);
            }
            done = grown;
        }
        if found {
            start = cut + 2;
        } else {
            more = false;
        }
    }
    Ok(pieces)
}

} // verus!
