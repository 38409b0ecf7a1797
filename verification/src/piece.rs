use vstd::prelude::*;
use crate::position::Position;

verus! {

/// The column of every block, in order.
pub open spec fn columns(blocks: Seq<Position>) -> Seq<int> {
    blocks.map_values(|block: Position| block.x as int)
}

/// The row of every block, in order.
pub open spec fn rows(blocks: Seq<Position>) -> Seq<int> {
    blocks.map_values(|block: Position| block.y as int)
}

/// Every block turned by a quarter about the pivot.
pub open spec fn rotated_blocks(blocks: Seq<Position>, doubled_pivot: u16) -> Seq<Position> {
    blocks.map_values(|block: Position| block.rotated(doubled_pivot))
}

/// The least column and the least row among the blocks.
pub open spec fn top_left(blocks: Seq<Position>) -> Position {
    Position { x: columns(blocks).min() as u16, y: rows(blocks).min() as u16 }
}

/// What a piece is, as plain values.
pub struct PieceView {
    /// The blocks in the piece's own frame, which need not start at zero.
    pub blocks: Seq<Position>,
    /// Twice the pivot: both coordinates of the turning point are half of it.
    pub doubled_pivot: u16,
    /// The recorded height of the bounding box.
    pub num_lines: u16,
    /// The recorded width of the bounding box.
    pub num_columns: u16,
    /// The top-left corner of the bounding box.
    pub bounding_box_offset: Position,
}

impl PieceView {
    /// A piece has a block, and its offset is the top-left corner of its blocks.
    pub open spec fn wf(self) -> bool {
        &&& self.blocks.len() > 0
        &&& self.bounding_box_offset == top_left(self.blocks)
    }

    /// The piece as first built from its blocks: the box measured from them.
    pub open spec fn framed(blocks: Seq<Position>, doubled_pivot: u16) -> PieceView {
        PieceView {
            blocks,
            doubled_pivot,
            num_lines: (rows(blocks).max() - rows(blocks).min() + 1) as u16,
            num_columns: (columns(blocks).max() - columns(blocks).min() + 1) as u16,
            bounding_box_offset: top_left(blocks),
        }
    }

    /// The recorded box is exactly the bounding box of the blocks.
    pub open spec fn box_is_tight(self) -> bool {
        &&& self.num_lines == rows(self.blocks).max() - rows(self.blocks).min() + 1
        &&& self.num_columns == columns(self.blocks).max() - columns(self.blocks).min() + 1
    }

    /// No block lies beyond the doubled pivot in either direction, so that a
    /// quarter turn maps the piece's frame onto itself.
    pub open spec fn within_pivot(self) -> bool {
        forall|i: int|
            0 <= i < self.blocks.len() ==> (#[trigger] self.blocks[i]).x <= self.doubled_pivot
                && self.blocks[i].y <= self.doubled_pivot
    }

    /// The blocks relative to the top-left corner of the bounding box.
    pub open spec fn local_blocks(self) -> Seq<Position> {
        self.blocks.map_values(
            |block: Position|
                Position {
                    x: (block.x - self.bounding_box_offset.x) as u16,
                    y: (block.y - self.bounding_box_offset.y) as u16,
                },
        )
    }

    /// The piece after a quarter turn: every block turned about the pivot,
    /// the two recorded measures exchanged, the offset taken anew.
    pub open spec fn rotated(self) -> PieceView {
        let blocks = rotated_blocks(self.blocks, self.doubled_pivot);
        PieceView {
            blocks,
            doubled_pivot: self.doubled_pivot,
            num_lines: self.num_columns,
            num_columns: self.num_lines,
            bounding_box_offset: top_left(blocks),
        }
    }

    /// The piece after `turns` quarter turns.
    pub open spec fn rotated_times(self, turns: nat) -> PieceView
        decreases turns,
    {
        if turns == 0 {
            self
        } else {
            self.rotated_times((turns - 1) as nat).rotated()
        }
    }
}

/// A value that bounds a sequence from below and occurs in it is its minimum.
pub proof fn lemma_min_is(values: Seq<int>, least: int)
    requires
        values.contains(least),
        forall|i: int| 0 <= i < values.len() ==> least <= values[i],
    ensures
        values.min() == least,
{
    values.min_ensures();
}

/// A value that bounds a sequence from above and occurs in it is its maximum.
pub proof fn lemma_max_is(values: Seq<int>, greatest: int)
    requires
        values.contains(greatest),
        forall|i: int| 0 <= i < values.len() ==> values[i] <= greatest,
    ensures
        values.max() == greatest,
{
    values.max_ensures();
}

/// The extremes of the columns and rows of a non-empty list of blocks are
/// coordinates of blocks in it, and bound all the others.
pub proof fn lemma_extremes(blocks: Seq<Position>)
    requires
        blocks.len() > 0,
    ensures
        0 <= columns(blocks).min() <= columns(blocks).max() <= u16::MAX,
        0 <= rows(blocks).min() <= rows(blocks).max() <= u16::MAX,
        forall|i: int|
            0 <= i < blocks.len() ==> columns(blocks).min() <= (#[trigger] blocks[i]).x
                <= columns(blocks).max(),
        forall|i: int|
            0 <= i < blocks.len() ==> rows(blocks).min() <= (#[trigger] blocks[i]).y <= rows(
                blocks,
            ).max(),
        exists|i: int| 0 <= i < blocks.len() && (#[trigger] blocks[i]).x == columns(blocks).min(),
        exists|i: int| 0 <= i < blocks.len() && (#[trigger] blocks[i]).y == rows(blocks).min(),
        exists|i: int| 0 <= i < blocks.len() && (#[trigger] blocks[i]).x == columns(blocks).max(),
        exists|i: int| 0 <= i < blocks.len() && (#[trigger] blocks[i]).y == rows(blocks).max(),
{
    let xs = columns(blocks);
    let ys = rows(blocks);
    xs.min_ensures();
    xs.max_ensures();
    ys.min_ensures();
    ys.max_ensures();
    assert forall|i: int| 0 <= i < blocks.len() implies xs.min() <= (#[trigger] blocks[i]).x
        <= xs.max() by {
        assert(xs[i] == blocks[i].x);
    }
    assert forall|i: int| 0 <= i < blocks.len() implies ys.min() <= (#[trigger] blocks[i]).y
        <= ys.max() by {
        assert(ys[i] == blocks[i].y);
    }
    let a = choose|i: int| 0 <= i < xs.len() && xs[i] == xs.min();
    assert(blocks[a].x == xs.min());
    let b = choose|i: int| 0 <= i < ys.len() && ys[i] == ys.min();
    assert(blocks[b].y == ys.min());
    let c = choose|i: int| 0 <= i < xs.len() && xs[i] == xs.max();
    assert(blocks[c].x == xs.max());
    let d = choose|i: int| 0 <= i < ys.len() && ys[i] == ys.max();
    assert(blocks[d].y == ys.max());
}

/// A polyomino: blocks that keep their shape and change their orientation by
/// quarter turns about a pivot fixed when the piece is built.
#[derive(Debug, PartialEq)]
pub struct Piece {
    blocks: Vec<Position>,
    doubled_pivot: u16,
    num_lines: u16,
    num_columns: u16,
    bounding_box_offset: Position,
}

impl View for Piece {
    type V = PieceView;

    closed spec fn view(&self) -> PieceView {
        PieceView {
            blocks: self.blocks@,
            doubled_pivot: self.doubled_pivot,
            num_lines: self.num_lines,
            num_columns: self.num_columns,
            bounding_box_offset: self.bounding_box_offset,
        }
    }
}

impl Clone for Piece {
    fn clone(&self) -> (copy: Piece)
        ensures
            copy@ == self@,
    {
        proof {
            use_type_invariant(self);
        }
        let blocks = self.blocks.clone();
        assert(blocks@ =~= self.blocks@);
        Piece {
            blocks,
            doubled_pivot: self.doubled_pivot,
            num_lines: self.num_lines,
            num_columns: self.num_columns,
            bounding_box_offset: self.bounding_box_offset,
        }
    }
}

impl Piece {
    /// Every piece is well formed, wherever it has been.
    #[verifier::type_invariant]
    pub open spec fn well_formed(self) -> bool {
        self@.wf()
    }

    /// Builds a piece from its blocks and twice its pivot, measuring the
    /// bounding box from the blocks.
    pub fn new(blocks: Vec<Position>, doubled_pivot: u16) -> (piece: Piece)
        requires
            blocks@.len() > 0,
            columns(blocks@).max() - columns(blocks@).min() < u16::MAX,
            rows(blocks@).max() - rows(blocks@).min() < u16::MAX,
        ensures
            piece@ == PieceView::framed(blocks@, doubled_pivot),
            piece@.wf(),
            piece@.box_is_tight(),
    {
        let min_x = Self::min_x(&blocks);
        let min_y = Self::min_y(&blocks);
        let num_lines = Self::calculate_num_lines(&blocks, min_y);
        let num_columns = Self::calculate_num_columns(&blocks, min_x);
        let bounding_box_offset = Position { x: min_x, y: min_y };
        Piece { blocks, doubled_pivot, num_lines, num_columns, bounding_box_offset }
    }

    /// The blocks relative to the top-left corner of the bounding box, in
    /// their stored order.
    pub fn blocks(&self) -> (local: Vec<Position>)
        ensures
            self@.wf(),
            local@ == self@.local_blocks(),
    {
        proof {
            use_type_invariant(self);
            lemma_extremes(self.blocks@);
        }
        let mut local: Vec<Position> = Vec::new();
        let mut i: usize = 0;
        while i < self.blocks.len()
            invariant
                i <= self.blocks.len(),
                self@.wf(),
                forall|k: int|
                    0 <= k < self.blocks@.len() ==> self.bounding_box_offset.x <= (
                    #[trigger] self.blocks@[k]).x && self.bounding_box_offset.y
                        <= self.blocks@[k].y,
                local@ == self@.local_blocks().take(i as int),
            decreases self.blocks.len() - i,
        {
            local.push(self.blocks[i] - self.bounding_box_offset);
            i = i + 1;
        }
        assert(local@ == self@.local_blocks());
        local
    }

    /// The blocks in the piece's own frame, as they are stored.
    pub fn frame_blocks(&self) -> (stored: Vec<Position>)
        ensures
            stored@ == self@.blocks,
    {
        let stored = self.blocks.clone();
        assert(stored@ =~= self.blocks@);
        stored
    }

    /// Turns the piece by a quarter about its pivot.
    pub fn rotate(&mut self)
        ensures
            final(self)@ == old(self)@.rotated(),
            final(self)@.wf(),
            final(self)@.num_lines * final(self)@.num_columns == old(self)@.num_lines * old(
                self,
            )@.num_columns,
            top_left(final(self)@.local_blocks()) == (Position { x: 0, y: 0 }),
            old(self)@.within_pivot() ==> final(self)@.within_pivot(),
            old(self)@.within_pivot() && old(self)@.box_is_tight() ==> final(self)@.box_is_tight(),
    {
        proof {
            use_type_invariant(&*self);
            lemma_rotated_stays_valid(self@);
            if self@.within_pivot() && self@.box_is_tight() {
                lemma_rotated_box_is_tight(self@);
            }
        }
        let mut turned: Vec<Position> = Vec::new();
        let mut i: usize = 0;
        while i < self.blocks.len()
            invariant
                i <= self.blocks.len(),
                turned@ == rotated_blocks(self.blocks@, self.doubled_pivot).take(i as int),
            decreases self.blocks.len() - i,
        {
            let mut block = self.blocks[i];
            block.rotate_around_pivot(self.doubled_pivot);
            turned.push(block);
            i = i + 1;
        }
        assert(turned@ == rotated_blocks(self.blocks@, self.doubled_pivot));
        let bounding_box_offset = Position { x: Self::min_x(&turned), y: Self::min_y(&turned) };
        proof {
            lemma_local_blocks_start_at_origin(old(self)@.rotated());
            let lines = self.num_lines as int;
            let columns_count = self.num_columns as int;
            assert(columns_count * lines == lines * columns_count) by (nonlinear_arith);
        }
        *self = Piece {
            blocks: turned,
            doubled_pivot: self.doubled_pivot,
            num_lines: self.num_columns,
            num_columns: self.num_lines,
            bounding_box_offset,
        };
    }

    /// The recorded height of the bounding box.
    pub fn num_lines(&self) -> (lines: u16)
        ensures
            lines == self@.num_lines,
    {
        self.num_lines
    }

    /// The recorded width of the bounding box.
    pub fn num_columns(&self) -> (columns: u16)
        ensures
            columns == self@.num_columns,
    {
        self.num_columns
    }

    /// The top-left corner of the bounding box in the piece's own frame.
    pub fn bounding_box_offset(&self) -> (offset: Position)
        ensures
            offset == self@.bounding_box_offset,
    {
        self.bounding_box_offset
    }

    /// Twice the pivot about which the piece turns.
    pub fn doubled_pivot(&self) -> (doubled: u16)
        ensures
            doubled == self@.doubled_pivot,
    {
        self.doubled_pivot
    }

    fn calculate_num_lines(blocks: &Vec<Position>, min_y: u16) -> (lines: u16)
        requires
            blocks@.len() > 0,
            min_y == rows(blocks@).min(),
            rows(blocks@).max() - rows(blocks@).min() < u16::MAX,
        ensures
            lines == rows(blocks@).max() - rows(blocks@).min() + 1,
    {
        let mut max_y: u16 = blocks[0].y;
        let mut i: usize = 1;
        while i < blocks.len()
            invariant
                1 <= i <= blocks.len(),
                forall|k: int| 0 <= k < i ==> (#[trigger] blocks@[k]).y <= max_y,
                exists|k: int| 0 <= k < i && (#[trigger] blocks@[k]).y == max_y,
            decreases blocks.len() - i,
        {
            if blocks[i].y > max_y {
                max_y = blocks[i].y;
            }
            i = i + 1;
        }
        proof {
            let k = choose|k: int| 0 <= k < blocks@.len() && (#[trigger] blocks@[k]).y == max_y;
            assert(rows(blocks@)[k] == max_y);
            lemma_max_is(rows(blocks@), max_y as int);
        }
        (max_y - min_y) + 1
    }

    fn calculate_num_columns(blocks: &Vec<Position>, min_x: u16) -> (columns_count: u16)
        requires
            blocks@.len() > 0,
            min_x == columns(blocks@).min(),
            columns(blocks@).max() - columns(blocks@).min() < u16::MAX,
        ensures
            columns_count == columns(blocks@).max() - columns(blocks@).min() + 1,
    {
        let mut max_x: u16 = blocks[0].x;
        let mut i: usize = 1;
        while i < blocks.len()
            invariant
                1 <= i <= blocks.len(),
                forall|k: int| 0 <= k < i ==> (#[trigger] blocks@[k]).x <= max_x,
                exists|k: int| 0 <= k < i && (#[trigger] blocks@[k]).x == max_x,
            decreases blocks.len() - i,
        {
            if blocks[i].x > max_x {
                max_x = blocks[i].x;
            }
            i = i + 1;
        }
        proof {
            let k = choose|k: int| 0 <= k < blocks@.len() && (#[trigger] blocks@[k]).x == max_x;
            assert(columns(blocks@)[k] == max_x);
            lemma_max_is(columns(blocks@), max_x as int);
        }
        (max_x - min_x) + 1
    }

    fn min_x(blocks: &Vec<Position>) -> (least: u16)
        requires
            blocks@.len() > 0,
        ensures
            least == columns(blocks@).min(),
    {
        let mut least: u16 = blocks[0].x;
        let mut i: usize = 1;
        while i < blocks.len()
            invariant
                1 <= i <= blocks.len(),
                forall|k: int| 0 <= k < i ==> least <= (#[trigger] blocks@[k]).x,
                exists|k: int| 0 <= k < i && (#[trigger] blocks@[k]).x == least,
            decreases blocks.len() - i,
        {
            if blocks[i].x < least {
                least = blocks[i].x;
            }
            i = i + 1;
        }
        proof {
            let k = choose|k: int| 0 <= k < blocks@.len() && (#[trigger] blocks@[k]).x == least;
            assert(columns(blocks@)[k] == least);
            lemma_min_is(columns(blocks@), least as int);
        }
        least
    }

    fn min_y(blocks: &Vec<Position>) -> (least: u16)
        requires
            blocks@.len() > 0,
        ensures
            least == rows(blocks@).min(),
    {
        let mut least: u16 = blocks[0].y;
        let mut i: usize = 1;
        while i < blocks.len()
            invariant
                1 <= i <= blocks.len(),
                forall|k: int| 0 <= k < i ==> least <= (#[trigger] blocks@[k]).y,
                exists|k: int| 0 <= k < i && (#[trigger] blocks@[k]).y == least,
            decreases blocks.len() - i,
        {
            if blocks[i].y < least {
                least = blocks[i].y;
            }
            i = i + 1;
        }
        proof {
            let k = choose|k: int| 0 <= k < blocks@.len() && (#[trigger] blocks@[k]).y == least;
            assert(rows(blocks@)[k] == least);
            lemma_min_is(rows(blocks@), least as int);
        }
        least
    }
}

/// Taken relative to the offset of a well-formed piece, the blocks start at
/// the origin: their least column and their least row are both zero.
pub proof fn lemma_local_blocks_start_at_origin(piece: PieceView)
    requires
        piece.wf(),
    ensures
        top_left(piece.local_blocks()) == (Position { x: 0, y: 0 }),
{
    lemma_extremes(piece.blocks);
    let local = piece.local_blocks();
    let a = choose|i: int|
        0 <= i < piece.blocks.len() && (#[trigger] piece.blocks[i]).x == columns(
            piece.blocks,
        ).min();
    let b = choose|i: int|
        0 <= i < piece.blocks.len() && (#[trigger] piece.blocks[i]).y == rows(piece.blocks).min();
    assert(columns(local)[a] == 0);
    assert(rows(local)[b] == 0);
    lemma_min_is(columns(local), 0);
    lemma_min_is(rows(local), 0);
}

/// A quarter turn keeps a piece well formed, and keeps it within its pivot
/// if it was so.
pub proof fn lemma_rotated_stays_valid(piece: PieceView)
    requires
        piece.wf(),
    ensures
        piece.rotated().wf(),
        piece.within_pivot() ==> piece.rotated().within_pivot(),
{
    if piece.within_pivot() {
        let turned = piece.rotated();
        assert forall|i: int| 0 <= i < turned.blocks.len() implies (#[trigger] turned.blocks[i]).x
            <= turned.doubled_pivot && turned.blocks[i].y <= turned.doubled_pivot by {
            assert(turned.blocks[i] == piece.blocks[i].rotated(piece.doubled_pivot));
        }
    }
}

/// Within its pivot, a piece whose recorded box is its bounding box keeps
/// that through a quarter turn: the box turns with the blocks.
pub proof fn lemma_rotated_box_is_tight(piece: PieceView)
    requires
        piece.wf(),
        piece.within_pivot(),
        piece.box_is_tight(),
    ensures
        piece.rotated().box_is_tight(),
{
    let pivot = piece.doubled_pivot as int;
    let turned = piece.rotated().blocks;
    lemma_extremes(piece.blocks);
    assert(rows(turned) =~= columns(piece.blocks));
    let low = choose|i: int|
        0 <= i < piece.blocks.len() && (#[trigger] piece.blocks[i]).y == rows(piece.blocks).min();
    let high = choose|i: int|
        0 <= i < piece.blocks.len() && (#[trigger] piece.blocks[i]).y == rows(piece.blocks).max();
    assert(columns(turned)[low] == pivot - rows(piece.blocks).min());
    assert(columns(turned)[high] == pivot - rows(piece.blocks).max());
    assert forall|i: int| 0 <= i < turned.len() implies pivot - rows(piece.blocks).max()
        <= #[trigger] columns(turned)[i] <= pivot - rows(piece.blocks).min() by {
        assert(turned[i] == piece.blocks[i].rotated(piece.doubled_pivot));
    }
    lemma_max_is(columns(turned), pivot - rows(piece.blocks).min());
    lemma_min_is(columns(turned), pivot - rows(piece.blocks).max());
}

/// Turning `first` times and then `second` times is turning `first + second`
/// times.
pub proof fn lemma_rotated_times_add(piece: PieceView, first: nat, second: nat)
    ensures
        piece.rotated_times(first).rotated_times(second) == piece.rotated_times(first + second),
    decreases second,
{
    if second > 0 {
        lemma_rotated_times_add(piece, first, (second - 1) as nat);
    }
}

/// Four quarter turns bring every block of a piece back to where it was, and
/// with it the recorded box and the offset, provided the piece lies within
/// its pivot. A block beyond the pivot is held at zero by a turn and does not
/// return.
pub proof fn lemma_four_rotations(piece: PieceView)
    requires
        piece.wf(),
        piece.within_pivot(),
    ensures
        piece.rotated().rotated().rotated().rotated() == piece,
        piece.rotated_times(4) == piece,
{
    let pivot = piece.doubled_pivot;
    let once = piece.rotated();
    let twice = once.rotated();
    let thrice = twice.rotated();
    let back = thrice.rotated();
    assert forall|i: int| 0 <= i < piece.blocks.len() implies #[trigger] back.blocks[i]
        == piece.blocks[i] by {
        let block = piece.blocks[i];
        assert(block.x <= pivot && block.y <= pivot);
        assert(once.blocks[i] == block.rotated(pivot));
        assert(twice.blocks[i] == once.blocks[i].rotated(pivot));
        assert(thrice.blocks[i] == twice.blocks[i].rotated(pivot));
        assert(back.blocks[i] == thrice.blocks[i].rotated(pivot));
    }
    assert(back.blocks =~= piece.blocks);
    reveal_with_fuel(PieceView::rotated_times, 5);
}

/// A block beyond the pivot does not return to its place by four quarter
/// turns: the four-turn cycle holds of no piece that has one.
pub proof fn lemma_four_rotations_need_pivot(piece: PieceView)
    requires
        piece.blocks.len() > 0,
        !piece.within_pivot(),
    ensures
        piece.rotated().rotated().rotated().rotated().blocks != piece.blocks,
{
    let pivot = piece.doubled_pivot;
    let i = choose|i: int|
        0 <= i < piece.blocks.len() && !((#[trigger] piece.blocks[i]).x <= pivot
            && piece.blocks[i].y <= pivot);
    let once = piece.rotated();
    let twice = once.rotated();
    let thrice = twice.rotated();
    let back = thrice.rotated();
    assert(once.blocks[i] == piece.blocks[i].rotated(pivot));
    assert(twice.blocks[i] == once.blocks[i].rotated(pivot));
    assert(thrice.blocks[i] == twice.blocks[i].rotated(pivot));
    assert(back.blocks[i] == thrice.blocks[i].rotated(pivot));
    assert(back.blocks[i] != piece.blocks[i]);
}

} // verus!
