use vstd::prelude::*;
use crate::error::GameError;
use crate::piece::Piece;
use crate::position::Position;

verus! {

/// What a cell of the board holds.
#[derive(Copy, Clone, Debug, Eq, PartialEq, Structural)]
pub enum State {
    /// No piece covers the cell.
    Free,
    /// A piece of the player with this index covers the cell.
    Occupied(usize),
}

/// The cells that the blocks of a piece, given relative to the piece's own
/// top-left corner, cover when that corner is put at `offset`.
pub open spec fn targets(local_blocks: Seq<Position>, offset: Position) -> Seq<(int, int)> {
    local_blocks.map_values(|block: Position| (block.x + offset.x, block.y + offset.y))
}

/// The cells at which the positions lie.
pub open spec fn cells_of(positions: Seq<Position>) -> Seq<(int, int)> {
    positions.map_values(|position: Position| (position.x as int, position.y as int))
}

/// What a board is, as plain values: its measures and the state of each cell,
/// keyed by column and row.
pub struct BoardView {
    pub width: int,
    pub height: int,
    pub cells: Map<(int, int), State>,
}

impl BoardView {
    /// Whether the cell lies on the grid.
    pub open spec fn contains(self, cell: (int, int)) -> bool {
        0 <= cell.0 < self.width && 0 <= cell.1 < self.height
    }

    /// The measures fit the machine, and the cells are those of the grid.
    pub open spec fn wf(self) -> bool {
        &&& 0 <= self.width <= u16::MAX
        &&& 0 <= self.height <= u16::MAX
        &&& forall|cell: (int, int)| self.cells.dom().contains(cell) <==> self.contains(cell)
    }

    /// A board of these measures with every cell free.
    pub open spec fn empty(width: int, height: int) -> BoardView {
        BoardView {
            width,
            height,
            cells: Map::new(
                |cell: (int, int)| 0 <= cell.0 < width && 0 <= cell.1 < height,
                |cell: (int, int)| State::Free,
            ),
        }
    }

    /// The cell lies on the grid and is free.
    pub open spec fn is_free(self, cell: (int, int)) -> bool {
        self.contains(cell) && self.cells[cell] == State::Free
    }

    /// The cell lies on the grid and is occupied by `player`.
    pub open spec fn owned_by(self, cell: (int, int), player: usize) -> bool {
        self.contains(cell) && self.cells[cell] == State::Occupied(player)
    }

    /// One of the four cells that share an edge with `cell` is occupied by
    /// `player`. Neighbours off the grid do not count.
    pub open spec fn edge_adjacent_to(self, cell: (int, int), player: usize) -> bool {
        ||| self.owned_by((cell.0 - 1, cell.1), player)
        ||| self.owned_by((cell.0 + 1, cell.1), player)
        ||| self.owned_by((cell.0, cell.1 - 1), player)
        ||| self.owned_by((cell.0, cell.1 + 1), player)
    }

    /// One of the four cells that share only a corner with `cell` is occupied
    /// by `player`. Neighbours off the grid do not count.
    pub open spec fn diagonally_adjacent_to(self, cell: (int, int), player: usize) -> bool {
        ||| self.owned_by((cell.0 - 1, cell.1 - 1), player)
        ||| self.owned_by((cell.0 + 1, cell.1 - 1), player)
        ||| self.owned_by((cell.0 - 1, cell.1 + 1), player)
        ||| self.owned_by((cell.0 + 1, cell.1 + 1), player)
    }

    /// The cell is one of the four corners of the grid.
    pub open spec fn is_corner(self, cell: (int, int)) -> bool {
        &&& cell.0 == 0 || cell.0 == self.width - 1
        &&& cell.1 == 0 || cell.1 == self.height - 1
    }

    /// `player` may take the cell: it is free and shares no edge with a cell
    /// of the same player.
    pub open spec fn admits(self, cell: (int, int), player: usize) -> bool {
        self.is_free(cell) && !self.edge_adjacent_to(cell, player)
    }

    /// The cell ties a piece to the board: on a first move it is a corner of
    /// the grid, on a later move it touches a cell of `player` diagonally.
    pub open spec fn anchors(self, cell: (int, int), player: usize, first_round: bool) -> bool {
        if first_round {
            self.is_corner(cell)
        } else {
            self.diagonally_adjacent_to(cell, player)
        }
    }

    /// Every target lies on the grid.
    pub open spec fn covers(self, cells: Seq<(int, int)>) -> bool {
        forall|i: int| 0 <= i < cells.len() ==> self.contains(#[trigger] cells[i])
    }

    /// The placement is legal: `player` may take every target, and at least
    /// one target anchors the piece.
    pub open spec fn legal(self, cells: Seq<(int, int)>, player: usize, first_round: bool) -> bool {
        &&& forall|i: int| 0 <= i < cells.len() ==> self.admits(#[trigger] cells[i], player)
        &&& exists|i: int|
            0 <= i < cells.len() && self.anchors(#[trigger] cells[i], player, first_round)
    }

    /// The board after `player` has taken the targets: those cells of the grid
    /// are occupied by `player`, every other cell is as before.
    pub open spec fn occupied(self, cells: Seq<(int, int)>, player: usize) -> BoardView {
        BoardView {
            width: self.width,
            height: self.height,
            cells: Map::new(
                |cell: (int, int)| self.cells.dom().contains(cell),
                |cell: (int, int)|
                    if cells.contains(cell) {
                        State::Occupied(player)
                    } else {
                        self.cells[cell]
                    },
            ),
        }
    }

    /// The error owed for targets that do not all lie on the grid: it names
    /// the first target, in the order of the blocks, that lies off it.
    pub open spec fn reports(self, cells: Seq<(int, int)>, error: GameError) -> bool {
        exists|k: int|
            {
                &&& 0 <= k < cells.len()
                &&& !self.contains(#[trigger] cells[k])
                &&& self.covers(cells.take(k))
                &&& error == (GameError::OutOfBounds { x: cells[k].0 as u32, y: cells[k].1 as u32 })
            }
    }
}

/// The place of a cell of the grid in a list of its cells row by row.
spec fn flat_index(width: int, cell: (int, int)) -> int {
    cell.1 * width + cell.0
}

/// Row by row, the cells of a grid have places of their own below the number
/// of cells.
proof fn lemma_flat_index(width: int, height: int, cell: (int, int))
    requires
        0 <= cell.0 < width,
        0 <= cell.1 < height,
    ensures
        0 <= flat_index(width, cell) < width * height,
        flat_index(width, cell) / width == cell.1,
        flat_index(width, cell) % width == cell.0,
{
    let x = cell.0;
    let y = cell.1;
    assert(y * width >= 0) by (nonlinear_arith)
        requires
            y >= 0,
            width > 0,
    ;
    assert(y * width + width <= height * width) by (nonlinear_arith)
        requires
            0 <= y < height,
            width > 0,
    ;
    assert(height * width == width * height) by (nonlinear_arith);
    vstd::arithmetic::div_mod::lemma_fundamental_div_mod_converse(y * width + x, width, y, x);
}

/// No placement is legal that would put a block against a cell of the same
/// player, edge to edge: on a first move as on any other, and whatever
/// corner or diagonal the piece may touch besides.
pub proof fn lemma_edge_adjacency_forbids(
    board: BoardView,
    cells: Seq<(int, int)>,
    player: usize,
    first_round: bool,
    block: int,
)
    requires
        0 <= block < cells.len(),
        board.edge_adjacent_to(cells[block], player),
    ensures
        !board.legal(cells, player, first_round),
{
    assert(!board.admits(cells[block], player));
}

/// No placement is legal that would cover a cell that is not free.
pub proof fn lemma_taken_cell_forbids(
    board: BoardView,
    cells: Seq<(int, int)>,
    player: usize,
    first_round: bool,
    block: int,
)
    requires
        0 <= block < cells.len(),
        !board.is_free(cells[block]),
    ensures
        !board.legal(cells, player, first_round),
{
    assert(!board.admits(cells[block], player));
}

/// A first move is legal only if the piece covers a corner of the grid.
pub proof fn lemma_first_move_needs_corner(board: BoardView, cells: Seq<(int, int)>, player: usize)
    requires
        board.legal(cells, player, true),
    ensures
        exists|i: int| 0 <= i < cells.len() && board.is_corner(#[trigger] cells[i]),
{
    let i = choose|i: int| 0 <= i < cells.len() && board.anchors(#[trigger] cells[i], player, true);
    assert(board.is_corner(cells[i]));
}

/// A later move is legal only if the piece touches a cell of the same player
/// diagonally; whether it covers a corner of the grid is not asked.
pub proof fn lemma_later_move_needs_diagonal(
    board: BoardView,
    cells: Seq<(int, int)>,
    player: usize,
)
    requires
        board.legal(cells, player, false),
    ensures
        exists|i: int|
            0 <= i < cells.len() && board.diagonally_adjacent_to(#[trigger] cells[i], player),
{
    let i = choose|i: int|
        0 <= i < cells.len() && board.anchors(#[trigger] cells[i], player, false);
    assert(board.diagonally_adjacent_to(cells[i], player));
}

/// A legal placement changes free cells only: the board afterwards is a grid
/// of the same measures, every covered cell belongs to the player, and every
/// cell that was occupied is occupied as before.
pub proof fn lemma_occupied_cells_stay(board: BoardView, cells: Seq<(int, int)>, player: usize)
    requires
        board.wf(),
        forall|i: int| 0 <= i < cells.len() ==> board.is_free(#[trigger] cells[i]),
    ensures
        board.occupied(cells, player).wf(),
        forall|i: int|
            0 <= i < cells.len() ==> board.occupied(cells, player).owned_by(
                #[trigger] cells[i],
                player,
            ),
        forall|cell: (int, int)|
            board.contains(cell) && board.cells[cell] != State::Free ==> #[trigger] board.occupied(
                cells,
                player,
            ).cells[cell] == board.cells[cell],
        forall|cell: (int, int)|
            board.contains(cell) && !cells.contains(cell) ==> #[trigger] board.occupied(
                cells,
                player,
            ).cells[cell] == board.cells[cell],
{
    let after = board.occupied(cells, player);
    assert forall|cell: (int, int)| after.cells.dom().contains(cell) <==> after.contains(
        cell,
    ) by {
        assert(board.cells.dom().contains(cell) <==> board.contains(cell));
    }
    assert forall|i: int| 0 <= i < cells.len() implies after.owned_by(
        #[trigger] cells[i],
        player,
    ) by {
        assert(board.is_free(cells[i]));
        assert(cells.contains(cells[i]));
    }
    assert forall|cell: (int, int)|
        board.contains(cell) && board.cells[cell] != State::Free implies #[trigger] after.cells[cell]
        == board.cells[cell] by {
        if cells.contains(cell) {
            let i = choose|i: int| 0 <= i < cells.len() && cells[i] == cell;
            assert(board.is_free(cells[i]));
        }
    }
}

/// The grid of the game: `width` columns and `height` rows of cells, each free
/// or occupied by one player. A cell that is occupied stays so.
pub struct Board {
    width: u16,
    height: u16,
    tiles: Vec<State>,
}

impl View for Board {
    type V = BoardView;

    closed spec fn view(&self) -> BoardView {
        BoardView {
            width: self.width as int,
            height: self.height as int,
            cells: Map::new(
                |cell: (int, int)| 0 <= cell.0 < self.width && 0 <= cell.1 < self.height,
                |cell: (int, int)| self.tiles@[flat_index(self.width as int, cell)],
            ),
        }
    }
}

impl Board {
    #[verifier::type_invariant]
    spec fn well_formed(self) -> bool {
        self.tiles@.len() == self.width * self.height
    }

    /// A board of the given measures with every cell free.
    pub fn new(width: u16, height: u16) -> (board: Board)
        ensures
            board@ == BoardView::empty(width as int, height as int),
            board@.wf(),
    {
        assert(width * height <= u16::MAX * u16::MAX) by (nonlinear_arith)
            requires
                0 <= width <= u16::MAX,
                0 <= height <= u16::MAX,
        ;
        let cells: usize = (width as usize) * (height as usize);
        let tiles = vec![State::Free; cells];
        let board = Board { width, height, tiles };
        proof {
            assert forall|cell: (int, int)| #[trigger]
                board@.cells.dom().contains(cell) implies board@.cells[cell] == State::Free by {
                lemma_flat_index(width as int, height as int, cell);
            }
            assert(board@.cells =~= BoardView::empty(width as int, height as int).cells);
        }
        board
    }

    /// The number of columns.
    pub fn width(&self) -> (width: u16)
        ensures
            width == self@.width,
    {
        self.width
    }

    /// The number of rows.
    pub fn height(&self) -> (height: u16)
        ensures
            height == self@.height,
    {
        self.height
    }

    /// The state of the cell at `position`, or the error for a position off
    /// the grid.
    pub fn get_state_on_position(&self, position: &Position) -> (outcome: Result<State, GameError>)
        ensures
            self@.wf(),
            match outcome {
                Ok(state) => self@.contains((position.x as int, position.y as int))
                    && state == self@.cells[(position.x as int, position.y as int)],
                Err(error) => !self@.contains((position.x as int, position.y as int))
                    && error == (GameError::OutOfBounds {
                    x: position.x as u32,
                    y: position.y as u32,
                }),
            },
    {
        proof {
            use_type_invariant(self);
        }
        match position.check_within_bounds(self.width, self.height) {
            Err(error) => Err(error),
            Ok(()) => Ok(self.state_at(position.x, position.y)),
        }
    }

    /// Where on the board the blocks of `piece` come to lie when the top-left
    /// corner of its bounding box is put at `offset`, in the order of the
    /// blocks; or the error for the first block that comes to lie off the grid.
    pub fn target_positions(&self, piece: &Piece, offset: &Position) -> (outcome: Result<
        Vec<Position>,
        GameError,
    >)
        ensures
            self@.wf(),
            piece@.wf(),
            match outcome {
                Ok(positions) => self@.covers(targets(piece@.local_blocks(), *offset))
                    && cells_of(positions@) == targets(piece@.local_blocks(), *offset),
                Err(error) => self@.reports(targets(piece@.local_blocks(), *offset), error),
            },
    {
        proof {
            use_type_invariant(self);
        }
        let blocks = piece.blocks();
        let ghost cells = targets(piece@.local_blocks(), *offset);
        let mut positions: Vec<Position> = Vec::new();
        let mut i: usize = 0;
        while i < blocks.len()
            invariant
                i <= blocks.len(),
                piece@.wf(),
                blocks@ == piece@.local_blocks(),
                cells == targets(blocks@, *offset),
                self@.covers(cells.take(i as int)),
                cells_of(positions@) == cells.take(i as int),
            decreases blocks.len() - i,
        {
            let x: u32 = blocks[i].x as u32 + offset.x as u32;
            let y: u32 = blocks[i].y as u32 + offset.y as u32;
            assert(cells[i as int] == (x as int, y as int));
            if x >= self.width as u32 || y >= self.height as u32 {
                return Err(GameError::OutOfBounds { x, y });
            }
            positions.push(Position { x: x as u16, y: y as u16 });
            proof {
                assert(cells.take(i + 1) == cells.take(i as int).push(cells[i as int]));
                assert(cells_of(positions@) == cells.take(i + 1));
            }
            i = i + 1;
        }
        assert(cells.take(i as int) == cells);
        Ok(positions)
    }

    /// Whether every block of `piece`, put at `offset`, comes to lie on the
    /// grid; the error names the first that does not.
    pub fn check_piece_within_bounds(&self, piece: &Piece, offset: &Position) -> (outcome: Result<
        (),
        GameError,
    >)
        ensures
            self@.wf(),
            piece@.wf(),
            match outcome {
                Ok(_) => self@.covers(targets(piece@.local_blocks(), *offset)),
                Err(error) => self@.reports(targets(piece@.local_blocks(), *offset), error),
            },
    {
        match self.target_positions(piece, offset) {
            Ok(_) => Ok(()),
            Err(error) => Err(error),
        }
    }

    /// Whether the rules allow `player_index` to put `piece` at `offset`: every
    /// covered cell is free and shares no edge with a cell of the same
    /// player, and one covered cell is a corner of the grid (on the player's
    /// first move) or touches a cell of the same player diagonally (on a
    /// later move). A piece that would reach off the grid is an error.
    pub fn piece_can_be_placed(
        &self,
        piece: &Piece,
        offset: &Position,
        player_index: usize,
        first_round: bool,
    ) -> (outcome: Result<bool, GameError>)
        ensures
            self@.wf(),
            piece@.wf(),
            match outcome {
                Ok(allowed) => self@.covers(targets(piece@.local_blocks(), *offset)) && allowed
                    == self@.legal(
                    targets(piece@.local_blocks(), *offset),
                    player_index,
                    first_round,
                ),
                Err(error) => self@.reports(targets(piece@.local_blocks(), *offset), error),
            },
    {
        match self.target_positions(piece, offset) {
            Ok(positions) => Ok(self.positions_can_be_taken(&positions, player_index, first_round)),
            Err(error) => Err(error),
        }
    }

    /// Puts `piece` at `offset` for `player_index` if the rules allow it.
    ///
    /// A legal placement occupies every covered cell and keeps the piece. An
    /// illegal one leaves the board as it was and hands the piece back. A
    /// piece that would reach off the grid is an error, and the board is left
    /// as it was.
    pub fn place_piece(
        &mut self,
        piece: Piece,
        offset: Position,
        player_index: usize,
        first_round: bool,
    ) -> (outcome: Result<Option<Piece>, GameError>)
        ensures
            old(self)@.wf(),
            final(self)@.wf(),
            piece@.wf(),
            forall|cell: (int, int)|
                old(self)@.contains(cell) && old(self)@.cells[cell] != State::Free
                    ==> #[trigger] final(self)@.cells[cell] == old(self)@.cells[cell],
            match outcome {
                Ok(None) => {
                    &&& old(self)@.covers(targets(piece@.local_blocks(), offset))
                    &&& old(self)@.legal(
                        targets(piece@.local_blocks(), offset),
                        player_index,
                        first_round,
                    )
                    &&& final(self)@ == old(self)@.occupied(
                        targets(piece@.local_blocks(), offset),
                        player_index,
                    )
                },
                Ok(Some(returned)) => {
                    &&& old(self)@.covers(targets(piece@.local_blocks(), offset))
                    &&& !old(self)@.legal(
                        targets(piece@.local_blocks(), offset),
                        player_index,
                        first_round,
                    )
                    &&& returned@ == piece@
                    &&& final(self)@ == old(self)@
                },
                Err(error) => {
                    &&& old(self)@.reports(targets(piece@.local_blocks(), offset), error)
                    &&& final(self)@ == old(self)@
                },
            },
    {
        let positions = match self.target_positions(&piece, &offset) {
            Ok(positions) => positions,
            Err(error) => {
                return Err(error);
            },
        };
        if !self.positions_can_be_taken(&positions, player_index, first_round) {
            return Ok(Some(piece));
        }
        let ghost before = self@;
        let ghost cells = cells_of(positions@);
        proof {
            assert forall|i: int| 0 <= i < cells.len() implies before.is_free(
                #[trigger] cells[i],
            ) by {
                assert(before.admits(cells[i], player_index));
            }
            lemma_occupied_cells_stay(before, cells, player_index);
        }
        let mut i: usize = 0;
        proof {
            assert(cells.take(0) =~= Seq::<(int, int)>::empty());
            assert(before.cells =~= before.occupied(cells.take(0), player_index).cells);
        }
        while i < positions.len()
            invariant
                i <= positions.len(),
                before.wf(),
                before.covers(cells),
                cells == cells_of(positions@),
                self@ == before.occupied(cells.take(i as int), player_index),
            decreases positions.len() - i,
        {
            let ghost earlier = self@;
            assert(cells[i as int] == (positions[i as int].x as int, positions[i as int].y as int));
            assert(before.contains(cells[i as int]));
            self.occupy_position(&positions[i], player_index);
            proof {
                let taken = cells.take(i as int);
                let grown = cells.take(i + 1);
                assert(grown == taken.push(cells[i as int]));
                assert forall|cell: (int, int)| grown.contains(cell) <==> (taken.contains(cell)
                    || cell == cells[i as int]) by {
                    if taken.contains(cell) {
                        let k = choose|k: int| 0 <= k < taken.len() && taken[k] == cell;
                        assert(grown[k] == cell);
                    }
                    if cell == cells[i as int] {
                        assert(grown[i as int] == cell);
                    }
                }
                assert(self@.cells =~= before.occupied(grown, player_index).cells);
            }
            i = i + 1;
        }
        proof {
            assert(cells.take(i as int) == cells);
        }
        Ok(None)
    }

    fn occupy_position(&mut self, position: &Position, player_index: usize)
        requires
            old(self)@.contains((position.x as int, position.y as int)),
        ensures
            final(self)@.width == old(self)@.width,
            final(self)@.height == old(self)@.height,
            final(self)@.cells == old(self)@.cells.insert(
                (position.x as int, position.y as int),
                State::Occupied(player_index),
            ),
    {
        let ghost cell = (position.x as int, position.y as int);
        proof {
            use_type_invariant(&*self);
            lemma_flat_index(self.width as int, self.height as int, cell);
            assert(self.width * self.height <= u16::MAX * u16::MAX) by (nonlinear_arith)
                requires
                    0 <= self.width <= u16::MAX,
                    0 <= self.height <= u16::MAX,
            ;
        }
        let index: usize = (position.y as usize) * (self.width as usize) + (position.x as usize);
        self.tiles[index] = State::Occupied(player_index);
        proof {
            let width = self.width as int;
            assert forall|other: (int, int)| self@.cells.dom().contains(other) implies #[trigger]
                self@.cells[other] == old(self)@.cells.insert(
                cell,
                State::Occupied(player_index),
            )[other] by {
                lemma_flat_index(width, self.height as int, other);
            }
            assert(self@.cells =~= old(self)@.cells.insert(cell, State::Occupied(player_index)));
        }
    }

    fn positions_can_be_taken(
        &self,
        positions: &Vec<Position>,
        player_index: usize,
        first_round: bool,
    ) -> (allowed: bool)
        requires
            self@.covers(cells_of(positions@)),
        ensures
            allowed == self@.legal(cells_of(positions@), player_index, first_round),
    {
        let ghost cells = cells_of(positions@);
        let mut can_generally_be_placed = true;
        let mut i: usize = 0;
        while i < positions.len() && can_generally_be_placed
            invariant
                i <= positions.len(),
                cells == cells_of(positions@),
                self@.covers(cells),
                can_generally_be_placed ==> forall|k: int|
                    0 <= k < i ==> self@.admits(#[trigger] cells[k], player_index),
                !can_generally_be_placed ==> exists|k: int|
                    0 <= k < positions.len() && !self@.admits(#[trigger] cells[k], player_index),
            decreases positions.len() - i + if can_generally_be_placed { 1int } else { 0int },
        {
            let position = &positions[i];
            assert(cells[i as int] == (position.x as int, position.y as int));
            assert(self@.contains(cells[i as int]));
            can_generally_be_placed = self.block_position_is_not_occupied(position)
                && self.block_is_not_adjacent_to_other_blocks_from_same_player(
                position,
                player_index,
            );
            if can_generally_be_placed {
                i = i + 1;
            }
        }
        let mut anchored = false;
        let mut j: usize = 0;
        while j < positions.len() && !anchored
            invariant
                j <= positions.len(),
                cells == cells_of(positions@),
                self@.covers(cells),
                anchored ==> exists|k: int|
                    0 <= k < positions.len() && self@.anchors(
                        #[trigger] cells[k],
                        player_index,
                        first_round,
                    ),
                !anchored ==> forall|k: int|
                    0 <= k < j ==> !self@.anchors(#[trigger] cells[k], player_index, first_round),
            decreases positions.len() - j + if anchored { 0int } else { 1int },
        {
            let position = &positions[j];
            assert(cells[j as int] == (position.x as int, position.y as int));
            assert(self@.contains(cells[j as int]));
            anchored = if first_round {
                self.block_touches_corner(position)
            } else {
                self.block_is_diagonally_adjacent_to_block_from_same_player(position, player_index)
            };
            if !anchored {
                j = j + 1;
            }
        }
        anchored && can_generally_be_placed
    }

    fn block_position_is_not_occupied(&self, position: &Position) -> (free: bool)
        requires
            self@.contains((position.x as int, position.y as int)),
        ensures
            free == self@.is_free((position.x as int, position.y as int)),
    {
        match self.state_at(position.x, position.y) {
            State::Free => true,
            State::Occupied(_) => false,
        }
    }

    fn is_owned_by(&self, x: u16, y: u16, player_index: usize) -> (owned: bool)
        requires
            self@.contains((x as int, y as int)),
        ensures
            owned == self@.owned_by((x as int, y as int), player_index),
    {
        match self.state_at(x, y) {
            State::Occupied(index) => index == player_index,
            State::Free => false,
        }
    }

    fn block_is_not_adjacent_to_other_blocks_from_same_player(
        &self,
        position: &Position,
        player_index: usize,
    ) -> (clear: bool)
        requires
            self@.contains((position.x as int, position.y as int)),
        ensures
            clear == !self@.edge_adjacent_to((position.x as int, position.y as int), player_index),
    {
        if position.x > 0 && self.is_owned_by(position.x - 1, position.y, player_index) {
            return false;
        }
        if position.x < self.width - 1 && self.is_owned_by(
            position.x + 1,
            position.y,
            player_index,
        ) {
            return false;
        }
        if position.y > 0 && self.is_owned_by(position.x, position.y - 1, player_index) {
            return false;
        }
        if position.y < self.height - 1 && self.is_owned_by(
            position.x,
            position.y + 1,
            player_index,
        ) {
            return false;
        }
        true
    }

    fn block_is_diagonally_adjacent_to_block_from_same_player(
        &self,
        position: &Position,
        player_index: usize,
    ) -> (touching: bool)
        requires
            self@.contains((position.x as int, position.y as int)),
        ensures
            touching == self@.diagonally_adjacent_to(
                (position.x as int, position.y as int),
                player_index,
            ),
    {
        if position.x > 0 && position.y > 0 && self.is_owned_by(
            position.x - 1,
            position.y - 1,
            player_index,
        ) {
            return true;
        }
        if position.x < self.width - 1 && position.y > 0 && self.is_owned_by(
            position.x + 1,
            position.y - 1,
            player_index,
        ) {
            return true;
        }
        if position.x > 0 && position.y < self.height - 1 && self.is_owned_by(
            position.x - 1,
            position.y + 1,
            player_index,
        ) {
            return true;
        }
        if position.x < self.width - 1 && position.y < self.height - 1 && self.is_owned_by(
            position.x + 1,
            position.y + 1,
            player_index,
        ) {
            return true;
        }
        false
    }

    fn block_touches_corner(&self, position: &Position) -> (corner: bool)
        requires
            self@.contains((position.x as int, position.y as int)),
        ensures
            corner == self@.is_corner((position.x as int, position.y as int)),
    {
        if position.x == 0 && position.y == 0 {
            return true;
        }
        if position.x == self.width - 1 && position.y == 0 {
            return true;
        }
        if position.x == 0 && position.y == self.height - 1 {
            return true;
        }
        if position.x == self.width - 1 && position.y == self.height - 1 {
            return true;
        }
        false
    }

    fn state_at(&self, x: u16, y: u16) -> (state: State)
        requires
            self@.contains((x as int, y as int)),
        ensures
            state == self@.cells[(x as int, y as int)],
    {
        proof {
            use_type_invariant(self);
            lemma_flat_index(self.width as int, self.height as int, (x as int, y as int));
            assert(self.width * self.height <= u16::MAX * u16::MAX) by (nonlinear_arith)
                requires
                    0 <= self.width <= u16::MAX,
                    0 <= self.height <= u16::MAX,
            ;
        }
        self.tiles[(y as usize) * (self.width as usize) + (x as usize)]
    }
}

} // verus!
