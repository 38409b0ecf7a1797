use vstd::prelude::*;
use std::collections::HashMap;
use ratatui::style::Color;
use crate::board::{targets, Board, BoardView};
use crate::error::GameError;
use crate::piece::{lemma_four_rotations, lemma_rotated_times_add, Piece, PieceView};
use crate::player::{piece_views, player_views, Player, PlayerView};
use crate::position::Position;

verus! {

/// `rand::random::<usize>()`: a number drawn from the thread's generator.
/// It differs from call to call, and nothing is claimed of it. The generator
/// gives up only where the system has no seed for it.
#[verifier::external_body]
fn random_draw() -> (draw: usize) {
    rand::random::<usize>()
}

/// What the roster is, as plain values.
pub struct PlayersView {
    pub players: Seq<PlayerView>,
    /// The seat of the player whose turn it is.
    pub active_player_index: int,
}

impl PlayersView {
    /// There is a player, and the active seat is taken.
    pub open spec fn wf(self) -> bool {
        0 <= self.active_player_index < self.players.len()
    }

    /// The seat after `seat` at a table of `seats`, going round.
    pub open spec fn seat_after(seat: int, seats: int) -> int {
        (seat + 1) % seats
    }
}

/// The players in their fixed order, and whose turn it is.
pub struct Players {
    players: Vec<Player>,
    active_player_index: usize,
}

impl View for Players {
    type V = PlayersView;

    closed spec fn view(&self) -> PlayersView {
        PlayersView {
            players: player_views(self.players@),
            active_player_index: self.active_player_index as int,
        }
    }
}

impl Players {
    /// Seats the players in the order given and lets chance pick who begins.
    pub fn new(players: Vec<Player>) -> (roster: Players)
        requires
            players@.len() > 0,
        ensures
            roster@.wf(),
            roster@.players == player_views(players@),
    {
        Players::with_draw(players, random_draw())
    }

    /// Seats the players in the order given; the player at seat `draw` modulo
    /// the number of players begins.
    pub fn with_draw(players: Vec<Player>, draw: usize) -> (roster: Players)
        requires
            players@.len() > 0,
        ensures
            roster@.wf(),
            roster@.players == player_views(players@),
            roster@.active_player_index == draw as int % players@.len() as int,
    {
        let active_player_index = draw % players.len();
        Players { players, active_player_index }
    }

    /// Passes the turn to the next seat, going round.
    pub fn switch_to_next_player(&mut self)
        requires
            old(self)@.wf(),
        ensures
            final(self)@.wf(),
            final(self)@.players == old(self)@.players,
            final(self)@.active_player_index == PlayersView::seat_after(
                old(self)@.active_player_index,
                old(self)@.players.len() as int,
            ),
    {
        let seats = self.players.len();
        assert(self@.players.len() == seats);
        self.active_player_index = (self.active_player_index + 1) % seats;
    }
}

/// What a game is, as plain values.
pub struct GameView {
    pub board: BoardView,
    pub players: Seq<PlayerView>,
    /// The seat of the player whose turn it is.
    pub active_player_index: int,
}

impl GameView {
    /// The board is a grid, there is a player, and the active seat is taken.
    pub open spec fn wf(self) -> bool {
        &&& self.board.wf()
        &&& 0 <= self.active_player_index < self.players.len()
    }

    /// The player whose turn it is.
    pub open spec fn active_player(self) -> PlayerView {
        self.players[self.active_player_index]
    }

    /// The active player has a piece at `piece_index`.
    pub open spec fn names_piece(self, piece_index: int) -> bool {
        0 <= piece_index < self.active_player().available_pieces.len()
    }

    /// The active player's piece at `piece_index`, as it lies in the
    /// inventory.
    pub open spec fn picked(self, piece_index: int) -> PieceView {
        self.active_player().available_pieces[piece_index]
    }

    /// The number of quarter turns that an attempt makes: `rotations`
    /// modulo four.
    pub open spec fn turns(rotations: u16) -> nat {
        (rotations % 4) as nat
    }

    /// The number of quarter turns that bring a piece turned `rotations`
    /// times round to a full circle.
    pub open spec fn turns_back(rotations: u16) -> nat {
        ((4 - rotations % 4) % 4) as nat
    }

    /// The piece at `piece_index` as an attempt presents it to the board.
    pub open spec fn presented(self, piece_index: int, rotations: u16) -> PieceView {
        self.picked(piece_index).rotated_times(Self::turns(rotations))
    }

    /// The piece as it goes back into the inventory when the attempt fails:
    /// turned onward to a full circle.
    pub open spec fn handed_back(self, piece_index: int, rotations: u16) -> PieceView {
        self.presented(piece_index, rotations).rotated_times(Self::turns_back(rotations))
    }

    /// The cells that the attempt would cover.
    pub open spec fn target_cells(self, piece_index: int, rotations: u16, position: Position) -> Seq<
        (int, int),
    > {
        targets(self.presented(piece_index, rotations).local_blocks(), position)
    }

    /// The attempt names a piece of the active player and stays on the grid.
    pub open spec fn in_reach(self, piece_index: int, rotations: u16, position: Position) -> bool {
        &&& self.names_piece(piece_index)
        &&& self.board.covers(self.target_cells(piece_index, rotations, position))
    }

    /// The attempt is in reach and the rules allow it.
    pub open spec fn accepts(self, piece_index: int, rotations: u16, position: Position) -> bool {
        &&& self.in_reach(piece_index, rotations, position)
        &&& self.board.legal(
            self.target_cells(piece_index, rotations, position),
            self.active_player_index as usize,
            self.active_player().first_move,
        )
    }

    /// The game after the attempt.
    ///
    /// An attempt that names no piece changes nothing. An accepted one
    /// occupies the covered cells for the active player, removes the piece
    /// from that player's inventory, ends that player's first move, and
    /// passes the turn. Any other puts the piece back where it was, turned
    /// onward to a full circle.
    pub open spec fn after(self, piece_index: int, rotations: u16, position: Position) -> GameView {
        if !self.names_piece(piece_index) {
            self
        } else if self.accepts(piece_index, rotations, position) {
            GameView {
                board: self.board.occupied(
                    self.target_cells(piece_index, rotations, position),
                    self.active_player_index as usize,
                ),
                players: self.players.update(
                    self.active_player_index,
                    self.active_player().without_piece(piece_index).moved(),
                ),
                active_player_index: PlayersView::seat_after(
                    self.active_player_index,
                    self.players.len() as int,
                ),
            }
        } else {
            GameView {
                players: self.players.update(
                    self.active_player_index,
                    self.active_player().with_piece_replaced(
                        piece_index,
                        self.handed_back(piece_index, rotations),
                    ),
                ),
                ..self
            }
        }
    }

    /// The colours of every player, keyed by seat.
    pub open spec fn color_map(self) -> Map<usize, (Color, Color)> {
        Map::new(
            |seat: usize| seat < self.players.len(),
            |seat: usize| (self.players[seat as int].color, self.players[seat as int].secondary_color),
        )
    }
}

/// A piece that lies within its pivot, or is not turned at all, is the same
/// after the turns of an attempt and the turns back.
pub proof fn lemma_full_circle(piece: PieceView, rotations: u16)
    requires
        piece.wf(),
        rotations % 4 == 0 || piece.within_pivot(),
    ensures
        piece.rotated_times(GameView::turns(rotations)).rotated_times(
            GameView::turns_back(rotations),
        ) == piece,
{
    let turns = GameView::turns(rotations);
    let back = GameView::turns_back(rotations);
    lemma_rotated_times_add(piece, turns, back);
    if rotations % 4 != 0 {
        assert(turns + back == 4);
        lemma_four_rotations(piece);
    } else {
        assert(turns + back == 0);
    }
}

/// A failed attempt is invisible: where the attempt names a piece but is not
/// accepted, and the piece lies within its pivot or is not turned, the game
/// afterwards is the game before, piece for piece and cell for cell.
pub proof fn lemma_rejection_restores(
    game: GameView,
    piece_index: int,
    rotations: u16,
    position: Position,
)
    requires
        game.wf(),
        game.names_piece(piece_index),
        game.picked(piece_index).wf(),
        rotations % 4 == 0 || game.picked(piece_index).within_pivot(),
        !game.accepts(piece_index, rotations, position),
    ensures
        game.after(piece_index, rotations, position) == game,
{
    let player = game.active_player();
    lemma_full_circle(player.available_pieces[piece_index], rotations);
    let restored = player.with_piece_replaced(piece_index, game.handed_back(piece_index, rotations));
    assert(restored.available_pieces =~= player.available_pieces);
    assert(game.players.update(game.active_player_index, restored) =~= game.players);
}

/// With two players or more, the turn passes exactly when an attempt is
/// accepted. (A lone player keeps the only seat either way.)
pub proof fn lemma_turn_passes_iff_accepted(
    game: GameView,
    piece_index: int,
    rotations: u16,
    position: Position,
)
    requires
        game.wf(),
        game.players.len() >= 2,
    ensures
        game.after(piece_index, rotations, position).active_player_index
            != game.active_player_index <==> game.accepts(piece_index, rotations, position),
{
    let seat = game.active_player_index;
    let seats = game.players.len() as int;
    if seat + 1 < seats {
        vstd::arithmetic::div_mod::lemma_small_mod((seat + 1) as nat, seats as nat);
    } else {
        vstd::arithmetic::div_mod::lemma_mod_self_0(seats);
    }
}

/// The game: one board, the players, and whose turn it is.
pub struct Game {
    board: Board,
    players: Players,
}

impl View for Game {
    type V = GameView;

    closed spec fn view(&self) -> GameView {
        GameView {
            board: self.board@,
            players: self.players@.players,
            active_player_index: self.players@.active_player_index,
        }
    }
}

impl Game {
    /// A game on an empty board of the given measures.
    pub fn new(width: u16, height: u16, players: Players) -> (game: Game)
        requires
            players@.wf(),
        ensures
            game@.wf(),
            game@ == (GameView {
                board: BoardView::empty(width as int, height as int),
                players: players@.players,
                active_player_index: players@.active_player_index,
            }),
    {
        Game { board: Board::new(width, height), players }
    }

    /// The number of columns of the board.
    pub fn width(&self) -> (width: u16)
        ensures
            width == self@.board.width,
    {
        self.board.width()
    }

    /// The number of rows of the board.
    pub fn height(&self) -> (height: u16)
        ensures
            height == self@.board.height,
    {
        self.board.height()
    }

    /// The players in the order of their seats.
    pub fn players(&self) -> (players: &[Player])
        ensures
            player_views(players@) == self@.players,
    {
        self.players.players.as_slice()
    }

    /// The pieces that the active player has yet to place.
    pub fn active_player_pieces(&self) -> (pieces: &[Piece])
        requires
            self@.wf(),
        ensures
            piece_views(pieces@) == self@.active_player().available_pieces,
    {
        self.active_player().available_pieces.as_slice()
    }

    /// The player whose turn it is.
    pub fn active_player(&self) -> (player: &Player)
        requires
            self@.wf(),
        ensures
            player@ == self@.active_player(),
    {
        &self.players.players[self.players.active_player_index]
    }

    /// The seat of the player whose turn it is.
    pub fn active_player_index(&self) -> (seat: usize)
        ensures
            seat == self@.active_player_index,
    {
        self.players.active_player_index
    }

    /// The two colours of every player, keyed by seat.
    pub fn get_color_map(&self) -> (colors: HashMap<usize, (Color, Color)>)
        ensures
            colors@ == self@.color_map(),
    {
        broadcast use vstd::std_specs::hash::group_hash_axioms;

        let mut colors: HashMap<usize, (Color, Color)> = HashMap::new();
        let mut id: usize = 0;
        while id < self.players.players.len()
            invariant
                id <= self.players.players@.len(),
                colors@.dom() =~= Set::new(|seat: usize| seat < id),
                forall|seat: usize|
                    seat < id ==> #[trigger] colors@[seat] == (
                        self.players.players@[seat as int].color,
                        self.players.players@[seat as int].secondary_color,
                    ),
            decreases self.players.players@.len() - id,
        {
            let player = &self.players.players[id];
            colors.insert(id, (player.color, player.secondary_color));
            id = id + 1;
        }
        assert(colors@ =~= self@.color_map());
        colors
    }

    /// Attempts to place the active player's piece at `piece_index`, turned
    /// `rotations` quarter turns, with the top-left corner of its bounding
    /// box at `position`.
    ///
    /// `Ok(true)`: the rules allow the placement; the board holds the piece,
    /// the piece has left the inventory, the player's first move is over and
    /// the turn has passed. `Ok(false)`: the rules forbid it; the piece is
    /// back at its index, turned onward to a full circle, and nothing else
    /// has changed. A piece that would reach off the grid is an error, and
    /// leaves the game as a rejection does. An index without a piece is an
    /// error, and leaves the game untouched.
    ///
    /// A piece that lies within its pivot comes round to itself, so that a
    /// failed attempt leaves no trace. So does any piece that is not turned.
    pub fn place_piece(&mut self, piece_index: usize, rotations: u16, position: Position) -> (outcome:
        Result<bool, GameError>)
        requires
            old(self)@.wf(),
        ensures
            final(self)@.wf(),
            final(self)@ == old(self)@.after(piece_index as int, rotations, position),
            match outcome {
                Ok(accepted) => old(self)@.in_reach(piece_index as int, rotations, position)
                    && accepted == old(self)@.accepts(piece_index as int, rotations, position),
                Err(GameError::InvalidPieceIndex) => !old(self)@.names_piece(piece_index as int),
                Err(error) => old(self)@.names_piece(piece_index as int) && old(
                    self,
                )@.board.reports(
                    old(self)@.target_cells(piece_index as int, rotations, position),
                    error,
                ),
            },
            outcome != Ok::<bool, GameError>(true) && (old(self)@.names_piece(piece_index as int)
                ==> rotations % 4 == 0 || old(self)@.picked(piece_index as int).within_pivot())
                ==> final(self)@ == old(self)@,
            old(self)@.players.len() >= 2 ==> (final(self)@.active_player_index != old(
                self,
            )@.active_player_index <==> outcome == Ok::<bool, GameError>(true)),
    {
        let player_index = self.players.active_player_index;
        let first_round = self.active_player().first_move;
        if piece_index >= self.active_player().available_pieces.len() {
            return Err(GameError::InvalidPieceIndex);
        }
        let ghost before = self@;
        let ghost picked = before.active_player().available_pieces[piece_index as int];
        let mut piece = self.players.players[player_index].take_piece(piece_index);
        proof {
            use_type_invariant(&piece);
            assert(self@.players =~= before.players.update(
                before.active_player_index,
                before.active_player().without_piece(piece_index as int),
            ));
            let taken = before.active_player().without_piece(piece_index as int);
            let handed_back = before.handed_back(piece_index as int, rotations);
            assert(taken.with_piece(piece_index as int, handed_back).available_pieces
                =~= before.active_player().with_piece_replaced(
                piece_index as int,
                handed_back,
            ).available_pieces);
            if rotations % 4 == 0 || picked.within_pivot() {
                if !before.accepts(piece_index as int, rotations, position) {
                    lemma_rejection_restores(before, piece_index as int, rotations, position);
                }
            }
            if before.players.len() >= 2 {
                lemma_turn_passes_iff_accepted(before, piece_index as int, rotations, position);
            }
        }
        let turns = rotations % 4;
        let mut turned: u16 = 0;
        while turned < turns
            invariant
                turned <= turns,
                piece@ == picked.rotated_times(turned as nat),
            decreases turns - turned,
        {
            piece.rotate();
            turned = turned + 1;
        }
        if let Err(error) = self.board.check_piece_within_bounds(&piece, &position) {
            self.return_piece_to_list(piece_index, turns, piece);
            assert(self@.players =~= before.players.update(
                before.active_player_index,
                before.active_player().with_piece_replaced(
                    piece_index as int,
                    before.handed_back(piece_index as int, rotations),
                ),
            ));
            return Err(error);
        }
        if let Some(piece) = self.board.place_piece(piece, position, player_index, first_round)? {
            self.return_piece_to_list(piece_index, turns, piece);
            assert(self@.players =~= before.players.update(
                before.active_player_index,
                before.active_player().with_piece_replaced(
                    piece_index as int,
                    before.handed_back(piece_index as int, rotations),
                ),
            ));
            return Ok(false);
        }
        self.players.players[player_index].first_move = false;
        assert(self@.players =~= before.players.update(
            before.active_player_index,
            before.active_player().without_piece(piece_index as int).moved(),
        ));
        self.switch_to_next_player();
        Ok(true)
    }

    fn switch_to_next_player(&mut self)
        requires
            old(self)@.wf(),
        ensures
            final(self)@ == (GameView {
                active_player_index: PlayersView::seat_after(
                    old(self)@.active_player_index,
                    old(self)@.players.len() as int,
                ),
                ..old(self)@
            }),
    {
        self.players.switch_to_next_player()
    }

    fn return_piece_to_list(&mut self, piece_index: usize, turns: u16, piece: Piece)
        requires
            turns < 4,
            0 <= old(self)@.active_player_index < old(self)@.players.len(),
            piece_index <= old(self)@.active_player().available_pieces.len(),
        ensures
            final(self)@ == (GameView {
                players: old(self)@.players.update(
                    old(self)@.active_player_index,
                    old(self)@.active_player().with_piece(
                        piece_index as int,
                        piece@.rotated_times(((4 - turns) % 4) as nat),
                    ),
                ),
                ..old(self)@
            }),
    {
        let mut piece = piece;
        let back = (4 - turns) % 4;
        let ghost presented = piece@;
        let mut turned: u16 = 0;
        while turned < back
            invariant
                turned <= back,
                piece@ == presented.rotated_times(turned as nat),
            decreases back - turned,
        {
            piece.rotate();
            turned = turned + 1;
        }
        let player_index = self.players.active_player_index;
        self.players.players[player_index].insert_piece(piece_index, piece);
        assert(self@.players =~= old(self)@.players.update(
            old(self)@.active_player_index,
            old(self)@.active_player().with_piece(
                piece_index as int,
                presented.rotated_times(((4 - turns) % 4) as nat),
            ),
        ));
    }

    /// The board.
    pub fn board(&self) -> (board: &Board)
        ensures
            board@ == self@.board,
    {
        &self.board
    }
}

} // verus!
