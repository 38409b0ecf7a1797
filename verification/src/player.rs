use vstd::prelude::*;
use ratatui::style::Color;
use crate::piece::{Piece, PieceView};

verus! {

/// `ratatui::style::Color`, the colour in which a player is drawn. The engine
/// stores it and hands it back, and never looks inside.
#[verifier::external_type_specification]
#[verifier::external_body]
pub struct ExColor(ratatui::style::Color);

/// `Color::default()`: the colour that ratatui takes where none is chosen.
/// Nothing is claimed of it.
pub assume_specification[ <ratatui::style::Color as core::default::Default>::default ]() -> (color:
    ratatui::style::Color)
;

/// The view of every piece, in order.
pub open spec fn piece_views(pieces: Seq<Piece>) -> Seq<PieceView> {
    pieces.map_values(|piece: Piece| piece@)
}

/// The view of every player, in order.
pub open spec fn player_views(players: Seq<Player>) -> Seq<PlayerView> {
    players.map_values(|player: Player| player@)
}

/// What a player is, as plain values.
pub struct PlayerView {
    pub name: Seq<char>,
    pub color: Color,
    pub secondary_color: Color,
    /// The pieces still to be placed. Their order matters: a piece is
    /// referred to by its index.
    pub available_pieces: Seq<PieceView>,
    /// True until the player's first successful placement.
    pub first_move: bool,
}

impl PlayerView {
    /// The player without the piece at `index`, the others closing up.
    pub open spec fn without_piece(self, index: int) -> PlayerView {
        PlayerView { available_pieces: self.available_pieces.remove(index), ..self }
    }

    /// The player with `piece` put in at `index`, the later ones moving up.
    pub open spec fn with_piece(self, index: int, piece: PieceView) -> PlayerView {
        PlayerView { available_pieces: self.available_pieces.insert(index, piece), ..self }
    }

    /// The player with the piece at `index` replaced by `piece`.
    pub open spec fn with_piece_replaced(self, index: int, piece: PieceView) -> PlayerView {
        PlayerView { available_pieces: self.available_pieces.update(index, piece), ..self }
    }

    /// The player once the first move has been made.
    pub open spec fn moved(self) -> PlayerView {
        PlayerView { first_move: false, ..self }
    }
}

/// One of the players: who they are, how they are drawn, and the pieces
/// they have yet to place.
#[derive(PartialEq)]
pub struct Player {
    pub name: String,
    pub color: Color,
    pub secondary_color: Color,
    pub available_pieces: Vec<Piece>,
    pub first_move: bool,
}

impl View for Player {
    type V = PlayerView;

    open spec fn view(&self) -> PlayerView {
        PlayerView {
            name: self.name@,
            color: self.color,
            secondary_color: self.secondary_color,
            available_pieces: piece_views(self.available_pieces@),
            first_move: self.first_move,
        }
    }
}

impl Default for Player {
    fn default() -> (player: Player)
        ensures
            player@.name == Seq::<char>::empty(),
            player@.available_pieces == Seq::<PieceView>::empty(),
            !player@.first_move,
    {
        let player = Player {
            name: String::new(),
            color: Color::default(),
            secondary_color: Color::default(),
            available_pieces: Vec::new(),
            first_move: false,
        };
        assert(player@.available_pieces =~= Seq::<PieceView>::empty());
        player
    }
}

impl Player {
    /// A player who has yet to make the first move.
    pub fn new(
        name: String,
        color: Color,
        secondary_color: Color,
        available_pieces: Vec<Piece>,
    ) -> (player: Player)
        ensures
            player@ == (PlayerView {
                name: name@,
                color,
                secondary_color,
                available_pieces: piece_views(available_pieces@),
                first_move: true,
            }),
    {
        Player { name, color, secondary_color, available_pieces, first_move: true }
    }

    /// Takes the piece at `index` out of the inventory.
    pub fn take_piece(&mut self, index: usize) -> (piece: Piece)
        requires
            index < old(self)@.available_pieces.len(),
        ensures
            piece@ == old(self)@.available_pieces[index as int],
            final(self)@ == old(self)@.without_piece(index as int),
    {
        let piece = self.available_pieces.remove(index);
        assert(self@.available_pieces =~= old(self)@.available_pieces.remove(index as int));
        piece
    }

    /// Puts `piece` into the inventory at `index`.
    pub fn insert_piece(&mut self, index: usize, piece: Piece)
        requires
            index <= old(self)@.available_pieces.len(),
        ensures
            final(self)@ == old(self)@.with_piece(index as int, piece@),
    {
        self.available_pieces.insert(index, piece);
        assert(self@.available_pieces =~= old(self)@.available_pieces.insert(index as int, piece@));
    }
}

} // verus!
