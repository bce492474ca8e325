//! The position data model: squares, ownership, castling rights and the full
//! game state, together with its mathematical model and well-formedness.

use vstd::prelude::*;

verus! {

/// The kind of piece standing on a square; `Empty` marks an empty square.
#[derive(Clone, Copy, PartialEq, Eq, Structural, Debug)]
pub enum PieceType {
    Empty,
    Pawn,
    Rook,
    Knight,
    Bishop,
    Queen,
    King,
}

/// The owner of a square; `Nobody` marks an empty square.
#[derive(Clone, Copy, PartialEq, Eq, Structural, Debug)]
pub enum Player {
    Nobody,
    White,
    Black,
}

/// One square of the board: a piece kind and its owner.
/// Well-formed squares pair `PieceType::Empty` exactly with `Player::Nobody`.
#[derive(Clone, Copy, PartialEq, Eq, Structural, Debug)]
pub struct Square {
    pub piece: PieceType,
    pub owner: Player,
}

/// The four independent castling-rights flags.
#[derive(Clone, Copy, PartialEq, Eq, Structural, Debug)]
pub struct CastlingRights {
    pub white_kingside: bool,
    pub white_queenside: bool,
    pub black_kingside: bool,
    pub black_queenside: bool,
}

/// The mathematical model of a position: the 64 squares in row-major order
/// (row 0 is the black back rank, column 0 the queenside rook's file),
/// the side to move, the castling rights, the optional en-passant target
/// square as (row, column) — the square of a pawn that just double-pushed,
/// present only immediately after that push and valid for exactly the
/// following move — and the two move counters.
#[verifier::ext_equal]
pub struct StateModel {
    pub board: Seq<Square>,
    pub player_to_move: Player,
    pub castling_rights: CastlingRights,
    pub en_passant_target: Option<(u8, u8)>,
    pub halfmove_counter: u16,
    pub fullmove_counter: u16,
}

/// A chess position: an 8x8 board stored row-major, the side to move,
/// castling rights, the optional en-passant target and the move counters.
#[derive(Clone, Copy, PartialEq, Eq, Debug)]
pub struct GameState {
    pub board: [Square; 64],
    pub player_to_move: Player,
    pub castling_rights: CastlingRights,
    pub en_passant_target: Option<(u8, u8)>,
    pub halfmove_counter: u16,
    pub fullmove_counter: u16,
}

impl View for GameState {
    type V = StateModel;

    open spec fn view(&self) -> StateModel {
        StateModel {
            board: self.board@,
            player_to_move: self.player_to_move,
            castling_rights: self.castling_rights,
            en_passant_target: self.en_passant_target,
            halfmove_counter: self.halfmove_counter,
            fullmove_counter: self.fullmove_counter,
        }
    }
}

/// An empty square.
pub open spec fn empty_square() -> Square {
    Square { piece: PieceType::Empty, owner: Player::Nobody }
}

/// A square is well formed when it is owned exactly if it holds a piece.
pub open spec fn square_ok(sq: Square) -> bool {
    (sq.owner == Player::Nobody) <==> (sq.piece == PieceType::Empty)
}

/// The square of the model at a (row, column) coordinate.
pub open spec fn sq_at(m: StateModel, row: int, col: int) -> Square {
    m.board[row * 8 + col]
}

/// A coordinate pair lies on the board.
pub open spec fn on_board(row: int, col: int) -> bool {
    0 <= row < 8 && 0 <= col < 8
}

/// The opposing player.
pub open spec fn opponent(p: Player) -> Player {
    match p {
        Player::White => Player::Black,
        Player::Black => Player::White,
        Player::Nobody => Player::Nobody,
    }
}

/// Well-formedness of a position: 64 squares, each pairing piece and owner
/// consistently, a real side to move, and an in-bounds en-passant target.
pub open spec fn wf_state(m: StateModel) -> bool {
    &&& m.board.len() == 64
    &&& forall|i: int| 0 <= i < 64 ==> square_ok(#[trigger] m.board[i])
    &&& m.player_to_move != Player::Nobody
    &&& match m.en_passant_target {
        Some(t) => t.0 < 8 && t.1 < 8,
        None => true,
    }
}

impl GameState {
    /// The square at a (row, column) coordinate of the board.
    pub fn square_at(&self, row: usize, col: usize) -> (r: Square)
        requires
            row < 8,
            col < 8,
        ensures
            r == sq_at(self@, row as int, col as int),
    {
        self.board[row * 8 + col]
    }

    /// Place a piece (or clear a square, when piece and owner are empty).
    pub fn set_piece_at(&mut self, row: usize, col: usize, piece: PieceType, owner: Player)
        requires
            row < 8,
            col < 8,
            (owner == Player::Nobody) <==> (piece == PieceType::Empty),
        ensures
            final(self)@ == (StateModel {
                board: old(self)@.board.update(row * 8 + col, (Square { piece, owner })),
                ..old(self)@
            }),
    {
        self.board[row * 8 + col] = Square { piece, owner };
        proof {
            assert(self@.board =~= old(self)@.board.update(row * 8 + col, Square { piece, owner }));
            assert(self@ =~= StateModel {
                board: old(self)@.board.update(row * 8 + col, Square { piece, owner }),
                ..old(self)@
            });
        }
    }

    /// The side to move.
    pub fn player_to_move(&self) -> (r: Player)
        ensures
            r == self@.player_to_move,
    {
        self.player_to_move
    }
}

/// Toggle the side to move.
pub fn swap_player_turn(game_state: &mut Box<GameState>)
    requires
        old(game_state)@.player_to_move != Player::Nobody,
    ensures
        final(game_state)@ == (StateModel {
            player_to_move: opponent(old(game_state)@.player_to_move),
            ..old(game_state)@
        }),
{
    if game_state.player_to_move == Player::Black {
        game_state.player_to_move = Player::White;
    } else {
        game_state.player_to_move = Player::Black;
    }
}

} // verus!
