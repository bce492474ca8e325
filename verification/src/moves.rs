//! Moves and their side effects, and the move executor that applies a move
//! to a position.

use vstd::prelude::*;
use crate::state::GameState;
use crate::state::PieceType;
use crate::state::Player;
use crate::state::Square;
use crate::state::StateModel;
use crate::state::empty_square;
use crate::state::opponent;
use crate::state::sq_at;
use crate::state::square_ok;
use crate::state::swap_player_turn;
use crate::state::wf_state;

verus! {

/// A board change beyond relocating the moving piece.
#[derive(Clone, Copy, PartialEq, Eq, Debug)]
pub enum MoveSideEffect {
    /// Relocates a second piece (the castling rook).
    MovePiece { from: (usize, usize), to: (usize, usize) },
    /// Clears a square with no piece arriving there (the pawn captured en passant).
    RemovePiece { at: (usize, usize) },
    /// Places a newly created piece owned by the mover (a promotion piece).
    AddPiece { at: (usize, usize), piece: PieceType },
}

/// A move: a from-square and a to-square, both as (row, column), plus an
/// optional side effect.
#[derive(Clone, Copy, PartialEq, Eq, Debug)]
pub struct Move {
    pub from: (usize, usize),
    pub to: (usize, usize),
    pub side_effect: Option<MoveSideEffect>,
}

/// Update one square of a board model.
pub open spec fn board_set(board: Seq<Square>, at: (usize, usize), sq: Square) -> Seq<Square> {
    board.update(at.0 * 8 + at.1, sq)
}

/// The move's coordinates all lie on the board, and an `AddPiece` side effect
/// places a real piece for an actual mover, so that applying the move keeps
/// every square well formed.
pub open spec fn move_ok(m: StateModel, mv: Move) -> bool {
    &&& mv.from.0 < 8 && mv.from.1 < 8
    &&& mv.to.0 < 8 && mv.to.1 < 8
    &&& match mv.side_effect {
        None => true,
        Some(MoveSideEffect::MovePiece { from, to }) => from.0 < 8 && from.1 < 8 && to.0 < 8
            && to.1 < 8,
        Some(MoveSideEffect::RemovePiece { at }) => at.0 < 8 && at.1 < 8,
        Some(MoveSideEffect::AddPiece { at, piece }) => at.0 < 8 && at.1 < 8 && piece
            != PieceType::Empty && sq_at(m, mv.from.0 as int, mv.from.1 as int).owner
            != Player::Nobody,
    }
}

/// The board after the side effect, given the board as it stands after the
/// main relocation and the owner of the moving piece (read from the
/// from-square before it was cleared).
pub open spec fn apply_side_effect(board: Seq<Square>, effect: MoveSideEffect, mover: Player) -> Seq<
    Square,
> {
    match effect {
        MoveSideEffect::MovePiece { from, to } => {
            let pc = board[from.0 * 8 + from.1];
            board_set(board_set(board, to, pc), from, empty_square())
        },
        MoveSideEffect::RemovePiece { at } => board_set(board, at, empty_square()),
        MoveSideEffect::AddPiece { at, piece } => board_set(
            board,
            at,
            Square { piece, owner: mover },
        ),
    }
}

/// The move pushes a pawn two rows within its own column — the only move
/// that records an en-passant target.
pub open spec fn double_pawn_push(m: StateModel, mv: Move) -> bool {
    &&& sq_at(m, mv.from.0 as int, mv.from.1 as int).piece == PieceType::Pawn
    &&& mv.from.1 == mv.to.1
    &&& (mv.to.0 as int == mv.from.0 as int + 2 || mv.from.0 as int == mv.to.0 as int + 2)
}

/// The position after a move: the piece on the from-square is copied to the
/// to-square and the from-square is cleared, the side effect (if any) is
/// applied, the side to move toggles, and the en-passant target is recorded
/// exactly after a double pawn push (the pushed pawn's square) and cleared
/// after every other move — it lives for exactly the following move.
/// No legality checking happens here.
pub open spec fn apply_move(m: StateModel, mv: Move) -> StateModel {
    let pc = sq_at(m, mv.from.0 as int, mv.from.1 as int);
    let moved = board_set(board_set(m.board, mv.to, pc), mv.from, empty_square());
    let board = match mv.side_effect {
        None => moved,
        Some(effect) => apply_side_effect(moved, effect, pc.owner),
    };
    let target = if double_pawn_push(m, mv) {
        Some((mv.to.0 as u8, mv.to.1 as u8))
    } else {
        None
    };
    StateModel {
        board,
        player_to_move: opponent(m.player_to_move),
        en_passant_target: target,
        ..m
    }
}

/// Applying an in-bounds move to a well-formed position yields a well-formed
/// position.
pub proof fn lemma_apply_move_wf(m: StateModel, mv: Move)
    requires
        wf_state(m),
        move_ok(m, mv),
    ensures
        wf_state(apply_move(m, mv)),
{
    let m2 = apply_move(m, mv);
    assert(m2.board.len() == 64);
    assert forall|i: int| 0 <= i < 64 implies square_ok(#[trigger] m2.board[i]) by {
        assert(square_ok(m.board[i]));
        assert(square_ok(sq_at(m, mv.from.0 as int, mv.from.1 as int)));
        assert(square_ok(empty_square()));
    }
    assert(match m2.en_passant_target {
        Some(t) => t.0 < 8 && t.1 < 8,
        None => true,
    });
}

/// Apply a move to the position: relocate the moving piece, apply the side
/// effect, toggle the side to move, and record or clear the en-passant
/// target. This is a raw apply used both for real turns and for speculative
/// legality checks.
pub fn make_move(game_state: &mut Box<GameState>, mv: Move)
    requires
        wf_state(old(game_state)@),
        move_ok(old(game_state)@, mv),
    ensures
        final(game_state)@ == apply_move(old(game_state)@, mv),
{
    let ghost m0: StateModel = game_state@;
    let moving = game_state.square_at(mv.from.0, mv.from.1);
    let is_double_push = moving.piece == PieceType::Pawn && mv.from.1 == mv.to.1 && (mv.to.0
        == mv.from.0 + 2 || mv.from.0 == mv.to.0 + 2);
    proof {
        assert(square_ok(m0.board[mv.from.0 * 8 + mv.from.1]));
        assert(is_double_push == double_pawn_push(m0, mv));
    }
    game_state.set_piece_at(mv.to.0, mv.to.1, moving.piece, moving.owner);
    game_state.set_piece_at(mv.from.0, mv.from.1, PieceType::Empty, Player::Nobody);
    let ghost moved: Seq<Square> = board_set(board_set(m0.board, mv.to, moving), mv.from, empty_square());
    proof {
        assert(game_state@.board =~= moved);
    }

    match mv.side_effect {
        None => {},
        Some(MoveSideEffect::MovePiece { from, to }) => {
            let second = game_state.square_at(from.0, from.1);
            proof {
                assert(square_ok(m0.board[from.0 * 8 + from.1]));
                assert(square_ok(moved[from.0 * 8 + from.1]));
            }
            game_state.set_piece_at(to.0, to.1, second.piece, second.owner);
            game_state.set_piece_at(from.0, from.1, PieceType::Empty, Player::Nobody);
        },
        Some(MoveSideEffect::RemovePiece { at }) => {
            game_state.set_piece_at(at.0, at.1, PieceType::Empty, Player::Nobody);
        },
        Some(MoveSideEffect::AddPiece { at, piece }) => {
            game_state.set_piece_at(at.0, at.1, piece, moving.owner);
        },
    }

    swap_player_turn(game_state);
    game_state.en_passant_target = if is_double_push {
        Some((mv.to.0 as u8, mv.to.1 as u8))
    } else {
        None
    };
    proof {
        assert(game_state@.board =~= apply_move(m0, mv).board);
        assert(game_state@ =~= apply_move(m0, mv));
    }
}

} // verus!
