//! Pseudo-legal move generation (including double pushes, promotions,
//! en passant and castling) and the legality filter that discards moves
//! leaving the mover's own king attacked.

use vstd::prelude::*;
use crate::attacks::attacks_spec;
use crate::attacks::attacks_square;
use crate::attacks::candidate_move;
use crate::attacks::candidate_seq;
use crate::attacks::generate_attacks;
use crate::attacks::in_check_now;
use crate::attacks::is_in_check;
use crate::attacks::lemma_attacks_spec_ok;
use crate::attacks::lemma_candidate_seq_ok;
use crate::attacks::lemma_moves_ok_concat;
use crate::attacks::lemma_ray_seq_len;
use crate::attacks::lemma_ray_seq_ok;
use crate::attacks::moves_ok;
use crate::attacks::pawn_dir;
use crate::attacks::ray_moves;
use crate::attacks::ray_seq;
use crate::attacks::square_attacked;
use crate::attacks::step_move;
use crate::moves::Move;
use crate::moves::MoveSideEffect;
use crate::moves::apply_move;
use crate::moves::make_move;
use crate::moves::move_ok;
use crate::moves::lemma_apply_move_wf;
use crate::state::GameState;
use crate::state::PieceType;
use crate::state::Player;
use crate::state::StateModel;
use crate::state::on_board;
use crate::state::opponent;
use crate::state::sq_at;
use crate::state::wf_state;

verus! {

/// The rank on which a pawn of `owner` promotes.
pub open spec fn promo_rank(owner: Player) -> int {
    if owner == Player::White {
        0
    } else {
        7
    }
}

/// The rank on which a pawn of `owner` starts (and may double-push from).
pub open spec fn start_rank(owner: Player) -> int {
    if owner == Player::White {
        6
    } else {
        1
    }
}

/// The back rank of `owner`, where its king and rooks start.
pub open spec fn back_rank(owner: Player) -> int {
    if owner == Player::White {
        7
    } else {
        0
    }
}

/// Rook moves: the four orthogonal playable rays, which stop before the
/// mover's own pieces.
pub open spec fn rook_moves_seq(m: StateModel, owner: Player, y: int, x: int) -> Seq<Move> {
    ray_seq(m, owner, y, x, y, x, 1, 0, 8) + ray_seq(m, owner, y, x, y, x, -1, 0, 8) + ray_seq(
        m,
        owner,
        y,
        x,
        y,
        x,
        0,
        1,
        8,
    ) + ray_seq(m, owner, y, x, y, x, 0, -1, 8)
}

/// Bishop moves: the four diagonal playable rays.
pub open spec fn bishop_moves_seq(m: StateModel, owner: Player, y: int, x: int) -> Seq<Move> {
    ray_seq(m, owner, y, x, y, x, 1, 1, 8) + ray_seq(m, owner, y, x, y, x, -1, -1, 8) + ray_seq(
        m,
        owner,
        y,
        x,
        y,
        x,
        1,
        -1,
        8,
    ) + ray_seq(m, owner, y, x, y, x, -1, 1, 8)
}

/// Queen moves: the rook and bishop playable rays together.
pub open spec fn queen_moves_seq(m: StateModel, owner: Player, y: int, x: int) -> Seq<Move> {
    rook_moves_seq(m, owner, y, x) + bishop_moves_seq(m, owner, y, x)
}

/// Knight moves: the eight fixed offsets, kept when not held by an own piece.
pub open spec fn knight_moves_seq(m: StateModel, owner: Player, y: int, x: int) -> Seq<Move> {
    candidate_seq(m, owner, y, x, y + 2, x - 1) + candidate_seq(m, owner, y, x, y + 2, x + 1)
        + candidate_seq(m, owner, y, x, y - 2, x - 1) + candidate_seq(m, owner, y, x, y - 2, x + 1)
        + candidate_seq(m, owner, y, x, y + 1, x - 2) + candidate_seq(m, owner, y, x, y + 1, x + 2)
        + candidate_seq(m, owner, y, x, y - 1, x - 2) + candidate_seq(m, owner, y, x, y - 1, x + 2)
}

/// The king's one-step moves: the eight neighbouring squares, kept when not
/// held by an own piece.
pub open spec fn king_steps_seq(m: StateModel, owner: Player, y: int, x: int) -> Seq<Move> {
    candidate_seq(m, owner, y, x, y - 1, x - 1) + candidate_seq(m, owner, y, x, y - 1, x)
        + candidate_seq(m, owner, y, x, y - 1, x + 1) + candidate_seq(m, owner, y, x, y, x - 1)
        + candidate_seq(m, owner, y, x, y, x + 1) + candidate_seq(m, owner, y, x, y + 1, x - 1)
        + candidate_seq(m, owner, y, x, y + 1, x) + candidate_seq(m, owner, y, x, y + 1, x + 1)
}

/// A pawn move to the promotion rank, promoting into `piece`.
pub open spec fn promotion_move(fy: int, fx: int, ty: int, tx: int, piece: PieceType) -> Move {
    Move {
        from: (fy as usize, fx as usize),
        to: (ty as usize, tx as usize),
        side_effect: Some(MoveSideEffect::AddPiece { at: (ty as usize, tx as usize), piece }),
    }
}

/// The four promotion choices for one pawn step, one move each.
pub open spec fn promotion_moves(fy: int, fx: int, ty: int, tx: int) -> Seq<Move> {
    seq![
        promotion_move(fy, fx, ty, tx, PieceType::Rook),
        promotion_move(fy, fx, ty, tx, PieceType::Knight),
        promotion_move(fy, fx, ty, tx, PieceType::Bishop),
        promotion_move(fy, fx, ty, tx, PieceType::Queen),
    ]
}

/// One pawn step or capture, expanded into the four promotion moves when the
/// destination is the farthest rank from the pawn's start.
pub open spec fn pawn_step_expanded(owner: Player, fy: int, fx: int, ty: int, tx: int) -> Seq<
    Move,
> {
    if ty == promo_rank(owner) {
        promotion_moves(fy, fx, ty, tx)
    } else {
        seq![step_move(fy, fx, ty, tx)]
    }
}

/// One diagonal pawn capture as a playable move, with promotion choices
/// attached when it reaches the promotion rank.
pub open spec fn pawn_capture_moves_seq(m: StateModel, owner: Player, y: int, x: int, dx: int) -> Seq<
    Move,
> {
    let o = y + pawn_dir(owner);
    let p = x + dx;
    if on_board(o, p) && sq_at(m, o, p).owner != Player::Nobody && sq_at(m, o, p).owner != owner {
        pawn_step_expanded(owner, y, x, o, p)
    } else {
        Seq::empty()
    }
}

/// The one-step forward push, when the square ahead is empty, with promotion
/// choices attached when it reaches the promotion rank.
pub open spec fn pawn_forward_one_seq(m: StateModel, owner: Player, y: int, x: int) -> Seq<Move> {
    let o = y + pawn_dir(owner);
    if on_board(o, x) && sq_at(m, o, x).owner == Player::Nobody {
        pawn_step_expanded(owner, y, x, o, x)
    } else {
        Seq::empty()
    }
}

/// The two-step push from the pawn's starting rank, when both the
/// intermediate and the destination squares are empty.
pub open spec fn pawn_forward_two_seq(m: StateModel, owner: Player, y: int, x: int) -> Seq<Move> {
    let o1 = y + pawn_dir(owner);
    let o2 = y + 2 * pawn_dir(owner);
    if y == start_rank(owner) && on_board(o1, x) && on_board(o2, x) && sq_at(m, o1, x).owner
        == Player::Nobody && sq_at(m, o2, x).owner == Player::Nobody {
        seq![step_move(y, x, o2, x)]
    } else {
        Seq::empty()
    }
}

/// The en-passant capture: generated when a target is recorded and this pawn
/// stands on the matching rank, adjacent in file. The pawn moves to the
/// square just behind the target and the pawn on the target square is
/// removed.
pub open spec fn en_passant_seq(m: StateModel, owner: Player, y: int, x: int) -> Seq<Move> {
    match m.en_passant_target {
        None => Seq::empty(),
        Some(t) => {
            let ty = t.0 as int;
            let tx = t.1 as int;
            let o = ty + pawn_dir(owner);
            if ty == y && (tx - 1 == x || tx + 1 == x) && 0 <= o <= 7 {
                seq![
                    Move {
                        from: (y as usize, x as usize),
                        to: (o as usize, tx as usize),
                        side_effect: Some(
                            MoveSideEffect::RemovePiece { at: (ty as usize, tx as usize) },
                        ),
                    },
                ]
            } else {
                Seq::empty()
            }
        },
    }
}

/// Every playable pawn move: the two diagonal captures, the forward pushes,
/// and the en-passant capture, in that order.
pub open spec fn pawn_moves_seq(m: StateModel, owner: Player, y: int, x: int) -> Seq<Move> {
    pawn_capture_moves_seq(m, owner, y, x, -1) + pawn_capture_moves_seq(m, owner, y, x, 1)
        + pawn_forward_one_seq(m, owner, y, x) + pawn_forward_two_seq(m, owner, y, x)
        + en_passant_seq(m, owner, y, x)
}

/// The castling rights flag of `owner` on the given wing.
pub open spec fn has_kingside_right(m: StateModel, owner: Player) -> bool {
    if owner == Player::White {
        m.castling_rights.white_kingside
    } else {
        m.castling_rights.black_kingside
    }
}

/// The castling rights flag of `owner` on the queenside wing.
pub open spec fn has_queenside_right(m: StateModel, owner: Player) -> bool {
    if owner == Player::White {
        m.castling_rights.white_queenside
    } else {
        m.castling_rights.black_queenside
    }
}

/// The kingside castling move, generated only when the rights flag is set,
/// the king stands on its origin square and is not in check, the rook stands
/// on its origin square, the squares between them are empty, and the squares
/// the king crosses and lands on are not attacked.
pub open spec fn castle_kingside_seq(
    m: StateModel,
    owner: Player,
    y: int,
    x: int,
    in_check: bool,
    opp_attacks: Seq<Move>,
) -> Seq<Move> {
    let back = back_rank(owner);
    if y == back && x == 4 && !in_check && has_kingside_right(m, owner) && sq_at(
        m,
        back,
        5,
    ).piece == PieceType::Empty && sq_at(m, back, 6).piece == PieceType::Empty && sq_at(
        m,
        back,
        7,
    ).piece == PieceType::Rook && sq_at(m, back, 7).owner == owner && !attacks_square(
        opp_attacks,
        back,
        5,
    ) && !attacks_square(opp_attacks, back, 6) {
        seq![
            Move {
                from: (back as usize, 4),
                to: (back as usize, 6),
                side_effect: Some(
                    MoveSideEffect::MovePiece {
                        from: (back as usize, 7),
                        to: (back as usize, 5),
                    },
                ),
            },
        ]
    } else {
        Seq::empty()
    }
}

/// The queenside castling move, under the mirror conditions of the kingside
/// one (three empty squares; the king crosses columns 3 and 2).
pub open spec fn castle_queenside_seq(
    m: StateModel,
    owner: Player,
    y: int,
    x: int,
    in_check: bool,
    opp_attacks: Seq<Move>,
) -> Seq<Move> {
    let back = back_rank(owner);
    if y == back && x == 4 && !in_check && has_queenside_right(m, owner) && sq_at(
        m,
        back,
        1,
    ).piece == PieceType::Empty && sq_at(m, back, 2).piece == PieceType::Empty && sq_at(
        m,
        back,
        3,
    ).piece == PieceType::Empty && sq_at(m, back, 0).piece == PieceType::Rook && sq_at(
        m,
        back,
        0,
    ).owner == owner && !attacks_square(opp_attacks, back, 3) && !attacks_square(
        opp_attacks,
        back,
        2,
    ) {
        seq![
            Move {
                from: (back as usize, 4),
                to: (back as usize, 2),
                side_effect: Some(
                    MoveSideEffect::MovePiece {
                        from: (back as usize, 0),
                        to: (back as usize, 3),
                    },
                ),
            },
        ]
    } else {
        Seq::empty()
    }
}

/// Every playable king move: the one-step moves plus the castling moves.
pub open spec fn king_moves_seq(
    m: StateModel,
    owner: Player,
    y: int,
    x: int,
    in_check: bool,
    opp_attacks: Seq<Move>,
) -> Seq<Move> {
    king_steps_seq(m, owner, y, x) + castle_kingside_seq(m, owner, y, x, in_check, opp_attacks)
        + castle_queenside_seq(m, owner, y, x, in_check, opp_attacks)
}

/// Every pseudo-legal move of the piece on (y, x), when it belongs to
/// `player`. `in_check` and `opp_attacks` gate and guard castling.
pub open spec fn moves_from(
    m: StateModel,
    player: Player,
    y: int,
    x: int,
    in_check: bool,
    opp_attacks: Seq<Move>,
) -> Seq<Move> {
    let sq = sq_at(m, y, x);
    if sq.owner != player {
        Seq::empty()
    } else {
        match sq.piece {
            PieceType::Rook => rook_moves_seq(m, player, y, x),
            PieceType::Knight => knight_moves_seq(m, player, y, x),
            PieceType::Bishop => bishop_moves_seq(m, player, y, x),
            PieceType::Queen => queen_moves_seq(m, player, y, x),
            PieceType::King => king_moves_seq(m, player, y, x, in_check, opp_attacks),
            PieceType::Pawn => pawn_moves_seq(m, player, y, x),
            PieceType::Empty => Seq::empty(),
        }
    }
}

/// Every pseudo-legal move of the side to move from square (y, x).
pub open spec fn pseudo_from(m: StateModel, y: int, x: int) -> Seq<Move> {
    moves_from(
        m,
        m.player_to_move,
        y,
        x,
        in_check_now(m, m.player_to_move),
        attacks_spec(m, opponent(m.player_to_move)),
    )
}

/// The pseudo-legal moves contributed by row `y` up to (excluding) `upto_x`.
pub open spec fn pseudo_in_row(m: StateModel, y: int, upto_x: int) -> Seq<Move>
    decreases upto_x,
{
    if upto_x <= 0 {
        Seq::empty()
    } else {
        pseudo_in_row(m, y, upto_x - 1) + pseudo_from(m, y, upto_x - 1)
    }
}

/// The pseudo-legal moves contributed by the rows up to (excluding) `upto_y`.
pub open spec fn pseudo_upto_row(m: StateModel, upto_y: int) -> Seq<Move>
    decreases upto_y,
{
    if upto_y <= 0 {
        Seq::empty()
    } else {
        pseudo_upto_row(m, upto_y - 1) + pseudo_in_row(m, upto_y - 1, 8)
    }
}

/// Every pseudo-legal move of the side to move, scanned row-major.
pub open spec fn pseudo_moves_spec(m: StateModel) -> Seq<Move> {
    pseudo_upto_row(m, 8)
}

/// A move is king-safe when, after applying it, the original mover's king is
/// not attacked by the new side to move.
pub open spec fn king_safe(m: StateModel, mv: Move) -> bool {
    !in_check_now(apply_move(m, mv), m.player_to_move)
}

/// The king-safe subsequence of a move sequence.
pub open spec fn filter_legal(m: StateModel, s: Seq<Move>) -> Seq<Move>
    decreases s.len(),
{
    if s.len() == 0 {
        Seq::empty()
    } else {
        let prefix = filter_legal(m, s.drop_last());
        if king_safe(m, s.last()) {
            prefix + seq![s.last()]
        } else {
            prefix
        }
    }
}

/// The legal moves: the king-safe pseudo-legal moves.
pub open spec fn legal_moves_spec(m: StateModel) -> Seq<Move> {
    filter_legal(m, pseudo_moves_spec(m))
}

/// The rook's playable moves: its four rays, stopping before own pieces.
pub fn generate_rook_moves(game_state: &Box<GameState>, owner: Player, x: usize, y: usize) -> (r:
    Vec<Move>)
    requires
        wf_state(game_state@),
        x < 8,
        y < 8,
    ensures
        r@ == rook_moves_seq(game_state@, owner, y as int, x as int),
{
    let mut moves: Vec<Move> = Vec::new();
    ray_moves(game_state, owner, y, x, y, x, 1, 0, 8, &mut moves);
    ray_moves(game_state, owner, y, x, y, x, -1, 0, 8, &mut moves);
    ray_moves(game_state, owner, y, x, y, x, 0, 1, 8, &mut moves);
    ray_moves(game_state, owner, y, x, y, x, 0, -1, 8, &mut moves);
    proof {
        assert(moves@ =~= rook_moves_seq(game_state@, owner, y as int, x as int));
    }
    moves
}

/// The bishop's playable moves: its four rays, stopping before own pieces.
pub fn generate_bishop_moves(game_state: &Box<GameState>, owner: Player, x: usize, y: usize) -> (r:
    Vec<Move>)
    requires
        wf_state(game_state@),
        x < 8,
        y < 8,
    ensures
        r@ == bishop_moves_seq(game_state@, owner, y as int, x as int),
{
    let mut moves: Vec<Move> = Vec::new();
    ray_moves(game_state, owner, y, x, y, x, 1, 1, 8, &mut moves);
    ray_moves(game_state, owner, y, x, y, x, -1, -1, 8, &mut moves);
    ray_moves(game_state, owner, y, x, y, x, 1, -1, 8, &mut moves);
    ray_moves(game_state, owner, y, x, y, x, -1, 1, 8, &mut moves);
    proof {
        assert(moves@ =~= bishop_moves_seq(game_state@, owner, y as int, x as int));
    }
    moves
}

/// The knight's playable moves: the eight offsets, skipping own pieces.
pub fn generate_knight_moves(game_state: &Box<GameState>, owner: Player, x: usize, y: usize) -> (r:
    Vec<Move>)
    requires
        wf_state(game_state@),
        x < 8,
        y < 8,
    ensures
        r@ == knight_moves_seq(game_state@, owner, y as int, x as int),
{
    let mut moves: Vec<Move> = Vec::new();
    candidate_move(game_state, owner, y, x, 2, -1, &mut moves);
    candidate_move(game_state, owner, y, x, 2, 1, &mut moves);
    candidate_move(game_state, owner, y, x, -2, -1, &mut moves);
    candidate_move(game_state, owner, y, x, -2, 1, &mut moves);
    candidate_move(game_state, owner, y, x, 1, -2, &mut moves);
    candidate_move(game_state, owner, y, x, 1, 2, &mut moves);
    candidate_move(game_state, owner, y, x, -1, -2, &mut moves);
    candidate_move(game_state, owner, y, x, -1, 2, &mut moves);
    proof {
        assert(moves@ =~= knight_moves_seq(game_state@, owner, y as int, x as int));
    }
    moves
}

/// The queen's playable moves: the rook and bishop rays together.
pub fn generate_queen_moves(game_state: &Box<GameState>, owner: Player, x: usize, y: usize) -> (r:
    Vec<Move>)
    requires
        wf_state(game_state@),
        x < 8,
        y < 8,
    ensures
        r@ == queen_moves_seq(game_state@, owner, y as int, x as int),
{
    let mut moves = generate_rook_moves(game_state, owner, x, y);
    let mut bishop = generate_bishop_moves(game_state, owner, x, y);
    moves.append(&mut bishop);
    moves
}

/// Append one pawn step, expanding it into the four promotion moves when the
/// destination is the promotion rank. Mirrors `pawn_step_expanded`.
fn push_pawn_step(owner: Player, fy: usize, fx: usize, ty: usize, tx: usize, moves: &mut Vec<Move>)
    requires
        fy < 8,
        fx < 8,
        ty < 8,
        tx < 8,
    ensures
        final(moves)@ == old(moves)@ + pawn_step_expanded(
            owner,
            fy as int,
            fx as int,
            ty as int,
            tx as int,
        ),
{
    let pr: usize = if owner == Player::White {
        0
    } else {
        7
    };
    if ty == pr {
        moves.push(
            Move {
                from: (fy, fx),
                to: (ty, tx),
                side_effect: Some(
                    MoveSideEffect::AddPiece { at: (ty, tx), piece: PieceType::Rook },
                ),
            },
        );
        moves.push(
            Move {
                from: (fy, fx),
                to: (ty, tx),
                side_effect: Some(
                    MoveSideEffect::AddPiece { at: (ty, tx), piece: PieceType::Knight },
                ),
            },
        );
        moves.push(
            Move {
                from: (fy, fx),
                to: (ty, tx),
                side_effect: Some(
                    MoveSideEffect::AddPiece { at: (ty, tx), piece: PieceType::Bishop },
                ),
            },
        );
        moves.push(
            Move {
                from: (fy, fx),
                to: (ty, tx),
                side_effect: Some(
                    MoveSideEffect::AddPiece { at: (ty, tx), piece: PieceType::Queen },
                ),
            },
        );
        proof {
            assert(moves@ =~= old(moves)@ + promotion_moves(
                fy as int,
                fx as int,
                ty as int,
                tx as int,
            ));
        }
    } else {
        moves.push(Move { from: (fy, fx), to: (ty, tx), side_effect: None });
        proof {
            assert(moves@ =~= old(moves)@ + seq![
                step_move(fy as int, fx as int, ty as int, tx as int),
            ]);
        }
    }
}

/// Every playable pawn move: diagonal captures (with promotion choices),
/// forward pushes (with promotion choices), the double push from the starting
/// rank, and the en-passant capture.
pub fn generate_pawn_moves(game_state: &Box<GameState>, player: Player, x: usize, y: usize) -> (r:
    Vec<Move>)
    requires
        wf_state(game_state@),
        x < 8,
        y < 8,
    ensures
        r@ == pawn_moves_seq(game_state@, player, y as int, x as int),
{
    let ghost m = game_state@;
    let mut moves: Vec<Move> = Vec::new();

    let sign: isize = if player == Player::White {
        -1
    } else {
        1
    };
    proof {
        assert(sign as int == pawn_dir(player));
    }

    // Diagonal captures, left then right.
    let mut dxi: usize = 0;
    let dxs: [isize; 2] = [-1, 1];
    while dxi < 2
        invariant
            wf_state(m),
            game_state@ == m,
            y < 8,
            x < 8,
            dxi <= 2,
            sign as int == pawn_dir(player),
            dxs@ == seq![-1isize, 1isize],
            dxi == 0 ==> moves@ == Seq::<Move>::empty(),
            dxi == 1 ==> moves@ == pawn_capture_moves_seq(m, player, y as int, x as int, -1),
            dxi == 2 ==> moves@ == pawn_capture_moves_seq(m, player, y as int, x as int, -1)
                + pawn_capture_moves_seq(m, player, y as int, x as int, 1),
        decreases 2 - dxi,
    {
        let dx = dxs[dxi];
        let ghost before = moves@;
        let o = y as isize + sign;
        let p = x as isize + dx;
        if o >= 0 && o <= 7 && p >= 0 && p <= 7 {
            let target = game_state.square_at(o as usize, p as usize);
            if target.owner != Player::Nobody && target.owner != player {
                push_pawn_step(player, y, x, o as usize, p as usize, &mut moves);
            }
        }
        proof {
            assert(moves@ =~= before + pawn_capture_moves_seq(
                m,
                player,
                y as int,
                x as int,
                dx as int,
            ));
        }
        dxi = dxi + 1;
    }

    // Forward pushes: one step, then the double push from the starting rank.
    let ghost after_caps = moves@;
    let o1 = y as isize + sign;
    let mut one_clear = false;
    if o1 >= 0 && o1 <= 7 {
        let target = game_state.square_at(o1 as usize, x);
        if target.owner == Player::Nobody {
            push_pawn_step(player, y, x, o1 as usize, x, &mut moves);
            one_clear = true;
        }
    }
    proof {
        assert(moves@ =~= after_caps + pawn_forward_one_seq(m, player, y as int, x as int));
    }

    let ghost after_one = moves@;
    let start: usize = if player == Player::White {
        6
    } else {
        1
    };
    if one_clear && y == start {
        let o2 = y as isize + 2 * sign;
        if o2 >= 0 && o2 <= 7 {
            let target = game_state.square_at(o2 as usize, x);
            if target.owner == Player::Nobody {
                moves.push(Move { from: (y, x), to: (o2 as usize, x), side_effect: None });
            }
        }
    }
    proof {
        assert(moves@ =~= after_one + pawn_forward_two_seq(m, player, y as int, x as int));
    }

    // En passant.
    let ghost after_two = moves@;
    if let Some(t) = game_state.en_passant_target {
        let ty = t.0 as usize;
        let tx = t.1 as usize;
        if ty == y && (tx == x + 1 || tx + 1 == x) {
            let o = ty as isize + sign;
            if o >= 0 && o <= 7 {
                moves.push(
                    Move {
                        from: (y, x),
                        to: (o as usize, tx),
                        side_effect: Some(MoveSideEffect::RemovePiece { at: (ty, tx) }),
                    },
                );
            }
        }
    }
    proof {
        assert(moves@ =~= after_two + en_passant_seq(m, player, y as int, x as int));
        assert(moves@ =~= pawn_moves_seq(m, player, y as int, x as int));
    }

    moves
}

/// Every playable king move: the one-step moves, plus castling when the
/// rights flag is set, the king is not in check, the path is empty, the rook
/// is in place, and the crossed squares are not attacked.
pub fn generate_king_moves(
    game_state: &Box<GameState>,
    owner: Player,
    x: usize,
    y: usize,
    player_in_check: bool,
    opp_attacks: &Vec<Move>,
) -> (r: Vec<Move>)
    requires
        wf_state(game_state@),
        x < 8,
        y < 8,
    ensures
        r@ == king_moves_seq(
            game_state@,
            owner,
            y as int,
            x as int,
            player_in_check,
            opp_attacks@,
        ),
{
    let ghost m = game_state@;
    let mut moves: Vec<Move> = Vec::new();
    candidate_move(game_state, owner, y, x, -1, -1, &mut moves);
    candidate_move(game_state, owner, y, x, -1, 0, &mut moves);
    candidate_move(game_state, owner, y, x, -1, 1, &mut moves);
    candidate_move(game_state, owner, y, x, 0, -1, &mut moves);
    candidate_move(game_state, owner, y, x, 0, 1, &mut moves);
    candidate_move(game_state, owner, y, x, 1, -1, &mut moves);
    candidate_move(game_state, owner, y, x, 1, 0, &mut moves);
    candidate_move(game_state, owner, y, x, 1, 1, &mut moves);
    proof {
        assert(moves@ =~= king_steps_seq(m, owner, y as int, x as int));
    }

    let back: usize = if owner == Player::White {
        7
    } else {
        0
    };
    let kingside = if owner == Player::White {
        game_state.castling_rights.white_kingside
    } else {
        game_state.castling_rights.black_kingside
    };
    let queenside = if owner == Player::White {
        game_state.castling_rights.white_queenside
    } else {
        game_state.castling_rights.black_queenside
    };

    let ghost before_castles = moves@;
    if y == back && x == 4 && !player_in_check {
        if kingside {
            let f5 = game_state.square_at(back, 5);
            let f6 = game_state.square_at(back, 6);
            let rook = game_state.square_at(back, 7);
            if f5.piece == PieceType::Empty && f6.piece == PieceType::Empty && rook.piece
                == PieceType::Rook && rook.owner == owner && !square_attacked(opp_attacks, back, 5)
                && !square_attacked(opp_attacks, back, 6) {
                moves.push(
                    Move {
                        from: (back, 4),
                        to: (back, 6),
                        side_effect: Some(
                            MoveSideEffect::MovePiece { from: (back, 7), to: (back, 5) },
                        ),
                    },
                );
            }
        }
    }
    proof {
        assert(moves@ =~= before_castles + castle_kingside_seq(
            m,
            owner,
            y as int,
            x as int,
            player_in_check,
            opp_attacks@,
        ));
    }

    let ghost before_queenside = moves@;
    if y == back && x == 4 && !player_in_check {
        if queenside {
            let f1 = game_state.square_at(back, 1);
            let f2 = game_state.square_at(back, 2);
            let f3 = game_state.square_at(back, 3);
            let rook = game_state.square_at(back, 0);
            if f1.piece == PieceType::Empty && f2.piece == PieceType::Empty && f3.piece
                == PieceType::Empty && rook.piece == PieceType::Rook && rook.owner == owner
                && !square_attacked(opp_attacks, back, 3) && !square_attacked(opp_attacks, back, 2) {
                moves.push(
                    Move {
                        from: (back, 4),
                        to: (back, 2),
                        side_effect: Some(
                            MoveSideEffect::MovePiece { from: (back, 0), to: (back, 3) },
                        ),
                    },
                );
            }
        }
    }
    proof {
        assert(moves@ =~= before_queenside + castle_queenside_seq(
            m,
            owner,
            y as int,
            x as int,
            player_in_check,
            opp_attacks@,
        ));
        assert(moves@ =~= king_moves_seq(
            m,
            owner,
            y as int,
            x as int,
            player_in_check,
            opp_attacks@,
        ));
    }

    moves
}

/// Every pawn move stays on the board and promotes only occupied movers.
proof fn lemma_pawn_moves_ok(m: StateModel, owner: Player, y: int, x: int)
    requires
        wf_state(m),
        on_board(y, x),
        sq_at(m, y, x).owner == owner,
        owner != Player::Nobody,
    ensures
        moves_ok(m, pawn_moves_seq(m, owner, y, x)),
{
    let caps_l = pawn_capture_moves_seq(m, owner, y, x, -1);
    let caps_r = pawn_capture_moves_seq(m, owner, y, x, 1);
    let one = pawn_forward_one_seq(m, owner, y, x);
    let two = pawn_forward_two_seq(m, owner, y, x);
    let ep = en_passant_seq(m, owner, y, x);
    assert(moves_ok(m, caps_l));
    assert(moves_ok(m, caps_r));
    assert(moves_ok(m, one));
    assert(moves_ok(m, two));
    assert(moves_ok(m, ep));
    lemma_moves_ok_concat(m, caps_l, caps_r);
    lemma_moves_ok_concat(m, caps_l + caps_r, one);
    lemma_moves_ok_concat(m, caps_l + caps_r + one, two);
    lemma_moves_ok_concat(m, caps_l + caps_r + one + two, ep);
}

/// Every rook move stays on the board.
proof fn lemma_rook_moves_ok(m: StateModel, owner: Player, y: int, x: int)
    requires
        on_board(y, x),
    ensures
        moves_ok(m, rook_moves_seq(m, owner, y, x)),
{
    lemma_ray_seq_ok(m, owner, y, x, y, x, 1, 0, 8);
    lemma_ray_seq_ok(m, owner, y, x, y, x, -1, 0, 8);
    lemma_ray_seq_ok(m, owner, y, x, y, x, 0, 1, 8);
    lemma_ray_seq_ok(m, owner, y, x, y, x, 0, -1, 8);
    lemma_moves_ok_concat(
        m,
        ray_seq(m, owner, y, x, y, x, 1, 0, 8),
        ray_seq(m, owner, y, x, y, x, -1, 0, 8),
    );
    lemma_moves_ok_concat(
        m,
        ray_seq(m, owner, y, x, y, x, 1, 0, 8) + ray_seq(m, owner, y, x, y, x, -1, 0, 8),
        ray_seq(m, owner, y, x, y, x, 0, 1, 8),
    );
    lemma_moves_ok_concat(
        m,
        ray_seq(m, owner, y, x, y, x, 1, 0, 8) + ray_seq(m, owner, y, x, y, x, -1, 0, 8) + ray_seq(
            m,
            owner,
            y,
            x,
            y,
            x,
            0,
            1,
            8,
        ),
        ray_seq(m, owner, y, x, y, x, 0, -1, 8),
    );
}

/// Every bishop move stays on the board.
proof fn lemma_bishop_moves_ok(m: StateModel, owner: Player, y: int, x: int)
    requires
        on_board(y, x),
    ensures
        moves_ok(m, bishop_moves_seq(m, owner, y, x)),
{
    lemma_ray_seq_ok(m, owner, y, x, y, x, 1, 1, 8);
    lemma_ray_seq_ok(m, owner, y, x, y, x, -1, -1, 8);
    lemma_ray_seq_ok(m, owner, y, x, y, x, 1, -1, 8);
    lemma_ray_seq_ok(m, owner, y, x, y, x, -1, 1, 8);
    lemma_moves_ok_concat(
        m,
        ray_seq(m, owner, y, x, y, x, 1, 1, 8),
        ray_seq(m, owner, y, x, y, x, -1, -1, 8),
    );
    lemma_moves_ok_concat(
        m,
        ray_seq(m, owner, y, x, y, x, 1, 1, 8) + ray_seq(m, owner, y, x, y, x, -1, -1, 8),
        ray_seq(m, owner, y, x, y, x, 1, -1, 8),
    );
    lemma_moves_ok_concat(
        m,
        ray_seq(m, owner, y, x, y, x, 1, 1, 8) + ray_seq(m, owner, y, x, y, x, -1, -1, 8) + ray_seq(
            m,
            owner,
            y,
            x,
            y,
            x,
            1,
            -1,
            8,
        ),
        ray_seq(m, owner, y, x, y, x, -1, 1, 8),
    );
}

/// Every queen move stays on the board.
proof fn lemma_queen_moves_ok(m: StateModel, owner: Player, y: int, x: int)
    requires
        on_board(y, x),
    ensures
        moves_ok(m, queen_moves_seq(m, owner, y, x)),
{
    lemma_rook_moves_ok(m, owner, y, x);
    lemma_bishop_moves_ok(m, owner, y, x);
    lemma_moves_ok_concat(m, rook_moves_seq(m, owner, y, x), bishop_moves_seq(m, owner, y, x));
}

/// Every knight move stays on the board.
proof fn lemma_knight_moves_ok(m: StateModel, owner: Player, y: int, x: int)
    requires
        on_board(y, x),
    ensures
        moves_ok(m, knight_moves_seq(m, owner, y, x)),
{
    assert forall|i: int|
        0 <= i < knight_moves_seq(m, owner, y, x).len() implies move_ok(
        m,
        #[trigger] knight_moves_seq(m, owner, y, x)[i],
    ) by {
        lemma_candidate_seq_ok(m, owner, y, x, y + 2, x - 1);
        lemma_candidate_seq_ok(m, owner, y, x, y + 2, x + 1);
        lemma_candidate_seq_ok(m, owner, y, x, y - 2, x - 1);
        lemma_candidate_seq_ok(m, owner, y, x, y - 2, x + 1);
        lemma_candidate_seq_ok(m, owner, y, x, y + 1, x - 2);
        lemma_candidate_seq_ok(m, owner, y, x, y + 1, x + 2);
        lemma_candidate_seq_ok(m, owner, y, x, y - 1, x - 2);
        lemma_candidate_seq_ok(m, owner, y, x, y - 1, x + 2);
    }
}

/// Every king one-step move stays on the board.
#[verifier::rlimit(60)]
proof fn lemma_king_steps_ok(m: StateModel, owner: Player, y: int, x: int)
    requires
        on_board(y, x),
    ensures
        moves_ok(m, king_steps_seq(m, owner, y, x)),
{
    assert forall|i: int|
        0 <= i < king_steps_seq(m, owner, y, x).len() implies move_ok(
        m,
        #[trigger] king_steps_seq(m, owner, y, x)[i],
    ) by {
        lemma_candidate_seq_ok(m, owner, y, x, y - 1, x - 1);
        lemma_candidate_seq_ok(m, owner, y, x, y - 1, x);
        lemma_candidate_seq_ok(m, owner, y, x, y - 1, x + 1);
        lemma_candidate_seq_ok(m, owner, y, x, y, x - 1);
        lemma_candidate_seq_ok(m, owner, y, x, y, x + 1);
        lemma_candidate_seq_ok(m, owner, y, x, y + 1, x - 1);
        lemma_candidate_seq_ok(m, owner, y, x, y + 1, x);
        lemma_candidate_seq_ok(m, owner, y, x, y + 1, x + 1);
    }
}

/// Every king move (castling included) stays on the board.
proof fn lemma_king_moves_ok(
    m: StateModel,
    owner: Player,
    y: int,
    x: int,
    in_check: bool,
    opp_attacks: Seq<Move>,
)
    requires
        on_board(y, x),
    ensures
        moves_ok(m, king_moves_seq(m, owner, y, x, in_check, opp_attacks)),
{
    lemma_king_steps_ok(m, owner, y, x);
    let ck = castle_kingside_seq(m, owner, y, x, in_check, opp_attacks);
    let cq = castle_queenside_seq(m, owner, y, x, in_check, opp_attacks);
    assert(moves_ok(m, ck));
    assert(moves_ok(m, cq));
    lemma_moves_ok_concat(m, king_steps_seq(m, owner, y, x), ck);
    lemma_moves_ok_concat(m, king_steps_seq(m, owner, y, x) + ck, cq);
}

/// Every pseudo-legal move of one square stays on the board.
proof fn lemma_moves_from_ok(
    m: StateModel,
    player: Player,
    y: int,
    x: int,
    in_check: bool,
    opp_attacks: Seq<Move>,
)
    requires
        wf_state(m),
        on_board(y, x),
        player != Player::Nobody,
    ensures
        moves_ok(m, moves_from(m, player, y, x, in_check, opp_attacks)),
{
    lemma_rook_moves_ok(m, player, y, x);
    lemma_bishop_moves_ok(m, player, y, x);
    lemma_queen_moves_ok(m, player, y, x);
    lemma_knight_moves_ok(m, player, y, x);
    lemma_king_moves_ok(m, player, y, x, in_check, opp_attacks);
    if sq_at(m, y, x).owner == player {
        lemma_pawn_moves_ok(m, player, y, x);
    }
}

proof fn lemma_pseudo_in_row_ok(m: StateModel, y: int, upto_x: int)
    requires
        wf_state(m),
        0 <= y < 8,
        upto_x <= 8,
    ensures
        moves_ok(m, pseudo_in_row(m, y, upto_x)),
    decreases (if upto_x >= 0 { upto_x } else { 0 }),
{
    if upto_x > 0 {
        lemma_pseudo_in_row_ok(m, y, upto_x - 1);
        lemma_moves_from_ok(
            m,
            m.player_to_move,
            y,
            upto_x - 1,
            in_check_now(m, m.player_to_move),
            attacks_spec(m, opponent(m.player_to_move)),
        );
        lemma_moves_ok_concat(m, pseudo_in_row(m, y, upto_x - 1), pseudo_from(m, y, upto_x - 1));
    }
}

proof fn lemma_pseudo_upto_row_ok(m: StateModel, upto_y: int)
    requires
        wf_state(m),
        upto_y <= 8,
    ensures
        moves_ok(m, pseudo_upto_row(m, upto_y)),
    decreases (if upto_y >= 0 { upto_y } else { 0 }),
{
    if upto_y > 0 {
        lemma_pseudo_upto_row_ok(m, upto_y - 1);
        lemma_pseudo_in_row_ok(m, upto_y - 1, 8);
        lemma_moves_ok_concat(m, pseudo_upto_row(m, upto_y - 1), pseudo_in_row(m, upto_y - 1, 8));
    }
}

/// Every pseudo-legal move of a well-formed position stays on the board and
/// can be applied without breaking well-formedness.
pub proof fn lemma_pseudo_moves_ok(m: StateModel)
    requires
        wf_state(m),
    ensures
        moves_ok(m, pseudo_moves_spec(m)),
{
    lemma_pseudo_upto_row_ok(m, 8);
}

/// The legality filter keeps a subsequence: its result is never longer, all
/// its moves are in bounds when the input's are, and every kept move is
/// king-safe.
pub proof fn lemma_filter_legal(m: StateModel, s: Seq<Move>)
    requires
        moves_ok(m, s),
    ensures
        filter_legal(m, s).len() <= s.len(),
        moves_ok(m, filter_legal(m, s)),
        forall|i: int|
            0 <= i < filter_legal(m, s).len() ==> king_safe(m, #[trigger] filter_legal(m, s)[i]),
    decreases s.len(),
{
    if s.len() > 0 {
        assert(moves_ok(m, s.drop_last()));
        lemma_filter_legal(m, s.drop_last());
        if king_safe(m, s.last()) {
            assert(move_ok(m, s.last()));
            let prefix = filter_legal(m, s.drop_last());
            assert forall|i: int|
                0 <= i < (prefix + seq![s.last()]).len() implies move_ok(
                m,
                #[trigger] (prefix + seq![s.last()])[i],
            ) && king_safe(m, (prefix + seq![s.last()])[i]) by {
                if i < prefix.len() {
                    assert((prefix + seq![s.last()])[i] == prefix[i]);
                } else {
                    assert((prefix + seq![s.last()])[i] == s.last());
                }
            }
        }
    }
}

/// Every pseudo-legal move of the side to move: compute the opponent's
/// attacks, decide whether the side to move is in check (which gates
/// castling), and scan the board row-major, generating each piece's moves.
pub fn generate_pseudo_legal_moves(game_state: &Box<GameState>) -> (r: Vec<Move>)
    requires
        wf_state(game_state@),
    ensures
        r@ == pseudo_moves_spec(game_state@),
{
    let ghost m = game_state@;
    let player = game_state.player_to_move;
    let opp = if player == Player::Black {
        Player::White
    } else {
        Player::Black
    };
    proof {
        assert(opp == opponent(player));
    }

    let opp_attacks = generate_attacks(game_state, opp);
    proof {
        lemma_attacks_spec_ok(m, opp);
    }
    let player_in_check = is_in_check(game_state, player, &opp_attacks);
    proof {
        assert(player_in_check == in_check_now(m, player));
    }

    let mut moves: Vec<Move> = Vec::new();
    let mut y: usize = 0;
    while y < 8
        invariant
            wf_state(m),
            game_state@ == m,
            player == m.player_to_move,
            player_in_check == in_check_now(m, player),
            opp_attacks@ == attacks_spec(m, opponent(player)),
            y <= 8,
            moves@ == pseudo_upto_row(m, y as int),
        decreases 8 - y,
    {
        let mut x: usize = 0;
        while x < 8
            invariant
                wf_state(m),
                game_state@ == m,
                player == m.player_to_move,
                player_in_check == in_check_now(m, player),
                opp_attacks@ == attacks_spec(m, opponent(player)),
                y < 8,
                x <= 8,
                moves@ == pseudo_upto_row(m, y as int) + pseudo_in_row(m, y as int, x as int),
            decreases 8 - x,
        {
            let square = game_state.square_at(y, x);
            if square.owner == player {
                let mut sub: Vec<Move> = match square.piece {
                    PieceType::Rook => generate_rook_moves(game_state, player, x, y),
                    PieceType::Knight => generate_knight_moves(game_state, player, x, y),
                    PieceType::Bishop => generate_bishop_moves(game_state, player, x, y),
                    PieceType::Queen => generate_queen_moves(game_state, player, x, y),
                    PieceType::King => generate_king_moves(
                        game_state,
                        player,
                        x,
                        y,
                        player_in_check,
                        &opp_attacks,
                    ),
                    PieceType::Pawn => generate_pawn_moves(game_state, player, x, y),
                    PieceType::Empty => Vec::new(),
                };
                proof {
                    assert(sub@ == pseudo_from(m, y as int, x as int));
                }
                moves.append(&mut sub);
            } else {
                proof {
                    assert(pseudo_from(m, y as int, x as int) =~= Seq::<Move>::empty());
                }
            }
            proof {
                assert(pseudo_in_row(m, y as int, x as int + 1) == pseudo_in_row(
                    m,
                    y as int,
                    x as int,
                ) + pseudo_from(m, y as int, x as int));
                assert(moves@ =~= pseudo_upto_row(m, y as int) + pseudo_in_row(
                    m,
                    y as int,
                    x as int + 1,
                ));
            }
            x = x + 1;
        }
        proof {
            assert(pseudo_upto_row(m, y as int + 1) == pseudo_upto_row(m, y as int) + pseudo_in_row(
                m,
                y as int,
                8,
            ));
        }
        y = y + 1;
    }
    proof {
        assert(moves@ == pseudo_moves_spec(m));
    }
    moves
}

/// Every legal move: the pseudo-legal moves of the side to move, without
/// those that leave the mover's own king attacked. Each candidate is applied
/// to a copy of the position and discarded when the reply attacks reach the
/// mover's king.
pub fn generate_legal_moves(game_state: &Box<GameState>) -> (r: Vec<Move>)
    requires
        wf_state(game_state@),
    ensures
        r@ == legal_moves_spec(game_state@),
{
    let ghost m = game_state@;
    let player = game_state.player_to_move;
    let moves = generate_pseudo_legal_moves(game_state);
    proof {
        lemma_pseudo_moves_ok(m);
    }

    // Keep only the moves that do not leave the mover's own king attacked:
    // apply each to a copy and look for the king in the reply attacks.
    let mut final_moves: Vec<Move> = Vec::new();
    let mut i: usize = 0;
    while i < moves.len()
        invariant
            wf_state(m),
            game_state@ == m,
            player == m.player_to_move,
            moves@ == pseudo_moves_spec(m),
            moves_ok(m, moves@),
            i <= moves@.len(),
            final_moves@ == filter_legal(m, moves@.take(i as int)),
        decreases moves@.len() - i,
    {
        let mv = moves[i];
        let mut tmp_game_state: Box<GameState> = Box::new(**game_state);
        proof {
            assert(move_ok(m, mv));
        }
        make_move(&mut tmp_game_state, mv);
        proof {
            lemma_apply_move_wf(m, mv);
            assert(tmp_game_state@ == apply_move(m, mv));
        }
        let tmp_attacks = generate_attacks(&tmp_game_state, tmp_game_state.player_to_move);
        proof {
            lemma_attacks_spec_ok(tmp_game_state@, tmp_game_state@.player_to_move);
        }
        if !is_in_check(&tmp_game_state, player, &tmp_attacks) {
            final_moves.push(mv);
        }
        proof {
            let m2 = apply_move(m, mv);
            assert(m2.player_to_move == opponent(player));
            assert(moves@.take(i as int + 1).drop_last() =~= moves@.take(i as int));
            assert(moves@.take(i as int + 1).last() == mv);
            assert(final_moves@ =~= filter_legal(m, moves@.take(i as int + 1)));
        }
        i = i + 1;
    }
    proof {
        assert(moves@.take(moves@.len() as int) =~= moves@);
    }
    final_moves
}

/// A pawn has at most 14 pseudo-legal moves from one square.
proof fn lemma_pawn_moves_len(m: StateModel, owner: Player, y: int, x: int)
    ensures
        pawn_moves_seq(m, owner, y, x).len() <= 14,
{
    assert(pawn_capture_moves_seq(m, owner, y, x, -1).len() <= 4);
    assert(pawn_capture_moves_seq(m, owner, y, x, 1).len() <= 4);
    assert(pawn_forward_one_seq(m, owner, y, x).len() <= 4);
    assert(pawn_forward_two_seq(m, owner, y, x).len() <= 1);
    assert(en_passant_seq(m, owner, y, x).len() <= 1);
}

/// A king has at most 10 pseudo-legal moves from one square.
proof fn lemma_king_moves_len(
    m: StateModel,
    owner: Player,
    y: int,
    x: int,
    in_check: bool,
    opp_attacks: Seq<Move>,
)
    ensures
        king_moves_seq(m, owner, y, x, in_check, opp_attacks).len() <= 10,
{
    assert(king_steps_seq(m, owner, y, x).len() <= 8);
    assert(castle_kingside_seq(m, owner, y, x, in_check, opp_attacks).len() <= 1);
    assert(castle_queenside_seq(m, owner, y, x, in_check, opp_attacks).len() <= 1);
}

/// A rook has at most 32 playable moves from one square.
proof fn lemma_rook_moves_len(m: StateModel, owner: Player, y: int, x: int)
    ensures
        rook_moves_seq(m, owner, y, x).len() <= 32,
{
    lemma_ray_seq_len(m, owner, y, x, y, x, 1, 0, 8);
    lemma_ray_seq_len(m, owner, y, x, y, x, -1, 0, 8);
    lemma_ray_seq_len(m, owner, y, x, y, x, 0, 1, 8);
    lemma_ray_seq_len(m, owner, y, x, y, x, 0, -1, 8);
}

/// A bishop has at most 32 playable moves from one square.
proof fn lemma_bishop_moves_len(m: StateModel, owner: Player, y: int, x: int)
    ensures
        bishop_moves_seq(m, owner, y, x).len() <= 32,
{
    lemma_ray_seq_len(m, owner, y, x, y, x, 1, 1, 8);
    lemma_ray_seq_len(m, owner, y, x, y, x, -1, -1, 8);
    lemma_ray_seq_len(m, owner, y, x, y, x, 1, -1, 8);
    lemma_ray_seq_len(m, owner, y, x, y, x, -1, 1, 8);
}

/// No piece contributes more than 64 pseudo-legal moves from one square.
pub proof fn lemma_moves_from_len(
    m: StateModel,
    player: Player,
    y: int,
    x: int,
    in_check: bool,
    opp_attacks: Seq<Move>,
)
    ensures
        moves_from(m, player, y, x, in_check, opp_attacks).len() <= 64,
{
    let sq = sq_at(m, y, x);
    if sq.owner == player {
        match sq.piece {
            PieceType::Rook => {
                lemma_rook_moves_len(m, player, y, x);
            },
            PieceType::Bishop => {
                lemma_bishop_moves_len(m, player, y, x);
            },
            PieceType::Queen => {
                lemma_rook_moves_len(m, player, y, x);
                lemma_bishop_moves_len(m, player, y, x);
            },
            PieceType::Knight => {
                assert(knight_moves_seq(m, player, y, x).len() <= 8);
            },
            PieceType::King => {
                lemma_king_moves_len(m, player, y, x, in_check, opp_attacks);
            },
            PieceType::Pawn => {
                lemma_pawn_moves_len(m, player, y, x);
            },
            PieceType::Empty => {
            },
        }
    }
}

proof fn lemma_pseudo_in_row_len(m: StateModel, y: int, upto_x: int)
    requires
        0 <= upto_x,
    ensures
        pseudo_in_row(m, y, upto_x).len() <= 64 * upto_x,
    decreases upto_x,
{
    if upto_x > 0 {
        lemma_pseudo_in_row_len(m, y, upto_x - 1);
        lemma_moves_from_len(
            m,
            m.player_to_move,
            y,
            upto_x - 1,
            in_check_now(m, m.player_to_move),
            attacks_spec(m, opponent(m.player_to_move)),
        );
    }
}

proof fn lemma_pseudo_upto_row_len(m: StateModel, upto_y: int)
    requires
        0 <= upto_y,
    ensures
        pseudo_upto_row(m, upto_y).len() <= 512 * upto_y,
    decreases upto_y,
{
    if upto_y > 0 {
        lemma_pseudo_upto_row_len(m, upto_y - 1);
        lemma_pseudo_in_row_len(m, upto_y - 1, 8);
    }
}

/// A position never has more than 4096 pseudo-legal moves.
pub proof fn lemma_pseudo_moves_len(m: StateModel)
    ensures
        pseudo_moves_spec(m).len() <= 4096,
{
    lemma_pseudo_upto_row_len(m, 8);
}

/// The legality filter never lengthens the move list (for any input list,
/// well formed or not).
pub proof fn lemma_filter_legal_len(m: StateModel, s: Seq<Move>)
    ensures
        filter_legal(m, s).len() <= s.len(),
    decreases s.len(),
{
    if s.len() > 0 {
        lemma_filter_legal_len(m, s.drop_last());
    }
}

/// A position never has more than 4096 legal moves.
pub proof fn lemma_legal_moves_len(m: StateModel)
    ensures
        legal_moves_spec(m).len() <= 4096,
{
    lemma_pseudo_moves_len(m);
    lemma_filter_legal_len(m, pseudo_moves_spec(m));
}

} // verus!
