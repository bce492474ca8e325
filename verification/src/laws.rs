//! The library's general laws, stated and proved over the specification
//! model: the legality filter only shrinks the move list and keeps only
//! king-safe moves; en-passant captures are generated exactly under their
//! conditions; castling moves are generated only under theirs.

use vstd::prelude::*;
use crate::attacks::candidate_seq;
use crate::attacks::in_check_now;
use crate::attacks::pawn_dir;
use crate::attacks::ray_seq;
use crate::attacks::step_move;
use crate::movegen::back_rank;
use crate::movegen::bishop_moves_seq;
use crate::movegen::castle_kingside_seq;
use crate::movegen::castle_queenside_seq;
use crate::movegen::en_passant_seq;
use crate::movegen::has_kingside_right;
use crate::movegen::has_queenside_right;
use crate::movegen::king_steps_seq;
use crate::movegen::knight_moves_seq;
use crate::movegen::legal_moves_spec;
use crate::movegen::lemma_filter_legal;
use crate::movegen::lemma_pseudo_moves_ok;
use crate::movegen::moves_from;
use crate::movegen::pawn_capture_moves_seq;
use crate::movegen::pawn_forward_one_seq;
use crate::movegen::pawn_forward_two_seq;
use crate::movegen::pawn_step_expanded;
use crate::movegen::pseudo_from;
use crate::movegen::pseudo_in_row;
use crate::movegen::pseudo_moves_spec;
use crate::movegen::promo_rank;
use crate::movegen::promotion_moves;
use crate::movegen::pseudo_upto_row;
use crate::movegen::queen_moves_seq;
use crate::movegen::rook_moves_seq;
use crate::moves::Move;
use crate::moves::MoveSideEffect;
use crate::moves::apply_move;
use crate::moves::double_pawn_push;
use crate::state::PieceType;
use crate::state::Player;
use crate::state::StateModel;
use crate::state::on_board;
use crate::state::sq_at;
use crate::state::wf_state;

verus! {

/// The move is an en-passant capture: it removes a piece from a square no
/// piece arrives at. Only the en-passant rule produces such a side effect.
pub open spec fn is_en_passant_capture(mv: Move) -> bool {
    mv.side_effect matches Some(MoveSideEffect::RemovePiece { .. })
}

/// The move is a castling move: it relocates a second piece (the rook).
/// Only the castling rule produces such a side effect.
pub open spec fn is_castling_move(mv: Move) -> bool {
    mv.side_effect matches Some(MoveSideEffect::MovePiece { .. })
}

/// Every move of the sequence is a plain relocation without side effect.
pub open spec fn all_plain(s: Seq<Move>) -> bool {
    forall|i: int| 0 <= i < s.len() ==> (#[trigger] s[i]).side_effect is None
}

proof fn lemma_plain_concat(a: Seq<Move>, b: Seq<Move>)
    requires
        all_plain(a),
        all_plain(b),
    ensures
        all_plain(a + b),
{
    assert forall|i: int| 0 <= i < (a + b).len() implies (#[trigger] (a + b)[i]).side_effect
        is None by {
        if i < a.len() {
            assert((a + b)[i] == a[i]);
        } else {
            assert((a + b)[i] == b[i - a.len()]);
        }
    }
}

/// A member of an all-plain sequence has no side effect.
proof fn lemma_plain_member(s: Seq<Move>, mv: Move)
    requires
        all_plain(s),
        s.contains(mv),
    ensures
        mv.side_effect is None,
{
    let i = choose|i: int| 0 <= i < s.len() && s[i] == mv;
    assert(s[i].side_effect is None);
}

proof fn lemma_contains_concat_split(a: Seq<Move>, b: Seq<Move>, mv: Move)
    requires
        (a + b).contains(mv),
    ensures
        a.contains(mv) || b.contains(mv),
{
    let i = choose|i: int| 0 <= i < (a + b).len() && (a + b)[i] == mv;
    if i < a.len() {
        assert(a[i] == mv);
    } else {
        assert(b[i - a.len()] == mv);
    }
}

proof fn lemma_contains_concat_left(a: Seq<Move>, b: Seq<Move>, mv: Move)
    requires
        a.contains(mv),
    ensures
        (a + b).contains(mv),
{
    let i = choose|i: int| 0 <= i < a.len() && a[i] == mv;
    assert((a + b)[i] == mv);
}

proof fn lemma_contains_concat_right(a: Seq<Move>, b: Seq<Move>, mv: Move)
    requires
        b.contains(mv),
    ensures
        (a + b).contains(mv),
{
    let i = choose|i: int| 0 <= i < b.len() && b[i] == mv;
    assert((a + b)[a.len() + i] == mv);
}

proof fn lemma_ray_plain(
    m: StateModel,
    owner: Player,
    fy: int,
    fx: int,
    y: int,
    x: int,
    dy: int,
    dx: int,
    fuel: nat,
)
    ensures
        all_plain(ray_seq(m, owner, fy, fx, y, x, dy, dx, fuel)),
    decreases fuel,
{
    if fuel > 0 {
        let o = y + dy;
        let p = x + dx;
        if on_board(o, p) {
            let t = sq_at(m, o, p).owner;
            if t == owner {
            } else if t != Player::Nobody {
                assert(all_plain(seq![step_move(fy, fx, o, p)]));
            } else {
                lemma_ray_plain(m, owner, fy, fx, o, p, dy, dx, (fuel - 1) as nat);
                assert(all_plain(seq![step_move(fy, fx, o, p)]));
                lemma_plain_concat(
                    seq![step_move(fy, fx, o, p)],
                    ray_seq(m, owner, fy, fx, o, p, dy, dx, (fuel - 1) as nat),
                );
            }
        }
    }
}

proof fn lemma_rook_plain(m: StateModel, owner: Player, y: int, x: int)
    ensures
        all_plain(rook_moves_seq(m, owner, y, x)),
{
    lemma_ray_plain(m, owner, y, x, y, x, 1, 0, 8);
    lemma_ray_plain(m, owner, y, x, y, x, -1, 0, 8);
    lemma_ray_plain(m, owner, y, x, y, x, 0, 1, 8);
    lemma_ray_plain(m, owner, y, x, y, x, 0, -1, 8);
    lemma_plain_concat(
        ray_seq(m, owner, y, x, y, x, 1, 0, 8),
        ray_seq(m, owner, y, x, y, x, -1, 0, 8),
    );
    lemma_plain_concat(
        ray_seq(m, owner, y, x, y, x, 1, 0, 8) + ray_seq(m, owner, y, x, y, x, -1, 0, 8),
        ray_seq(m, owner, y, x, y, x, 0, 1, 8),
    );
    lemma_plain_concat(
        ray_seq(m, owner, y, x, y, x, 1, 0, 8) + ray_seq(m, owner, y, x, y, x, -1, 0, 8) + ray_seq(
            m,
            owner,
            y,
            x,
            y,
            x,
            0,
            1,
            8,
        ),
        ray_seq(m, owner, y, x, y, x, 0, -1, 8),
    );
}

proof fn lemma_bishop_plain(m: StateModel, owner: Player, y: int, x: int)
    ensures
        all_plain(bishop_moves_seq(m, owner, y, x)),
{
    lemma_ray_plain(m, owner, y, x, y, x, 1, 1, 8);
    lemma_ray_plain(m, owner, y, x, y, x, -1, -1, 8);
    lemma_ray_plain(m, owner, y, x, y, x, 1, -1, 8);
    lemma_ray_plain(m, owner, y, x, y, x, -1, 1, 8);
    lemma_plain_concat(
        ray_seq(m, owner, y, x, y, x, 1, 1, 8),
        ray_seq(m, owner, y, x, y, x, -1, -1, 8),
    );
    lemma_plain_concat(
        ray_seq(m, owner, y, x, y, x, 1, 1, 8) + ray_seq(m, owner, y, x, y, x, -1, -1, 8),
        ray_seq(m, owner, y, x, y, x, 1, -1, 8),
    );
    lemma_plain_concat(
        ray_seq(m, owner, y, x, y, x, 1, 1, 8) + ray_seq(m, owner, y, x, y, x, -1, -1, 8) + ray_seq(
            m,
            owner,
            y,
            x,
            y,
            x,
            1,
            -1,
            8,
        ),
        ray_seq(m, owner, y, x, y, x, -1, 1, 8),
    );
}

proof fn lemma_queen_plain(m: StateModel, owner: Player, y: int, x: int)
    ensures
        all_plain(queen_moves_seq(m, owner, y, x)),
{
    lemma_rook_plain(m, owner, y, x);
    lemma_bishop_plain(m, owner, y, x);
    lemma_plain_concat(rook_moves_seq(m, owner, y, x), bishop_moves_seq(m, owner, y, x));
}

proof fn lemma_knight_plain(m: StateModel, owner: Player, y: int, x: int)
    ensures
        all_plain(knight_moves_seq(m, owner, y, x)),
{
    assert forall|i: int|
        0 <= i < knight_moves_seq(m, owner, y, x).len() implies (#[trigger] knight_moves_seq(
        m,
        owner,
        y,
        x,
    )[i]).side_effect is None by {
        assert(all_plain(candidate_seq(m, owner, y, x, y + 2, x - 1)));
        assert(all_plain(candidate_seq(m, owner, y, x, y + 2, x + 1)));
        assert(all_plain(candidate_seq(m, owner, y, x, y - 2, x - 1)));
        assert(all_plain(candidate_seq(m, owner, y, x, y - 2, x + 1)));
        assert(all_plain(candidate_seq(m, owner, y, x, y + 1, x - 2)));
        assert(all_plain(candidate_seq(m, owner, y, x, y + 1, x + 2)));
        assert(all_plain(candidate_seq(m, owner, y, x, y - 1, x - 2)));
        assert(all_plain(candidate_seq(m, owner, y, x, y - 1, x + 2)));
    }
}

#[verifier::rlimit(60)]
proof fn lemma_king_steps_plain(m: StateModel, owner: Player, y: int, x: int)
    ensures
        all_plain(king_steps_seq(m, owner, y, x)),
{
    assert forall|i: int|
        0 <= i < king_steps_seq(m, owner, y, x).len() implies (#[trigger] king_steps_seq(
        m,
        owner,
        y,
        x,
    )[i]).side_effect is None by {
        assert(all_plain(candidate_seq(m, owner, y, x, y - 1, x - 1)));
        assert(all_plain(candidate_seq(m, owner, y, x, y - 1, x)));
        assert(all_plain(candidate_seq(m, owner, y, x, y - 1, x + 1)));
        assert(all_plain(candidate_seq(m, owner, y, x, y, x - 1)));
        assert(all_plain(candidate_seq(m, owner, y, x, y, x + 1)));
        assert(all_plain(candidate_seq(m, owner, y, x, y + 1, x - 1)));
        assert(all_plain(candidate_seq(m, owner, y, x, y + 1, x)));
        assert(all_plain(candidate_seq(m, owner, y, x, y + 1, x + 1)));
    }
}

/// A pawn step (promotion choices included) is never an en-passant capture
/// nor a castling move.
proof fn lemma_step_expanded_member(owner: Player, fy: int, fx: int, ty: int, tx: int, mv: Move)
    requires
        pawn_step_expanded(owner, fy, fx, ty, tx).contains(mv),
    ensures
        !is_en_passant_capture(mv),
        !is_castling_move(mv),
{
    let s = pawn_step_expanded(owner, fy, fx, ty, tx);
    let i = choose|i: int| 0 <= i < s.len() && s[i] == mv;
    if ty == promo_rank(owner) {
        assert(s == promotion_moves(fy, fx, ty, tx));
        assert(s.len() == 4);
        assert(i == 0 || i == 1 || i == 2 || i == 3);
    } else {
        assert(s[0] == step_move(fy, fx, ty, tx));
    }
}

/// A member of one square's pseudo-legal moves that carries a `RemovePiece`
/// effect is the square's en-passant move; one that carries a `MovePiece`
/// effect is one of its castling moves. In both cases the square holds the
/// matching piece of the mover.
proof fn lemma_moves_from_classify(
    m: StateModel,
    player: Player,
    y: int,
    x: int,
    in_check: bool,
    opp_attacks: Seq<Move>,
    mv: Move,
)
    requires
        moves_from(m, player, y, x, in_check, opp_attacks).contains(mv),
    ensures
        is_en_passant_capture(mv) ==> sq_at(m, y, x).piece == PieceType::Pawn && sq_at(
            m,
            y,
            x,
        ).owner == player && en_passant_seq(m, player, y, x).contains(mv),
        is_castling_move(mv) ==> sq_at(m, y, x).piece == PieceType::King && sq_at(m, y, x).owner
            == player && (castle_kingside_seq(m, player, y, x, in_check, opp_attacks).contains(mv)
            || castle_queenside_seq(m, player, y, x, in_check, opp_attacks).contains(mv)),
{
    let s = moves_from(m, player, y, x, in_check, opp_attacks);
    let sq = sq_at(m, y, x);
    if sq.owner != player {
        assert(s.len() == 0);
        assert(false);
    } else {
        match sq.piece {
            PieceType::Rook => {
                lemma_rook_plain(m, player, y, x);
                lemma_plain_member(s, mv);
            },
            PieceType::Knight => {
                lemma_knight_plain(m, player, y, x);
                lemma_plain_member(s, mv);
            },
            PieceType::Bishop => {
                lemma_bishop_plain(m, player, y, x);
                lemma_plain_member(s, mv);
            },
            PieceType::Queen => {
                lemma_queen_plain(m, player, y, x);
                lemma_plain_member(s, mv);
            },
            PieceType::King => {
                let ka = king_steps_seq(m, player, y, x);
                let ck = castle_kingside_seq(m, player, y, x, in_check, opp_attacks);
                let cq = castle_queenside_seq(m, player, y, x, in_check, opp_attacks);
                lemma_contains_concat_split(ka + ck, cq, mv);
                if (ka + ck).contains(mv) {
                    lemma_contains_concat_split(ka, ck, mv);
                    if ka.contains(mv) {
                        lemma_king_steps_plain(m, player, y, x);
                        lemma_plain_member(ka, mv);
                    } else {
                        let i = choose|i: int| 0 <= i < ck.len() && ck[i] == mv;
                        assert(is_castling_move(mv));
                    }
                } else {
                    let i = choose|i: int| 0 <= i < cq.len() && cq[i] == mv;
                    assert(is_castling_move(mv));
                }
            },
            PieceType::Pawn => {
                let cl = pawn_capture_moves_seq(m, player, y, x, -1);
                let cr = pawn_capture_moves_seq(m, player, y, x, 1);
                let f1 = pawn_forward_one_seq(m, player, y, x);
                let f2 = pawn_forward_two_seq(m, player, y, x);
                let ep = en_passant_seq(m, player, y, x);
                lemma_contains_concat_split(cl + cr + f1 + f2, ep, mv);
                if (cl + cr + f1 + f2).contains(mv) {
                    lemma_contains_concat_split(cl + cr + f1, f2, mv);
                    if (cl + cr + f1).contains(mv) {
                        lemma_contains_concat_split(cl + cr, f1, mv);
                        if (cl + cr).contains(mv) {
                            lemma_contains_concat_split(cl, cr, mv);
                            if cl.contains(mv) {
                                lemma_step_expanded_member(
                                    player,
                                    y,
                                    x,
                                    y + pawn_dir(player),
                                    x - 1,
                                    mv,
                                );
                            } else {
                                lemma_step_expanded_member(
                                    player,
                                    y,
                                    x,
                                    y + pawn_dir(player),
                                    x + 1,
                                    mv,
                                );
                            }
                        } else {
                            lemma_step_expanded_member(player, y, x, y + pawn_dir(player), x, mv);
                        }
                    } else {
                        let i = choose|i: int| 0 <= i < f2.len() && f2[i] == mv;
                        assert(mv.side_effect is None);
                    }
                } else {
                    let i = choose|i: int| 0 <= i < ep.len() && ep[i] == mv;
                    assert(is_en_passant_capture(mv));
                }
            },
            PieceType::Empty => {
                assert(s.len() == 0);
                assert(false);
            },
        }
    }
}

/// Every pseudo-legal move comes from some square of the board.
proof fn lemma_in_row_source(m: StateModel, y: int, upto_x: int, mv: Move)
    requires
        0 <= upto_x <= 8,
        pseudo_in_row(m, y, upto_x).contains(mv),
    ensures
        exists|x: int| 0 <= x < upto_x && (#[trigger] pseudo_from(m, y, x)).contains(mv),
    decreases upto_x,
{
    if upto_x <= 0 {
        assert(pseudo_in_row(m, y, upto_x).len() == 0);
        assert(false);
    } else {
        lemma_contains_concat_split(
            pseudo_in_row(m, y, upto_x - 1),
            pseudo_from(m, y, upto_x - 1),
            mv,
        );
        if pseudo_in_row(m, y, upto_x - 1).contains(mv) {
            lemma_in_row_source(m, y, upto_x - 1, mv);
        } else {
            assert(pseudo_from(m, y, upto_x - 1).contains(mv));
        }
    }
}

proof fn lemma_pseudo_source(m: StateModel, mv: Move)
    requires
        pseudo_moves_spec(m).contains(mv),
    ensures
        exists|y: int, x: int|
            0 <= y < 8 && 0 <= x < 8 && (#[trigger] pseudo_from(m, y, x)).contains(mv),
{
    lemma_upto_source(m, 8, mv);
}

proof fn lemma_upto_source(m: StateModel, upto_y: int, mv: Move)
    requires
        0 <= upto_y <= 8,
        pseudo_upto_row(m, upto_y).contains(mv),
    ensures
        exists|y: int, x: int|
            0 <= y < upto_y && 0 <= x < 8 && (#[trigger] pseudo_from(m, y, x)).contains(mv),
    decreases upto_y,
{
    if upto_y <= 0 {
        assert(pseudo_upto_row(m, upto_y).len() == 0);
        assert(false);
    } else {
        lemma_contains_concat_split(
            pseudo_upto_row(m, upto_y - 1),
            pseudo_in_row(m, upto_y - 1, 8),
            mv,
        );
        if pseudo_upto_row(m, upto_y - 1).contains(mv) {
            lemma_upto_source(m, upto_y - 1, mv);
        } else {
            lemma_in_row_source(m, upto_y - 1, 8, mv);
        }
    }
}

/// Every move of one square's pseudo-legal moves appears in the full scan.
proof fn lemma_in_row_widen(m: StateModel, y: int, x: int, upto_x: int, mv: Move)
    requires
        0 <= x < upto_x <= 8,
        pseudo_from(m, y, x).contains(mv),
    ensures
        pseudo_in_row(m, y, upto_x).contains(mv),
    decreases upto_x,
{
    if upto_x == x + 1 {
        lemma_contains_concat_right(pseudo_in_row(m, y, x), pseudo_from(m, y, x), mv);
    } else {
        lemma_in_row_widen(m, y, x, upto_x - 1, mv);
        lemma_contains_concat_left(
            pseudo_in_row(m, y, upto_x - 1),
            pseudo_from(m, y, upto_x - 1),
            mv,
        );
    }
}

proof fn lemma_upto_widen(m: StateModel, y: int, upto_y: int, mv: Move)
    requires
        0 <= y < upto_y <= 8,
        pseudo_in_row(m, y, 8).contains(mv),
    ensures
        pseudo_upto_row(m, upto_y).contains(mv),
    decreases upto_y,
{
    if upto_y == y + 1 {
        lemma_contains_concat_right(pseudo_upto_row(m, y), pseudo_in_row(m, y, 8), mv);
    } else {
        lemma_upto_widen(m, y, upto_y - 1, mv);
        lemma_contains_concat_left(
            pseudo_upto_row(m, upto_y - 1),
            pseudo_in_row(m, upto_y - 1, 8),
            mv,
        );
    }
}

proof fn lemma_pseudo_contains(m: StateModel, y: int, x: int, mv: Move)
    requires
        0 <= y < 8,
        0 <= x < 8,
        pseudo_from(m, y, x).contains(mv),
    ensures
        pseudo_moves_spec(m).contains(mv),
{
    lemma_in_row_widen(m, y, x, 8, mv);
    lemma_upto_widen(m, y, 8, mv);
}

/// For every well-formed position, the number of legal moves is at most the
/// number of pseudo-legal moves.
pub proof fn lemma_legal_at_most_pseudo(m: StateModel)
    requires
        wf_state(m),
    ensures
        legal_moves_spec(m).len() <= pseudo_moves_spec(m).len(),
{
    lemma_pseudo_moves_ok(m);
    lemma_filter_legal(m, pseudo_moves_spec(m));
}

/// Applying any legal move never leaves the mover's own king attacked in the
/// resulting position.
pub proof fn lemma_legal_moves_safe(m: StateModel)
    requires
        wf_state(m),
    ensures
        forall|i: int|
            0 <= i < legal_moves_spec(m).len() ==> !in_check_now(
                apply_move(m, #[trigger] legal_moves_spec(m)[i]),
                m.player_to_move,
            ),
{
    lemma_pseudo_moves_ok(m);
    lemma_filter_legal(m, pseudo_moves_spec(m));
}

/// An en-passant capture is generated if and only if an en-passant target is
/// recorded and a pawn of the side to move stands on the matching rank,
/// adjacent in file to the target. (The square behind the target must lie on
/// the board, which holds of every target a double pawn push can record.)
pub proof fn lemma_en_passant_iff(m: StateModel)
    requires
        wf_state(m),
        m.en_passant_target matches Some(t) ==> 0 <= t.0 as int + pawn_dir(m.player_to_move) <= 7,
    ensures
        (exists|i: int|
            0 <= i < pseudo_moves_spec(m).len() && is_en_passant_capture(
                #[trigger] pseudo_moves_spec(m)[i],
            )) <==> (m.en_passant_target matches Some(t) && exists|x: int|
            0 <= x < 8 && (x == t.1 as int - 1 || x == t.1 as int + 1) && sq_at(
                m,
                t.0 as int,
                x,
            ).piece == PieceType::Pawn && sq_at(m, t.0 as int, x).owner == m.player_to_move),
{
    let player = m.player_to_move;
    let pseudo = pseudo_moves_spec(m);
    let in_check = in_check_now(m, player);
    let opp_attacks = attacks_of_opponent(m);

    if exists|i: int| 0 <= i < pseudo.len() && is_en_passant_capture(#[trigger] pseudo[i]) {
        let i = choose|i: int| 0 <= i < pseudo.len() && is_en_passant_capture(#[trigger] pseudo[i]);
        let mv = pseudo[i];
        assert(pseudo.contains(mv));
        lemma_pseudo_source(m, mv);
        let (y, x) = choose|y: int, x: int|
            0 <= y < 8 && 0 <= x < 8 && (#[trigger] pseudo_from(m, y, x)).contains(mv);
        lemma_moves_from_classify(m, player, y, x, in_check, opp_attacks, mv);
        let ep = en_passant_seq(m, player, y, x);
        let j = choose|j: int| 0 <= j < ep.len() && ep[j] == mv;
        assert(m.en_passant_target matches Some(t) && t.0 as int == y && (t.1 as int - 1 == x
            || t.1 as int + 1 == x));
        let t = m.en_passant_target->Some_0;
        assert(0 <= x < 8 && (x == t.1 as int - 1 || x == t.1 as int + 1) && sq_at(
            m,
            t.0 as int,
            x,
        ).piece == PieceType::Pawn && sq_at(m, t.0 as int, x).owner == player);
    }

    if m.en_passant_target matches Some(t) && exists|x: int|
        0 <= x < 8 && (x == t.1 as int - 1 || x == t.1 as int + 1) && sq_at(
            m,
            t.0 as int,
            x,
        ).piece == PieceType::Pawn && sq_at(m, t.0 as int, x).owner == player {
        let t = m.en_passant_target->Some_0;
        let x = choose|x: int|
            0 <= x < 8 && (x == t.1 as int - 1 || x == t.1 as int + 1) && sq_at(
                m,
                t.0 as int,
                x,
            ).piece == PieceType::Pawn && sq_at(m, t.0 as int, x).owner == player;
        let y = t.0 as int;
        let ep = en_passant_seq(m, player, y, x);
        assert(ep.len() == 1);
        let mv = ep[0];
        assert(ep.contains(mv));
        assert(is_en_passant_capture(mv));
        let cl = pawn_capture_moves_seq(m, player, y, x, -1);
        let cr = pawn_capture_moves_seq(m, player, y, x, 1);
        let f1 = pawn_forward_one_seq(m, player, y, x);
        let f2 = pawn_forward_two_seq(m, player, y, x);
        lemma_contains_concat_right(cl + cr + f1 + f2, ep, mv);
        assert(pseudo_from(m, y, x).contains(mv));
        lemma_pseudo_contains(m, y, x, mv);
        let i = choose|i: int| 0 <= i < pseudo.len() && pseudo[i] == mv;
        assert(is_en_passant_capture(pseudo[i]));
    }
}

/// The opponent's attack set, as the pseudo-legal scan supplies it.
pub open spec fn attacks_of_opponent(m: StateModel) -> Seq<Move> {
    crate::attacks::attacks_spec(m, crate::state::opponent(m.player_to_move))
}

/// Castling moves are generated only when the relevant rights flag of the
/// side to move is set, that side is not currently in check, and all squares
/// strictly between its king and the castling rook are empty. The move goes
/// from the king's origin square to column 6 (kingside) or 2 (queenside) of
/// the mover's back rank.
pub proof fn lemma_castling_only_if(m: StateModel)
    requires
        wf_state(m),
    ensures
        forall|i: int|
            0 <= i < pseudo_moves_spec(m).len() && is_castling_move(
                #[trigger] pseudo_moves_spec(m)[i],
            ) ==> !in_check_now(m, m.player_to_move) && pseudo_moves_spec(m)[i].from.0
                == back_rank(m.player_to_move) as usize && pseudo_moves_spec(m)[i].from.1 == 4
                && pseudo_moves_spec(m)[i].to.0 == back_rank(m.player_to_move) as usize && (
            pseudo_moves_spec(m)[i].to.1 == 6 || pseudo_moves_spec(m)[i].to.1 == 2) && (
            pseudo_moves_spec(m)[i].to.1 == 6 ==> has_kingside_right(m, m.player_to_move) && sq_at(
                m,
                back_rank(m.player_to_move),
                5,
            ).piece == PieceType::Empty && sq_at(m, back_rank(m.player_to_move), 6).piece
                == PieceType::Empty) && (pseudo_moves_spec(m)[i].to.1 == 2 ==> has_queenside_right(
                m,
                m.player_to_move,
            ) && sq_at(m, back_rank(m.player_to_move), 1).piece == PieceType::Empty && sq_at(
                m,
                back_rank(m.player_to_move),
                2,
            ).piece == PieceType::Empty && sq_at(m, back_rank(m.player_to_move), 3).piece
                == PieceType::Empty),
{
    let player = m.player_to_move;
    let pseudo = pseudo_moves_spec(m);
    let in_check = in_check_now(m, player);
    let opp_attacks = attacks_of_opponent(m);
    assert forall|i: int|
        0 <= i < pseudo.len() && is_castling_move(#[trigger] pseudo[i]) implies !in_check_now(
        m,
        player,
    ) && pseudo[i].from.0 == back_rank(player) as usize && pseudo[i].from.1 == 4 && pseudo[i].to.0
        == back_rank(player) as usize && (pseudo[i].to.1 == 6 || pseudo[i].to.1 == 2) && (
    pseudo[i].to.1 == 6 ==> has_kingside_right(m, player) && sq_at(m, back_rank(player), 5).piece
        == PieceType::Empty && sq_at(m, back_rank(player), 6).piece == PieceType::Empty) && (
    pseudo[i].to.1 == 2 ==> has_queenside_right(m, player) && sq_at(m, back_rank(player), 1).piece
        == PieceType::Empty && sq_at(m, back_rank(player), 2).piece == PieceType::Empty && sq_at(
        m,
        back_rank(player),
        3,
    ).piece == PieceType::Empty) by {
        let mv = pseudo[i];
        assert(pseudo.contains(mv));
        lemma_pseudo_source(m, mv);
        let (y, x) = choose|y: int, x: int|
            0 <= y < 8 && 0 <= x < 8 && (#[trigger] pseudo_from(m, y, x)).contains(mv);
        lemma_moves_from_classify(m, player, y, x, in_check, opp_attacks, mv);
        let ck = castle_kingside_seq(m, player, y, x, in_check, opp_attacks);
        let cq = castle_queenside_seq(m, player, y, x, in_check, opp_attacks);
        if ck.contains(mv) {
            let j = choose|j: int| 0 <= j < ck.len() && ck[j] == mv;
        } else {
            let j = choose|j: int| 0 <= j < cq.len() && cq[j] == mv;
        }
    }
}

/// The en-passant target lives for exactly one move: applying a move records
/// the pushed pawn's square exactly when the move is a double pawn push, and
/// clears any previously recorded target after every other move.
pub proof fn lemma_en_passant_lifecycle(m: StateModel, mv: Move)
    ensures
        double_pawn_push(m, mv) ==> apply_move(m, mv).en_passant_target == Some(
            (mv.to.0 as u8, mv.to.1 as u8),
        ),
        !double_pawn_push(m, mv) ==> apply_move(m, mv).en_passant_target is None,
{
}

} // verus!
