//! Attack generation: for a given side, every square its pieces threaten.
//! Used exclusively for check detection and castling path safety, never to
//! produce playable moves. Sliding attacks extend along each ray until and
//! including the first occupied square — even one held by the attacker's own
//! side, which matters for king safety; knight and king attacks are the fixed
//! offset sets filtered to board bounds only; pawn attacks are the two
//! diagonal squares, and the forward pushes are not attacks.
//!
//! This module also holds the shared ray and offset walks the move generator
//! builds on, which — unlike attacks — stop before the mover's own pieces.

use vstd::prelude::*;
use crate::moves::Move;
use crate::moves::move_ok;
use crate::state::GameState;
use crate::state::PieceType;
use crate::state::Player;
use crate::state::StateModel;
use crate::state::on_board;
use crate::state::opponent;
use crate::state::sq_at;
use crate::state::wf_state;

verus! {

/// The direction a pawn travels: white pawns move toward row 0, black pawns
/// toward row 7.
pub open spec fn pawn_dir(owner: Player) -> int {
    if owner == Player::White {
        -1
    } else {
        1
    }
}

/// A plain relocation move with no side effect.
pub open spec fn step_move(fy: int, fx: int, ty: int, tx: int) -> Move {
    Move {
        from: (fy as usize, fx as usize),
        to: (ty as usize, tx as usize),
        side_effect: None,
    }
}

/// The playable moves of one sliding ray: starting beside (y, x) and walking
/// in direction (dy, dx), one move per empty square, one for the first
/// opposing piece, and nothing for or beyond the mover's own pieces.
/// All moves depart from the origin square (fy, fx).
pub open spec fn ray_seq(
    m: StateModel,
    owner: Player,
    fy: int,
    fx: int,
    y: int,
    x: int,
    dy: int,
    dx: int,
    fuel: nat,
) -> Seq<Move>
    decreases fuel,
{
    if fuel == 0 {
        Seq::empty()
    } else {
        let o = y + dy;
        let p = x + dx;
        if !on_board(o, p) {
            Seq::empty()
        } else {
            let t = sq_at(m, o, p).owner;
            if t == owner {
                Seq::empty()
            } else if t != Player::Nobody {
                seq![step_move(fy, fx, o, p)]
            } else {
                seq![step_move(fy, fx, o, p)] + ray_seq(
                    m,
                    owner,
                    fy,
                    fx,
                    o,
                    p,
                    dy,
                    dx,
                    (fuel - 1) as nat,
                )
            }
        }
    }
}

/// One sliding attack ray: starting beside (y, x) and walking in direction
/// (dy, dx), every square up to and including the first occupied one is
/// attacked — whoever owns the blocking piece.
pub open spec fn attack_ray_seq(
    m: StateModel,
    fy: int,
    fx: int,
    y: int,
    x: int,
    dy: int,
    dx: int,
    fuel: nat,
) -> Seq<Move>
    decreases fuel,
{
    if fuel == 0 {
        Seq::empty()
    } else {
        let o = y + dy;
        let p = x + dx;
        if !on_board(o, p) {
            Seq::empty()
        } else if sq_at(m, o, p).owner != Player::Nobody {
            seq![step_move(fy, fx, o, p)]
        } else {
            seq![step_move(fy, fx, o, p)] + attack_ray_seq(
                m,
                fy,
                fx,
                o,
                p,
                dy,
                dx,
                (fuel - 1) as nat,
            )
        }
    }
}

/// A single playable offset candidate (knight and king): the destination
/// square, kept when it lies on the board and is not occupied by the mover's
/// own piece.
pub open spec fn candidate_seq(m: StateModel, owner: Player, fy: int, fx: int, ty: int, tx: int) -> Seq<
    Move,
> {
    if on_board(ty, tx) && sq_at(m, ty, tx).owner != owner {
        seq![step_move(fy, fx, ty, tx)]
    } else {
        Seq::empty()
    }
}

/// A single attack offset (knight and king): the destination square, kept
/// whenever it lies on the board, whatever stands there.
pub open spec fn attack_candidate_seq(fy: int, fx: int, ty: int, tx: int) -> Seq<Move> {
    if on_board(ty, tx) {
        seq![step_move(fy, fx, ty, tx)]
    } else {
        Seq::empty()
    }
}

/// One diagonal pawn attack square, kept whenever it lies on the board.
pub open spec fn pawn_attack_square(owner: Player, y: int, x: int, dx: int) -> Seq<Move> {
    let o = y + pawn_dir(owner);
    let p = x + dx;
    if on_board(o, p) {
        seq![step_move(y, x, o, p)]
    } else {
        Seq::empty()
    }
}

/// Rook attacks: the four orthogonal attack rays.
pub open spec fn rook_attacks_seq(m: StateModel, y: int, x: int) -> Seq<Move> {
    attack_ray_seq(m, y, x, y, x, 1, 0, 8) + attack_ray_seq(m, y, x, y, x, -1, 0, 8)
        + attack_ray_seq(m, y, x, y, x, 0, 1, 8) + attack_ray_seq(m, y, x, y, x, 0, -1, 8)
}

/// Bishop attacks: the four diagonal attack rays.
pub open spec fn bishop_attacks_seq(m: StateModel, y: int, x: int) -> Seq<Move> {
    attack_ray_seq(m, y, x, y, x, 1, 1, 8) + attack_ray_seq(m, y, x, y, x, -1, -1, 8)
        + attack_ray_seq(m, y, x, y, x, 1, -1, 8) + attack_ray_seq(m, y, x, y, x, -1, 1, 8)
}

/// Queen attacks: the rook and bishop attack rays together.
pub open spec fn queen_attacks_seq(m: StateModel, y: int, x: int) -> Seq<Move> {
    rook_attacks_seq(m, y, x) + bishop_attacks_seq(m, y, x)
}

/// Knight attacks: the eight fixed offsets, filtered to the board.
pub open spec fn knight_attacks_seq(y: int, x: int) -> Seq<Move> {
    attack_candidate_seq(y, x, y + 2, x - 1) + attack_candidate_seq(y, x, y + 2, x + 1)
        + attack_candidate_seq(y, x, y - 2, x - 1) + attack_candidate_seq(y, x, y - 2, x + 1)
        + attack_candidate_seq(y, x, y + 1, x - 2) + attack_candidate_seq(y, x, y + 1, x + 2)
        + attack_candidate_seq(y, x, y - 1, x - 2) + attack_candidate_seq(y, x, y - 1, x + 2)
}

/// King attacks: the eight neighbouring squares, filtered to the board.
pub open spec fn king_attacks_seq(y: int, x: int) -> Seq<Move> {
    attack_candidate_seq(y, x, y - 1, x - 1) + attack_candidate_seq(y, x, y - 1, x)
        + attack_candidate_seq(y, x, y - 1, x + 1) + attack_candidate_seq(y, x, y, x - 1)
        + attack_candidate_seq(y, x, y, x + 1) + attack_candidate_seq(y, x, y + 1, x - 1)
        + attack_candidate_seq(y, x, y + 1, x) + attack_candidate_seq(y, x, y + 1, x + 1)
}

/// Pawn attacks: only the two diagonal capture squares; forward pushes are
/// not attacks.
pub open spec fn pawn_attacks_seq(owner: Player, y: int, x: int) -> Seq<Move> {
    pawn_attack_square(owner, y, x, -1) + pawn_attack_square(owner, y, x, 1)
}

/// Every attack of the piece on (y, x), when that piece belongs to `player`.
pub open spec fn attacks_from(m: StateModel, player: Player, y: int, x: int) -> Seq<Move> {
    let sq = sq_at(m, y, x);
    if sq.owner != player {
        Seq::empty()
    } else {
        match sq.piece {
            PieceType::Rook => rook_attacks_seq(m, y, x),
            PieceType::Knight => knight_attacks_seq(y, x),
            PieceType::Bishop => bishop_attacks_seq(m, y, x),
            PieceType::Queen => queen_attacks_seq(m, y, x),
            PieceType::King => king_attacks_seq(y, x),
            PieceType::Pawn => pawn_attacks_seq(player, y, x),
            PieceType::Empty => Seq::empty(),
        }
    }
}

/// The attacks contributed by row `y` up to (excluding) column `upto_x`.
pub open spec fn attacks_in_row(m: StateModel, player: Player, y: int, upto_x: int) -> Seq<Move>
    decreases upto_x,
{
    if upto_x <= 0 {
        Seq::empty()
    } else {
        attacks_in_row(m, player, y, upto_x - 1) + attacks_from(m, player, y, upto_x - 1)
    }
}

/// The attacks contributed by the rows up to (excluding) row `upto_y`.
pub open spec fn attacks_upto_row(m: StateModel, player: Player, upto_y: int) -> Seq<Move>
    decreases upto_y,
{
    if upto_y <= 0 {
        Seq::empty()
    } else {
        attacks_upto_row(m, player, upto_y - 1) + attacks_in_row(m, player, upto_y - 1, 8)
    }
}

/// Every square threatened by `player`'s pieces, scanned row-major.
pub open spec fn attacks_spec(m: StateModel, player: Player) -> Seq<Move> {
    attacks_upto_row(m, player, 8)
}

/// The attack set reaches the square (row, col).
pub open spec fn attacks_square(attacks: Seq<Move>, row: int, col: int) -> bool {
    exists|i: int|
        0 <= i < attacks.len() && (#[trigger] attacks[i]).to.0 == row && attacks[i].to.1 == col
}

/// The square `t` holds `player`'s king.
pub open spec fn is_king_square(m: StateModel, t: (usize, usize), player: Player) -> bool {
    sq_at(m, t.0 as int, t.1 as int).piece == PieceType::King && sq_at(
        m,
        t.0 as int,
        t.1 as int,
    ).owner == player
}

/// Some attack in the set targets a square holding `player`'s king.
pub open spec fn in_check_given(m: StateModel, player: Player, attacks: Seq<Move>) -> bool {
    exists|i: int| 0 <= i < attacks.len() && is_king_square(m, (#[trigger] attacks[i]).to, player)
}

/// `player` is in check in `m`: the opponent's attack set reaches the king.
pub open spec fn in_check_now(m: StateModel, player: Player) -> bool {
    in_check_given(m, player, attacks_spec(m, opponent(player)))
}

/// Every move of the sequence is in bounds for `m`.
pub open spec fn moves_ok(m: StateModel, s: Seq<Move>) -> bool {
    forall|i: int| 0 <= i < s.len() ==> move_ok(m, #[trigger] s[i])
}

/// Walk one playable sliding ray, appending its moves. Mirrors `ray_seq`.
pub(crate) fn ray_moves(
    game_state: &Box<GameState>,
    owner: Player,
    fy: usize,
    fx: usize,
    y: usize,
    x: usize,
    dy: isize,
    dx: isize,
    fuel: usize,
    moves: &mut Vec<Move>,
)
    requires
        wf_state(game_state@),
        fy < 8,
        fx < 8,
        y < 8,
        x < 8,
        -1 <= dy <= 1,
        -1 <= dx <= 1,
    ensures
        final(moves)@ == old(moves)@ + ray_seq(
            game_state@,
            owner,
            fy as int,
            fx as int,
            y as int,
            x as int,
            dy as int,
            dx as int,
            fuel as nat,
        ),
    decreases fuel,
{
    if fuel == 0 {
        assert(moves@ =~= old(moves)@ + Seq::<Move>::empty());
        return ;
    }
    let o = y as isize + dy;
    let p = x as isize + dx;
    if o < 0 || o > 7 || p < 0 || p > 7 {
        assert(moves@ =~= old(moves)@ + Seq::<Move>::empty());
        return ;
    }
    let oy = o as usize;
    let ox = p as usize;
    let target = game_state.square_at(oy, ox);
    if target.owner == owner {
        assert(moves@ =~= old(moves)@ + Seq::<Move>::empty());
        return ;
    }
    moves.push(Move { from: (fy, fx), to: (oy, ox), side_effect: None });
    if target.owner != Player::Nobody {
        assert(moves@ =~= old(moves)@ + seq![step_move(fy as int, fx as int, o as int, p as int)]);
        return ;
    }
    ray_moves(game_state, owner, fy, fx, oy, ox, dy, dx, fuel - 1, moves);
    proof {
        let full = ray_seq(
            game_state@,
            owner,
            fy as int,
            fx as int,
            y as int,
            x as int,
            dy as int,
            dx as int,
            fuel as nat,
        );
        let rest = ray_seq(
            game_state@,
            owner,
            fy as int,
            fx as int,
            o as int,
            p as int,
            dy as int,
            dx as int,
            (fuel - 1) as nat,
        );
        assert(full == seq![step_move(fy as int, fx as int, o as int, p as int)] + rest);
        assert(moves@ =~= old(moves)@ + full);
    }
}

/// Walk one attack ray, appending an attack for every square up to and
/// including the first occupied one. Mirrors `attack_ray_seq`.
fn attack_ray_moves(
    game_state: &Box<GameState>,
    fy: usize,
    fx: usize,
    y: usize,
    x: usize,
    dy: isize,
    dx: isize,
    fuel: usize,
    moves: &mut Vec<Move>,
)
    requires
        wf_state(game_state@),
        fy < 8,
        fx < 8,
        y < 8,
        x < 8,
        -1 <= dy <= 1,
        -1 <= dx <= 1,
    ensures
        final(moves)@ == old(moves)@ + attack_ray_seq(
            game_state@,
            fy as int,
            fx as int,
            y as int,
            x as int,
            dy as int,
            dx as int,
            fuel as nat,
        ),
    decreases fuel,
{
    if fuel == 0 {
        assert(moves@ =~= old(moves)@ + Seq::<Move>::empty());
        return ;
    }
    let o = y as isize + dy;
    let p = x as isize + dx;
    if o < 0 || o > 7 || p < 0 || p > 7 {
        assert(moves@ =~= old(moves)@ + Seq::<Move>::empty());
        return ;
    }
    let oy = o as usize;
    let ox = p as usize;
    let target = game_state.square_at(oy, ox);
    moves.push(Move { from: (fy, fx), to: (oy, ox), side_effect: None });
    if target.owner != Player::Nobody {
        assert(moves@ =~= old(moves)@ + seq![step_move(fy as int, fx as int, o as int, p as int)]);
        return ;
    }
    attack_ray_moves(game_state, fy, fx, oy, ox, dy, dx, fuel - 1, moves);
    proof {
        let full = attack_ray_seq(
            game_state@,
            fy as int,
            fx as int,
            y as int,
            x as int,
            dy as int,
            dx as int,
            fuel as nat,
        );
        let rest = attack_ray_seq(
            game_state@,
            fy as int,
            fx as int,
            o as int,
            p as int,
            dy as int,
            dx as int,
            (fuel - 1) as nat,
        );
        assert(full == seq![step_move(fy as int, fx as int, o as int, p as int)] + rest);
        assert(moves@ =~= old(moves)@ + full);
    }
}

/// Try one playable fixed offset (knight and king), appending the move when
/// the destination is on the board and not held by the mover's own piece.
/// Mirrors `candidate_seq`.
pub(crate) fn candidate_move(
    game_state: &Box<GameState>,
    owner: Player,
    y: usize,
    x: usize,
    dy: isize,
    dx: isize,
    moves: &mut Vec<Move>,
)
    requires
        wf_state(game_state@),
        y < 8,
        x < 8,
        -2 <= dy <= 2,
        -2 <= dx <= 2,
    ensures
        final(moves)@ == old(moves)@ + candidate_seq(
            game_state@,
            owner,
            y as int,
            x as int,
            y as int + dy as int,
            x as int + dx as int,
        ),
{
    let o = y as isize + dy;
    let p = x as isize + dx;
    if o < 0 || o > 7 || p < 0 || p > 7 {
        assert(moves@ =~= old(moves)@ + Seq::<Move>::empty());
        return ;
    }
    let oy = o as usize;
    let ox = p as usize;
    let target = game_state.square_at(oy, ox);
    if target.owner != owner {
        moves.push(Move { from: (y, x), to: (oy, ox), side_effect: None });
        assert(moves@ =~= old(moves)@ + seq![step_move(y as int, x as int, o as int, p as int)]);
    } else {
        assert(moves@ =~= old(moves)@ + Seq::<Move>::empty());
    }
}

/// Try one attack offset (knight and king), appending the attack whenever the
/// destination lies on the board. Mirrors `attack_candidate_seq`.
fn attack_candidate_move(y: usize, x: usize, dy: isize, dx: isize, moves: &mut Vec<Move>)
    requires
        y < 8,
        x < 8,
        -2 <= dy <= 2,
        -2 <= dx <= 2,
    ensures
        final(moves)@ == old(moves)@ + attack_candidate_seq(
            y as int,
            x as int,
            y as int + dy as int,
            x as int + dx as int,
        ),
{
    let o = y as isize + dy;
    let p = x as isize + dx;
    if o < 0 || o > 7 || p < 0 || p > 7 {
        assert(moves@ =~= old(moves)@ + Seq::<Move>::empty());
        return ;
    }
    moves.push(Move { from: (y, x), to: (o as usize, p as usize), side_effect: None });
    assert(moves@ =~= old(moves)@ + seq![step_move(y as int, x as int, o as int, p as int)]);
}

/// Append one diagonal pawn attack square, whenever it lies on the board.
/// Mirrors `pawn_attack_square`.
fn pawn_attack_move(owner: Player, y: usize, x: usize, dx: isize, moves: &mut Vec<Move>)
    requires
        y < 8,
        x < 8,
        -1 <= dx <= 1,
    ensures
        final(moves)@ == old(moves)@ + pawn_attack_square(owner, y as int, x as int, dx as int),
{
    let sign: isize = if owner == Player::White {
        -1
    } else {
        1
    };
    proof {
        assert(sign as int == pawn_dir(owner));
    }
    let o = y as isize + sign;
    let p = x as isize + dx;
    if o < 0 || o > 7 || p < 0 || p > 7 {
        assert(moves@ =~= old(moves)@ + Seq::<Move>::empty());
        return ;
    }
    moves.push(Move { from: (y, x), to: (o as usize, p as usize), side_effect: None });
    assert(moves@ =~= old(moves)@ + seq![step_move(y as int, x as int, o as int, p as int)]);
}

/// The squares a rook on (row y, column x) threatens. The owner does not
/// change the threatened squares; the parameter mirrors the move generators.
pub fn generate_rook_attacks(game_state: &Box<GameState>, owner: Player, x: usize, y: usize) -> (r:
    Vec<Move>)
    requires
        wf_state(game_state@),
        x < 8,
        y < 8,
    ensures
        r@ == rook_attacks_seq(game_state@, y as int, x as int),
{
    let _ = owner;
    let mut moves: Vec<Move> = Vec::new();
    attack_ray_moves(game_state, y, x, y, x, 1, 0, 8, &mut moves);
    attack_ray_moves(game_state, y, x, y, x, -1, 0, 8, &mut moves);
    attack_ray_moves(game_state, y, x, y, x, 0, 1, 8, &mut moves);
    attack_ray_moves(game_state, y, x, y, x, 0, -1, 8, &mut moves);
    proof {
        assert(moves@ =~= rook_attacks_seq(game_state@, y as int, x as int));
    }
    moves
}

/// The squares a bishop on (row y, column x) threatens.
pub fn generate_bishop_attacks(game_state: &Box<GameState>, owner: Player, x: usize, y: usize) -> (r:
    Vec<Move>)
    requires
        wf_state(game_state@),
        x < 8,
        y < 8,
    ensures
        r@ == bishop_attacks_seq(game_state@, y as int, x as int),
{
    let _ = owner;
    let mut moves: Vec<Move> = Vec::new();
    attack_ray_moves(game_state, y, x, y, x, 1, 1, 8, &mut moves);
    attack_ray_moves(game_state, y, x, y, x, -1, -1, 8, &mut moves);
    attack_ray_moves(game_state, y, x, y, x, 1, -1, 8, &mut moves);
    attack_ray_moves(game_state, y, x, y, x, -1, 1, 8, &mut moves);
    proof {
        assert(moves@ =~= bishop_attacks_seq(game_state@, y as int, x as int));
    }
    moves
}

/// The squares a queen on (row y, column x) threatens.
pub fn generate_queen_attacks(game_state: &Box<GameState>, owner: Player, x: usize, y: usize) -> (r:
    Vec<Move>)
    requires
        wf_state(game_state@),
        x < 8,
        y < 8,
    ensures
        r@ == queen_attacks_seq(game_state@, y as int, x as int),
{
    let mut moves = generate_rook_attacks(game_state, owner, x, y);
    let mut bishop = generate_bishop_attacks(game_state, owner, x, y);
    moves.append(&mut bishop);
    moves
}

/// The squares a knight on (row y, column x) threatens.
pub fn generate_knight_attacks(game_state: &Box<GameState>, owner: Player, x: usize, y: usize) -> (r:
    Vec<Move>)
    requires
        wf_state(game_state@),
        x < 8,
        y < 8,
    ensures
        r@ == knight_attacks_seq(y as int, x as int),
{
    let _ = (game_state, owner);
    let mut moves: Vec<Move> = Vec::new();
    attack_candidate_move(y, x, 2, -1, &mut moves);
    attack_candidate_move(y, x, 2, 1, &mut moves);
    attack_candidate_move(y, x, -2, -1, &mut moves);
    attack_candidate_move(y, x, -2, 1, &mut moves);
    attack_candidate_move(y, x, 1, -2, &mut moves);
    attack_candidate_move(y, x, 1, 2, &mut moves);
    attack_candidate_move(y, x, -1, -2, &mut moves);
    attack_candidate_move(y, x, -1, 2, &mut moves);
    proof {
        assert(moves@ =~= knight_attacks_seq(y as int, x as int));
    }
    moves
}

/// The squares a king on (row y, column x) threatens.
pub fn generate_king_attacks(game_state: &Box<GameState>, owner: Player, x: usize, y: usize) -> (r:
    Vec<Move>)
    requires
        wf_state(game_state@),
        x < 8,
        y < 8,
    ensures
        r@ == king_attacks_seq(y as int, x as int),
{
    let _ = (game_state, owner);
    let mut moves: Vec<Move> = Vec::new();
    attack_candidate_move(y, x, -1, -1, &mut moves);
    attack_candidate_move(y, x, -1, 0, &mut moves);
    attack_candidate_move(y, x, -1, 1, &mut moves);
    attack_candidate_move(y, x, 0, -1, &mut moves);
    attack_candidate_move(y, x, 0, 1, &mut moves);
    attack_candidate_move(y, x, 1, -1, &mut moves);
    attack_candidate_move(y, x, 1, 0, &mut moves);
    attack_candidate_move(y, x, 1, 1, &mut moves);
    proof {
        assert(moves@ =~= king_attacks_seq(y as int, x as int));
    }
    moves
}

/// The squares a pawn on (row y, column x) threatens: the two diagonal
/// capture squares only.
pub fn generate_pawn_attacks(game_state: &Box<GameState>, owner: Player, x: usize, y: usize) -> (r:
    Vec<Move>)
    requires
        wf_state(game_state@),
        x < 8,
        y < 8,
    ensures
        r@ == pawn_attacks_seq(owner, y as int, x as int),
{
    let _ = game_state;
    let mut moves: Vec<Move> = Vec::new();
    pawn_attack_move(owner, y, x, -1, &mut moves);
    pawn_attack_move(owner, y, x, 1, &mut moves);
    proof {
        assert(moves@ =~= pawn_attacks_seq(owner, y as int, x as int));
    }
    moves
}

/// Every square threatened by `player`'s pieces, scanning the board row-major.
pub fn generate_attacks(game_state: &Box<GameState>, player: Player) -> (r: Vec<Move>)
    requires
        wf_state(game_state@),
    ensures
        r@ == attacks_spec(game_state@, player),
{
    let mut attacks: Vec<Move> = Vec::new();
    let mut y: usize = 0;
    while y < 8
        invariant
            wf_state(game_state@),
            y <= 8,
            attacks@ == attacks_upto_row(game_state@, player, y as int),
        decreases 8 - y,
    {
        let mut x: usize = 0;
        while x < 8
            invariant
                wf_state(game_state@),
                y < 8,
                x <= 8,
                attacks@ == attacks_upto_row(game_state@, player, y as int) + attacks_in_row(
                    game_state@,
                    player,
                    y as int,
                    x as int,
                ),
            decreases 8 - x,
        {
            let square = game_state.square_at(y, x);
            if square.owner == player {
                let mut sub: Vec<Move> = match square.piece {
                    PieceType::Rook => generate_rook_attacks(game_state, player, x, y),
                    PieceType::Knight => generate_knight_attacks(game_state, player, x, y),
                    PieceType::Bishop => generate_bishop_attacks(game_state, player, x, y),
                    PieceType::Queen => generate_queen_attacks(game_state, player, x, y),
                    PieceType::King => generate_king_attacks(game_state, player, x, y),
                    PieceType::Pawn => generate_pawn_attacks(game_state, player, x, y),
                    PieceType::Empty => Vec::new(),
                };
                proof {
                    assert(sub@ == attacks_from(game_state@, player, y as int, x as int));
                }
                attacks.append(&mut sub);
            } else {
                proof {
                    assert(attacks_from(game_state@, player, y as int, x as int)
                        =~= Seq::<Move>::empty());
                }
            }
            proof {
                assert(attacks_in_row(game_state@, player, y as int, x as int + 1)
                    == attacks_in_row(game_state@, player, y as int, x as int) + attacks_from(
                    game_state@,
                    player,
                    y as int,
                    x as int,
                ));
                assert(attacks@ =~= attacks_upto_row(game_state@, player, y as int)
                    + attacks_in_row(game_state@, player, y as int, x as int + 1));
            }
            x = x + 1;
        }
        proof {
            assert(attacks_upto_row(game_state@, player, y as int + 1) == attacks_upto_row(
                game_state@,
                player,
                y as int,
            ) + attacks_in_row(game_state@, player, y as int, 8));
        }
        y = y + 1;
    }
    attacks
}

/// Does any move of the supplied attack set land on a square holding
/// `player`'s king? The caller supplies the opposing side's attack set.
pub fn is_in_check(game_state: &Box<GameState>, player: Player, moves: &Vec<Move>) -> (r: bool)
    requires
        wf_state(game_state@),
        forall|i: int|
            0 <= i < moves@.len() ==> (#[trigger] moves@[i]).to.0 < 8 && moves@[i].to.1 < 8,
    ensures
        r == in_check_given(game_state@, player, moves@),
{
    let mut i: usize = 0;
    while i < moves.len()
        invariant
            wf_state(game_state@),
            i <= moves@.len(),
            forall|j: int|
                0 <= j < moves@.len() ==> (#[trigger] moves@[j]).to.0 < 8 && moves@[j].to.1 < 8,
            forall|j: int|
                0 <= j < i ==> !is_king_square(game_state@, (#[trigger] moves@[j]).to, player),
        decreases moves@.len() - i,
    {
        let mv = moves[i];
        let square = game_state.square_at(mv.to.0, mv.to.1);
        if square.owner == player && square.piece == PieceType::King {
            proof {
                assert(is_king_square(game_state@, moves@[i as int].to, player));
            }
            return true;
        }
        i = i + 1;
    }
    false
}

/// Does any move of the attack set target the square (row, col)?
pub fn square_attacked(moves: &Vec<Move>, row: usize, col: usize) -> (r: bool)
    ensures
        r == attacks_square(moves@, row as int, col as int),
{
    let mut i: usize = 0;
    while i < moves.len()
        invariant
            i <= moves@.len(),
            forall|j: int|
                0 <= j < i ==> !((#[trigger] moves@[j]).to.0 == row && moves@[j].to.1 == col),
        decreases moves@.len() - i,
    {
        let mv = moves[i];
        if mv.to.0 == row && mv.to.1 == col {
            proof {
                assert(moves@[i as int].to.0 == row && moves@[i as int].to.1 == col);
            }
            return true;
        }
        i = i + 1;
    }
    false
}

/// Concatenation preserves in-bounds moves.
pub proof fn lemma_moves_ok_concat(m: StateModel, a: Seq<Move>, b: Seq<Move>)
    requires
        moves_ok(m, a),
        moves_ok(m, b),
    ensures
        moves_ok(m, a + b),
{
    assert forall|i: int| 0 <= i < (a + b).len() implies move_ok(m, #[trigger] (a + b)[i]) by {
        if i < a.len() {
            assert((a + b)[i] == a[i]);
        } else {
            assert((a + b)[i] == b[i - a.len()]);
        }
    }
}

/// Every playable ray move stays on the board.
pub proof fn lemma_ray_seq_ok(
    m: StateModel,
    owner: Player,
    fy: int,
    fx: int,
    y: int,
    x: int,
    dy: int,
    dx: int,
    fuel: nat,
)
    requires
        on_board(fy, fx),
        on_board(y, x),
    ensures
        moves_ok(m, ray_seq(m, owner, fy, fx, y, x, dy, dx, fuel)),
    decreases fuel,
{
    if fuel > 0 {
        let o = y + dy;
        let p = x + dx;
        if on_board(o, p) {
            let t = sq_at(m, o, p).owner;
            if t == owner {
            } else if t != Player::Nobody {
                assert(move_ok(m, step_move(fy, fx, o, p)));
            } else {
                lemma_ray_seq_ok(m, owner, fy, fx, o, p, dy, dx, (fuel - 1) as nat);
                assert(move_ok(m, step_move(fy, fx, o, p)));
                assert(moves_ok(m, seq![step_move(fy, fx, o, p)]));
                lemma_moves_ok_concat(
                    m,
                    seq![step_move(fy, fx, o, p)],
                    ray_seq(m, owner, fy, fx, o, p, dy, dx, (fuel - 1) as nat),
                );
            }
        }
    }
}

/// Every attack ray move stays on the board.
proof fn lemma_attack_ray_seq_ok(
    m: StateModel,
    fy: int,
    fx: int,
    y: int,
    x: int,
    dy: int,
    dx: int,
    fuel: nat,
)
    requires
        on_board(fy, fx),
        on_board(y, x),
    ensures
        moves_ok(m, attack_ray_seq(m, fy, fx, y, x, dy, dx, fuel)),
    decreases fuel,
{
    if fuel > 0 {
        let o = y + dy;
        let p = x + dx;
        if on_board(o, p) {
            if sq_at(m, o, p).owner != Player::Nobody {
                assert(move_ok(m, step_move(fy, fx, o, p)));
            } else {
                lemma_attack_ray_seq_ok(m, fy, fx, o, p, dy, dx, (fuel - 1) as nat);
                assert(move_ok(m, step_move(fy, fx, o, p)));
                assert(moves_ok(m, seq![step_move(fy, fx, o, p)]));
                lemma_moves_ok_concat(
                    m,
                    seq![step_move(fy, fx, o, p)],
                    attack_ray_seq(m, fy, fx, o, p, dy, dx, (fuel - 1) as nat),
                );
            }
        }
    }
}

/// A single playable offset candidate stays on the board.
pub proof fn lemma_candidate_seq_ok(
    m: StateModel,
    owner: Player,
    fy: int,
    fx: int,
    ty: int,
    tx: int,
)
    requires
        on_board(fy, fx),
    ensures
        moves_ok(m, candidate_seq(m, owner, fy, fx, ty, tx)),
{
    if on_board(ty, tx) && sq_at(m, ty, tx).owner != owner {
        assert(move_ok(m, step_move(fy, fx, ty, tx)));
    }
}

/// Every rook attack stays on the board.
pub proof fn lemma_rook_attacks_ok(m: StateModel, y: int, x: int)
    requires
        on_board(y, x),
    ensures
        moves_ok(m, rook_attacks_seq(m, y, x)),
{
    lemma_attack_ray_seq_ok(m, y, x, y, x, 1, 0, 8);
    lemma_attack_ray_seq_ok(m, y, x, y, x, -1, 0, 8);
    lemma_attack_ray_seq_ok(m, y, x, y, x, 0, 1, 8);
    lemma_attack_ray_seq_ok(m, y, x, y, x, 0, -1, 8);
    lemma_moves_ok_concat(
        m,
        attack_ray_seq(m, y, x, y, x, 1, 0, 8),
        attack_ray_seq(m, y, x, y, x, -1, 0, 8),
    );
    lemma_moves_ok_concat(
        m,
        attack_ray_seq(m, y, x, y, x, 1, 0, 8) + attack_ray_seq(m, y, x, y, x, -1, 0, 8),
        attack_ray_seq(m, y, x, y, x, 0, 1, 8),
    );
    lemma_moves_ok_concat(
        m,
        attack_ray_seq(m, y, x, y, x, 1, 0, 8) + attack_ray_seq(m, y, x, y, x, -1, 0, 8)
            + attack_ray_seq(m, y, x, y, x, 0, 1, 8),
        attack_ray_seq(m, y, x, y, x, 0, -1, 8),
    );
}

/// Every bishop attack stays on the board.
pub proof fn lemma_bishop_attacks_ok(m: StateModel, y: int, x: int)
    requires
        on_board(y, x),
    ensures
        moves_ok(m, bishop_attacks_seq(m, y, x)),
{
    lemma_attack_ray_seq_ok(m, y, x, y, x, 1, 1, 8);
    lemma_attack_ray_seq_ok(m, y, x, y, x, -1, -1, 8);
    lemma_attack_ray_seq_ok(m, y, x, y, x, 1, -1, 8);
    lemma_attack_ray_seq_ok(m, y, x, y, x, -1, 1, 8);
    lemma_moves_ok_concat(
        m,
        attack_ray_seq(m, y, x, y, x, 1, 1, 8),
        attack_ray_seq(m, y, x, y, x, -1, -1, 8),
    );
    lemma_moves_ok_concat(
        m,
        attack_ray_seq(m, y, x, y, x, 1, 1, 8) + attack_ray_seq(m, y, x, y, x, -1, -1, 8),
        attack_ray_seq(m, y, x, y, x, 1, -1, 8),
    );
    lemma_moves_ok_concat(
        m,
        attack_ray_seq(m, y, x, y, x, 1, 1, 8) + attack_ray_seq(m, y, x, y, x, -1, -1, 8)
            + attack_ray_seq(m, y, x, y, x, 1, -1, 8),
        attack_ray_seq(m, y, x, y, x, -1, 1, 8),
    );
}

/// Every queen attack stays on the board.
pub proof fn lemma_queen_attacks_ok(m: StateModel, y: int, x: int)
    requires
        on_board(y, x),
    ensures
        moves_ok(m, queen_attacks_seq(m, y, x)),
{
    lemma_rook_attacks_ok(m, y, x);
    lemma_bishop_attacks_ok(m, y, x);
    lemma_moves_ok_concat(m, rook_attacks_seq(m, y, x), bishop_attacks_seq(m, y, x));
}

/// Every knight attack stays on the board.
pub proof fn lemma_knight_attacks_ok(m: StateModel, y: int, x: int)
    requires
        on_board(y, x),
    ensures
        moves_ok(m, knight_attacks_seq(y, x)),
{
    assert forall|i: int|
        0 <= i < knight_attacks_seq(y, x).len() implies move_ok(
        m,
        #[trigger] knight_attacks_seq(y, x)[i],
    ) by {
        assert(moves_ok(m, attack_candidate_seq(y, x, y + 2, x - 1)));
        assert(moves_ok(m, attack_candidate_seq(y, x, y + 2, x + 1)));
        assert(moves_ok(m, attack_candidate_seq(y, x, y - 2, x - 1)));
        assert(moves_ok(m, attack_candidate_seq(y, x, y - 2, x + 1)));
        assert(moves_ok(m, attack_candidate_seq(y, x, y + 1, x - 2)));
        assert(moves_ok(m, attack_candidate_seq(y, x, y + 1, x + 2)));
        assert(moves_ok(m, attack_candidate_seq(y, x, y - 1, x - 2)));
        assert(moves_ok(m, attack_candidate_seq(y, x, y - 1, x + 2)));
    }
}

/// Every king one-step attack stays on the board.
#[verifier::rlimit(60)]
pub proof fn lemma_king_attacks_ok(m: StateModel, y: int, x: int)
    requires
        on_board(y, x),
    ensures
        moves_ok(m, king_attacks_seq(y, x)),
{
    assert forall|i: int|
        0 <= i < king_attacks_seq(y, x).len() implies move_ok(
        m,
        #[trigger] king_attacks_seq(y, x)[i],
    ) by {
        assert(moves_ok(m, attack_candidate_seq(y, x, y - 1, x - 1)));
        assert(moves_ok(m, attack_candidate_seq(y, x, y - 1, x)));
        assert(moves_ok(m, attack_candidate_seq(y, x, y - 1, x + 1)));
        assert(moves_ok(m, attack_candidate_seq(y, x, y, x - 1)));
        assert(moves_ok(m, attack_candidate_seq(y, x, y, x + 1)));
        assert(moves_ok(m, attack_candidate_seq(y, x, y + 1, x - 1)));
        assert(moves_ok(m, attack_candidate_seq(y, x, y + 1, x)));
        assert(moves_ok(m, attack_candidate_seq(y, x, y + 1, x + 1)));
    }
}

/// Every pawn attack stays on the board.
pub proof fn lemma_pawn_attacks_ok(m: StateModel, owner: Player, y: int, x: int)
    requires
        on_board(y, x),
    ensures
        moves_ok(m, pawn_attacks_seq(owner, y, x)),
{
    assert(moves_ok(m, pawn_attack_square(owner, y, x, -1)));
    assert(moves_ok(m, pawn_attack_square(owner, y, x, 1)));
    lemma_moves_ok_concat(
        m,
        pawn_attack_square(owner, y, x, -1),
        pawn_attack_square(owner, y, x, 1),
    );
}

/// Every attack of one square stays on the board.
pub proof fn lemma_attacks_from_ok(m: StateModel, player: Player, y: int, x: int)
    requires
        on_board(y, x),
    ensures
        moves_ok(m, attacks_from(m, player, y, x)),
{
    lemma_rook_attacks_ok(m, y, x);
    lemma_bishop_attacks_ok(m, y, x);
    lemma_queen_attacks_ok(m, y, x);
    lemma_knight_attacks_ok(m, y, x);
    lemma_king_attacks_ok(m, y, x);
    lemma_pawn_attacks_ok(m, player, y, x);
}

/// Every attack of the whole scan stays on the board.
pub proof fn lemma_attacks_spec_ok(m: StateModel, player: Player)
    ensures
        moves_ok(m, attacks_spec(m, player)),
{
    lemma_attacks_upto_row_ok(m, player, 8);
}

proof fn lemma_attacks_in_row_ok(m: StateModel, player: Player, y: int, upto_x: int)
    requires
        0 <= y < 8,
        upto_x <= 8,
    ensures
        moves_ok(m, attacks_in_row(m, player, y, upto_x)),
    decreases (if upto_x >= 0 { upto_x } else { 0 }),
{
    if upto_x > 0 {
        lemma_attacks_in_row_ok(m, player, y, upto_x - 1);
        lemma_attacks_from_ok(m, player, y, upto_x - 1);
        lemma_moves_ok_concat(
            m,
            attacks_in_row(m, player, y, upto_x - 1),
            attacks_from(m, player, y, upto_x - 1),
        );
    }
}

proof fn lemma_attacks_upto_row_ok(m: StateModel, player: Player, upto_y: int)
    requires
        upto_y <= 8,
    ensures
        moves_ok(m, attacks_upto_row(m, player, upto_y)),
    decreases (if upto_y >= 0 { upto_y } else { 0 }),
{
    if upto_y > 0 {
        lemma_attacks_upto_row_ok(m, player, upto_y - 1);
        lemma_attacks_in_row_ok(m, player, upto_y - 1, 8);
        lemma_moves_ok_concat(m, attacks_upto_row(m, player, upto_y - 1), attacks_in_row(m, player, upto_y - 1, 8));
    }
}

/// A playable ray yields at most one move per unit of fuel.
pub proof fn lemma_ray_seq_len(
    m: StateModel,
    owner: Player,
    fy: int,
    fx: int,
    y: int,
    x: int,
    dy: int,
    dx: int,
    fuel: nat,
)
    ensures
        ray_seq(m, owner, fy, fx, y, x, dy, dx, fuel).len() <= fuel,
    decreases fuel,
{
    if fuel > 0 {
        lemma_ray_seq_len(m, owner, fy, fx, y + dy, x + dx, dy, dx, (fuel - 1) as nat);
    }
}

} // verus!
