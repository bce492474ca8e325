use xadreis::attacks::generate_attacks;
use xadreis::attacks::generate_rook_attacks;
use xadreis::attacks::is_in_check;
use xadreis::fen::fen_to_game_state;
use xadreis::movegen::generate_legal_moves;
use xadreis::movegen::generate_pseudo_legal_moves;
use xadreis::moves::Move;
use xadreis::moves::MoveSideEffect;
use xadreis::moves::make_move;
use xadreis::state::GameState;
use xadreis::state::PieceType;
use xadreis::state::Player;

const START_FEN: &str = "rnbqkbnr/pppppppp/8/8/8/8/PPPPPPPP/RNBQKBNR w KQkq - 0 1";

fn boxed(fen: &str) -> Box<GameState> {
    Box::new(fen_to_game_state(fen).unwrap())
}

#[test]
fn start_position_has_twenty_legal_moves() {
    let gs = boxed(START_FEN);
    let legal = generate_legal_moves(&gs);
    assert_eq!(legal.len(), 20);
    // 16 pawn moves and 4 knight moves.
    let pawn_moves = legal
        .iter()
        .filter(|mv| gs.square_at(mv.from.0, mv.from.1).piece == PieceType::Pawn)
        .count();
    let knight_moves = legal
        .iter()
        .filter(|mv| gs.square_at(mv.from.0, mv.from.1).piece == PieceType::Knight)
        .count();
    assert_eq!(pawn_moves, 16);
    assert_eq!(knight_moves, 4);
}

#[test]
fn legal_moves_never_exceed_pseudo_legal_moves() {
    for fen in [
        START_FEN,
        "8/5k2/3p4/1p1Pp2p/pP2Pp1P/P4P1K/8/8 b - - 99 50",
        "r3k2r/8/8/8/4r3/8/8/R3K2R w KQkq - 0 1",
        "8/P6k/8/8/8/8/8/K7 w - - 0 1",
    ] {
        let gs = boxed(fen);
        let pseudo = generate_pseudo_legal_moves(&gs);
        let legal = generate_legal_moves(&gs);
        assert!(legal.len() <= pseudo.len());
    }
}

#[test]
fn legal_moves_never_leave_own_king_attacked() {
    for fen in [
        START_FEN,
        "r3k2r/8/8/8/4r3/8/8/R3K2R w KQkq - 0 1",
        "8/5k2/3p4/1p1Pp2p/pP2Pp1P/P4P1K/8/8 b - - 99 50",
    ] {
        let gs = boxed(fen);
        let mover = gs.player_to_move();
        for mv in generate_legal_moves(&gs) {
            let mut next = gs.clone();
            make_move(&mut next, mv);
            let replies = generate_attacks(&next, next.player_to_move());
            assert!(!is_in_check(&next, mover, &replies));
        }
    }
}

fn en_passant_moves(moves: &[Move]) -> Vec<Move> {
    moves
        .iter()
        .copied()
        .filter(|mv| matches!(mv.side_effect, Some(MoveSideEffect::RemovePiece { .. })))
        .collect()
}

#[test]
fn en_passant_generated_when_pawn_adjacent() {
    // A black pawn just double-pushed to e4 (row 4, column 4); the white pawn
    // on d4 may capture it en passant, landing on e3's square behind it.
    let gs = boxed("7k/8/8/8/3Pp3/8/8/7K w - e4 0 1");
    assert_eq!(gs.en_passant_target, Some((4, 4)));
    let eps = en_passant_moves(&generate_legal_moves(&gs));
    assert_eq!(eps.len(), 1);
    let mv = eps[0];
    assert_eq!(mv.from, (4, 3));
    assert_eq!(mv.to, (3, 4));
    assert_eq!(
        mv.side_effect,
        Some(MoveSideEffect::RemovePiece { at: (4, 4) })
    );
}

#[test]
fn en_passant_not_generated_without_target() {
    let gs = boxed("7k/8/8/8/3Pp3/8/8/7K w - - 0 1");
    assert_eq!(en_passant_moves(&generate_legal_moves(&gs)).len(), 0);
}

#[test]
fn en_passant_not_generated_without_adjacent_pawn() {
    let gs = boxed("7k/8/8/8/4p3/8/8/7K w - e4 0 1");
    assert_eq!(en_passant_moves(&generate_legal_moves(&gs)).len(), 0);
}

#[test]
fn en_passant_capture_removes_the_pawn() {
    let mut gs = boxed("7k/8/8/8/3Pp3/8/8/7K w - e4 0 1");
    let mv = en_passant_moves(&generate_legal_moves(&gs))[0];
    make_move(&mut gs, mv);
    assert_eq!(gs.square_at(4, 4).piece, PieceType::Empty);
    assert_eq!(gs.square_at(4, 3).piece, PieceType::Empty);
    assert_eq!(gs.square_at(3, 4).piece, PieceType::Pawn);
    assert_eq!(gs.square_at(3, 4).owner, Player::White);
    assert_eq!(gs.player_to_move, Player::Black);
}

#[test]
fn double_push_records_the_en_passant_target() {
    let mut gs = boxed(START_FEN);
    make_move(&mut gs, Move { from: (6, 4), to: (4, 4), side_effect: None });
    assert_eq!(gs.en_passant_target, Some((4, 4)));
}

#[test]
fn any_other_move_clears_the_en_passant_target() {
    let mut gs = boxed("7k/8/8/8/3Pp3/8/8/7K w - e4 0 1");
    assert_eq!(gs.en_passant_target, Some((4, 4)));
    // A single push is not a double push: the recorded target expires.
    make_move(&mut gs, Move { from: (4, 3), to: (3, 3), side_effect: None });
    assert_eq!(gs.en_passant_target, None);
    assert_eq!(en_passant_moves(&generate_legal_moves(&gs)).len(), 0);
}

#[test]
fn en_passant_arises_in_play_for_exactly_one_move() {
    let mut gs = boxed(START_FEN);
    // 1. e4 a6  2. e5 d5 — the black d-pawn double-pushes beside the white
    // e5 pawn, so White may capture en passant, but only at once.
    make_move(&mut gs, Move { from: (6, 4), to: (4, 4), side_effect: None });
    make_move(&mut gs, Move { from: (1, 0), to: (2, 0), side_effect: None });
    make_move(&mut gs, Move { from: (4, 4), to: (3, 4), side_effect: None });
    make_move(&mut gs, Move { from: (1, 3), to: (3, 3), side_effect: None });
    assert_eq!(gs.en_passant_target, Some((3, 3)));
    let eps = en_passant_moves(&generate_legal_moves(&gs));
    assert_eq!(eps.len(), 1);
    assert_eq!(eps[0].from, (3, 4));
    assert_eq!(eps[0].to, (2, 3));
    assert_eq!(
        eps[0].side_effect,
        Some(MoveSideEffect::RemovePiece { at: (3, 3) })
    );
    // White plays something else; the chance is gone next turn.
    make_move(&mut gs, Move { from: (7, 6), to: (5, 5), side_effect: None });
    make_move(&mut gs, Move { from: (2, 0), to: (3, 0), side_effect: None });
    assert_eq!(gs.en_passant_target, None);
    assert_eq!(en_passant_moves(&generate_legal_moves(&gs)).len(), 0);
}

fn castling_moves(moves: &[Move]) -> Vec<Move> {
    moves
        .iter()
        .copied()
        .filter(|mv| matches!(mv.side_effect, Some(MoveSideEffect::MovePiece { .. })))
        .collect()
}

#[test]
fn castling_generated_with_rights_and_clear_path() {
    let gs = boxed("r3k2r/8/8/8/8/8/8/R3K2R w KQkq - 0 1");
    let castles = castling_moves(&generate_legal_moves(&gs));
    assert_eq!(castles.len(), 2);
    assert!(castles.iter().any(|mv| {
        mv.from == (7, 4)
            && mv.to == (7, 6)
            && mv.side_effect == Some(MoveSideEffect::MovePiece { from: (7, 7), to: (7, 5) })
    }));
    assert!(castles.iter().any(|mv| {
        mv.from == (7, 4)
            && mv.to == (7, 2)
            && mv.side_effect == Some(MoveSideEffect::MovePiece { from: (7, 0), to: (7, 3) })
    }));
}

#[test]
fn castling_not_generated_without_rights() {
    let gs = boxed("r3k2r/8/8/8/8/8/8/R3K2R w - - 0 1");
    assert_eq!(castling_moves(&generate_pseudo_legal_moves(&gs)).len(), 0);
}

#[test]
fn castling_not_generated_in_check() {
    let gs = boxed("r3k2r/8/8/8/4r3/8/8/R3K2R w KQkq - 0 1");
    assert_eq!(castling_moves(&generate_pseudo_legal_moves(&gs)).len(), 0);
}

#[test]
fn castling_not_generated_with_blocked_path() {
    let gs = boxed(START_FEN);
    assert_eq!(castling_moves(&generate_pseudo_legal_moves(&gs)).len(), 0);
}

#[test]
fn castling_not_generated_through_attacked_square() {
    // The black rook on f8 attacks f1, which the white king would cross
    // castling kingside; queenside remains available.
    let gs = boxed("5r1k/8/8/8/8/8/8/R3K2R w KQ - 0 1");
    let castles = castling_moves(&generate_legal_moves(&gs));
    assert_eq!(castles.len(), 1);
    assert_eq!(castles[0].to, (7, 2));
}

#[test]
fn castling_relocates_the_rook() {
    let mut gs = boxed("r3k2r/8/8/8/8/8/8/R3K2R w KQkq - 0 1");
    let mv = Move {
        from: (7, 4),
        to: (7, 6),
        side_effect: Some(MoveSideEffect::MovePiece { from: (7, 7), to: (7, 5) }),
    };
    make_move(&mut gs, mv);
    assert_eq!(gs.square_at(7, 6).piece, PieceType::King);
    assert_eq!(gs.square_at(7, 5).piece, PieceType::Rook);
    assert_eq!(gs.square_at(7, 4).piece, PieceType::Empty);
    assert_eq!(gs.square_at(7, 7).piece, PieceType::Empty);
}

#[test]
fn attack_rays_include_a_blocking_own_piece() {
    // A rook walled in by its own pawns still threatens (defends) them: the
    // first occupied square of each ray is attacked whoever stands there.
    let gs = boxed("7k/8/8/8/8/8/PP6/RP5K w - - 0 1");
    let attacks = generate_rook_attacks(&gs, Player::White, 0, 7);
    let targets: Vec<(usize, usize)> = attacks.iter().map(|mv| mv.to).collect();
    assert_eq!(targets, vec![(6, 0), (7, 1)]);
    // Those moves are attacks only, never playable: the rook has no legal
    // move at all from behind its own pawns.
    assert!(!generate_legal_moves(&gs).iter().any(|mv| mv.from == (7, 0)));
}

#[test]
fn castling_not_generated_through_pawn_attacked_square() {
    // The black pawn on g2 attacks the empty squares f1 and h1; the white
    // king would cross f1 castling kingside, so only queenside remains.
    let gs = boxed("4k3/8/8/8/8/8/6p1/R3K2R w KQ - 0 1");
    let castles = castling_moves(&generate_legal_moves(&gs));
    assert_eq!(castles.len(), 1);
    assert_eq!(castles[0].to, (7, 2));
}

fn promotion_moves_of(moves: &[Move]) -> Vec<Move> {
    moves
        .iter()
        .copied()
        .filter(|mv| matches!(mv.side_effect, Some(MoveSideEffect::AddPiece { .. })))
        .collect()
}

#[test]
fn forward_promotion_offers_four_pieces() {
    let gs = boxed("8/P6k/8/8/8/8/8/K7 w - - 0 1");
    let promos = promotion_moves_of(&generate_legal_moves(&gs));
    assert_eq!(promos.len(), 4);
    let mut kinds: Vec<PieceType> = promos
        .iter()
        .map(|mv| match mv.side_effect {
            Some(MoveSideEffect::AddPiece { at, piece }) => {
                assert_eq!(at, (0, 0));
                assert_eq!(mv.from, (1, 0));
                assert_eq!(mv.to, (0, 0));
                piece
            }
            _ => unreachable!(),
        })
        .collect();
    kinds.sort_by_key(|k| format!("{:?}", k));
    let mut expected = vec![
        PieceType::Rook,
        PieceType::Knight,
        PieceType::Bishop,
        PieceType::Queen,
    ];
    expected.sort_by_key(|k| format!("{:?}", k));
    assert_eq!(kinds, expected);
}

#[test]
fn capturing_promotion_offers_four_pieces_too() {
    let gs = boxed("1r5k/P7/8/8/8/8/8/K7 w - - 0 1");
    let promos = promotion_moves_of(&generate_legal_moves(&gs));
    // Four straight to a8 and four capturing the rook on b8.
    assert_eq!(promos.len(), 8);
    assert_eq!(promos.iter().filter(|mv| mv.to == (0, 1)).count(), 4);
    assert_eq!(promos.iter().filter(|mv| mv.to == (0, 0)).count(), 4);
}

#[test]
fn promotion_places_the_new_piece() {
    let mut gs = boxed("8/P6k/8/8/8/8/8/K7 w - - 0 1");
    let mv = Move {
        from: (1, 0),
        to: (0, 0),
        side_effect: Some(MoveSideEffect::AddPiece { at: (0, 0), piece: PieceType::Queen }),
    };
    make_move(&mut gs, mv);
    assert_eq!(gs.square_at(0, 0).piece, PieceType::Queen);
    assert_eq!(gs.square_at(0, 0).owner, Player::White);
    assert_eq!(gs.square_at(1, 0).piece, PieceType::Empty);
}

#[test]
fn double_push_only_from_start_rank() {
    let gs = boxed(START_FEN);
    let legal = generate_legal_moves(&gs);
    // Every pawn can double-push at the start.
    for col in 0..8 {
        assert!(legal.iter().any(|mv| mv.from == (6, col) && mv.to == (4, col)));
    }
    // A pawn that has already advanced cannot double-push again.
    let gs = boxed("rnbqkbnr/pppppppp/8/8/4P3/8/PPPP1PPP/RNBQKBNR w KQkq - 0 1");
    assert!(!generate_legal_moves(&gs)
        .iter()
        .any(|mv| mv.from == (4, 4) && mv.to == (2, 4)));
}

#[test]
fn plain_move_relocates_and_toggles_turn() {
    let mut gs = boxed(START_FEN);
    let mv = Move { from: (6, 4), to: (4, 4), side_effect: None };
    make_move(&mut gs, mv);
    assert_eq!(gs.square_at(6, 4).piece, PieceType::Empty);
    assert_eq!(gs.square_at(4, 4).piece, PieceType::Pawn);
    assert_eq!(gs.square_at(4, 4).owner, Player::White);
    assert_eq!(gs.player_to_move, Player::Black);
    assert_eq!(gs.halfmove_counter, 0);
    assert_eq!(gs.fullmove_counter, 1);
}

#[test]
fn check_detection_sees_rook_on_open_file() {
    let gs = boxed("4r2k/8/8/8/8/8/8/4K3 w - - 0 1");
    let black_attacks = generate_attacks(&gs, Player::Black);
    assert!(is_in_check(&gs, Player::White, &black_attacks));
    let white_attacks = generate_attacks(&gs, Player::White);
    assert!(!is_in_check(&gs, Player::Black, &white_attacks));
}
