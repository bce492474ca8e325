use xadreis::fen::ParseError;
use xadreis::fen::fen_to_game_state;
use xadreis::state::PieceType;
use xadreis::state::Player;

const START_FEN: &str = "rnbqkbnr/pppppppp/8/8/8/8/PPPPPPPP/RNBQKBNR w KQkq - 0 1";

#[test]
fn start_position_parses() {
    let gs = fen_to_game_state(START_FEN).unwrap();
    assert_eq!(gs.player_to_move, Player::White);
    assert!(gs.castling_rights.white_kingside);
    assert!(gs.castling_rights.white_queenside);
    assert!(gs.castling_rights.black_kingside);
    assert!(gs.castling_rights.black_queenside);
    assert_eq!(gs.en_passant_target, None);
    assert_eq!(gs.halfmove_counter, 0);
    assert_eq!(gs.fullmove_counter, 1);

    // Black back rank.
    let back = [
        PieceType::Rook,
        PieceType::Knight,
        PieceType::Bishop,
        PieceType::Queen,
        PieceType::King,
        PieceType::Bishop,
        PieceType::Knight,
        PieceType::Rook,
    ];
    for (col, piece) in back.iter().enumerate() {
        let sq = gs.square_at(0, col);
        assert_eq!(sq.piece, *piece);
        assert_eq!(sq.owner, Player::Black);
        let sq = gs.square_at(7, col);
        assert_eq!(sq.piece, *piece);
        assert_eq!(sq.owner, Player::White);
    }
    for col in 0..8 {
        assert_eq!(gs.square_at(1, col).piece, PieceType::Pawn);
        assert_eq!(gs.square_at(1, col).owner, Player::Black);
        assert_eq!(gs.square_at(6, col).piece, PieceType::Pawn);
        assert_eq!(gs.square_at(6, col).owner, Player::White);
    }
    for row in 2..6 {
        for col in 0..8 {
            assert_eq!(gs.square_at(row, col).piece, PieceType::Empty);
            assert_eq!(gs.square_at(row, col).owner, Player::Nobody);
        }
    }
}

#[test]
fn midgame_scenario_fields() {
    let gs = fen_to_game_state("8/5k2/3p4/1p1Pp2p/pP2Pp1P/P4P1K/8/8 b - - 99 50").unwrap();
    assert_eq!(gs.square_at(1, 5).piece, PieceType::King);
    assert_eq!(gs.square_at(1, 5).owner, Player::Black);
    assert_eq!(gs.square_at(3, 3).piece, PieceType::Pawn);
    assert_eq!(gs.square_at(3, 3).owner, Player::White);
    assert_eq!(gs.player_to_move, Player::Black);
    assert_eq!(gs.halfmove_counter, 99);
    assert_eq!(gs.fullmove_counter, 50);
    assert!(!gs.castling_rights.white_kingside);
    assert!(!gs.castling_rights.black_queenside);
    assert_eq!(gs.en_passant_target, None);
}

#[test]
fn en_passant_target_parses() {
    let gs = fen_to_game_state("rnbqkbnr/pppppppp/8/8/8/8/PPPPPPPP/RNBQKBNR w KQkq e3 0 1")
        .unwrap();
    // Rank 3 is row 5; file e is column 4.
    assert_eq!(gs.en_passant_target, Some((5, 4)));
}

#[test]
fn extra_whitespace_is_tolerated() {
    let gs = fen_to_game_state("  8/8/8/8/8/8/8/8   w  -  -  0  1  ").unwrap();
    assert_eq!(gs.player_to_move, Player::White);
    for row in 0..8 {
        for col in 0..8 {
            assert_eq!(gs.square_at(row, col).piece, PieceType::Empty);
        }
    }
}

#[test]
fn too_few_fields_is_rejected() {
    assert_eq!(
        fen_to_game_state("8/8/8/8/8/8/8/8 w -"),
        Err(ParseError::MissingFields)
    );
    assert_eq!(fen_to_game_state(""), Err(ParseError::MissingFields));
}

#[test]
fn bad_board_symbol_is_rejected() {
    assert_eq!(
        fen_to_game_state("8/8/8/8/8/8/8/7z w - - 0 1"),
        Err(ParseError::UnexpectedSymbol)
    );
}

#[test]
fn bad_side_symbol_is_rejected() {
    assert_eq!(
        fen_to_game_state("8/8/8/8/8/8/8/8 x - - 0 1"),
        Err(ParseError::UnexpectedSymbol)
    );
}

#[test]
fn bad_castling_symbol_is_rejected() {
    assert_eq!(
        fen_to_game_state("8/8/8/8/8/8/8/8 w X - 0 1"),
        Err(ParseError::UnexpectedSymbol)
    );
}

#[test]
fn bad_en_passant_field_is_rejected() {
    assert_eq!(
        fen_to_game_state("8/8/8/8/8/8/8/8 w - e9 0 1"),
        Err(ParseError::UnexpectedSymbol)
    );
    assert_eq!(
        fen_to_game_state("8/8/8/8/8/8/8/8 w - e33 0 1"),
        Err(ParseError::UnexpectedSymbol)
    );
}

#[test]
fn piece_placed_off_the_board_is_rejected() {
    assert_eq!(
        fen_to_game_state("8p/8/8/8/8/8/8/8 w - - 0 1"),
        Err(ParseError::OutOfBoard)
    );
    assert_eq!(
        fen_to_game_state("8/8/8/8/8/8/8/8/K w - - 0 1"),
        Err(ParseError::OutOfBoard)
    );
}

#[test]
fn bad_counter_is_rejected() {
    assert_eq!(
        fen_to_game_state("8/8/8/8/8/8/8/8 w - - x 1"),
        Err(ParseError::InvalidInteger)
    );
    assert_eq!(
        fen_to_game_state("8/8/8/8/8/8/8/8 w - - 0 99999"),
        Err(ParseError::InvalidInteger)
    );
    assert_eq!(
        fen_to_game_state("8/8/8/8/8/8/8/8 w - - 65535 1")
            .unwrap()
            .halfmove_counter,
        65535
    );
}
