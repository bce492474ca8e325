use xadreis::fen::fen_to_game_state;
use xadreis::movegen::generate_legal_moves;
use xadreis::state::GameState;

const START_FEN: &str = "rnbqkbnr/pppppppp/8/8/8/8/PPPPPPPP/RNBQKBNR w KQkq - 0 1";

#[test]
fn start_position_dump() {
    let gs = fen_to_game_state(START_FEN).unwrap();
    let expected = "r n b q k b n r \n\
                    p p p p p p p p \n\
                    . . . . . . . . \n\
                    . . . . . . . . \n\
                    . . . . . . . . \n\
                    . . . . . . . . \n\
                    P P P P P P P P \n\
                    R N B Q K B N R \n";
    assert_eq!(gs.board_string(), expected);
}

/// Turn one dump back into a board-layout field: drop the spaces, replace
/// runs of dots with their length, and join the rows with slashes.
fn dump_to_board_field(dump: &str) -> String {
    let mut rows: Vec<String> = Vec::new();
    for line in dump.lines() {
        let mut field = String::new();
        let mut empties = 0;
        for sym in line.split_whitespace() {
            if sym == "." {
                empties += 1;
            } else {
                if empties > 0 {
                    field.push_str(&empties.to_string());
                    empties = 0;
                }
                field.push_str(sym);
            }
        }
        if empties > 0 {
            field.push_str(&empties.to_string());
        }
        rows.push(field);
    }
    rows.join("/")
}

fn reparse_via_dump(fen: &str, non_board_fields: &str) -> (Box<GameState>, Box<GameState>) {
    let original = Box::new(fen_to_game_state(fen).unwrap());
    let dump = original.board_string();
    let rebuilt_fen = format!("{} {}", dump_to_board_field(&dump), non_board_fields);
    let rebuilt = Box::new(fen_to_game_state(&rebuilt_fen).unwrap());
    (original, rebuilt)
}

#[test]
fn reparsing_the_dump_yields_the_same_legal_moves() {
    let cases = [
        (START_FEN, "w KQkq - 0 1"),
        ("8/5k2/3p4/1p1Pp2p/pP2Pp1P/P4P1K/8/8 b - - 99 50", "b - - 99 50"),
        ("r3k2r/8/8/8/8/8/8/R3K2R w KQkq - 0 1", "w KQkq - 0 1"),
        ("7k/8/8/8/3Pp3/8/8/7K w - e4 0 1", "w - e4 0 1"),
    ];
    for (fen, rest) in cases {
        let (original, rebuilt) = reparse_via_dump(fen, rest);
        assert_eq!(original.board_string(), rebuilt.board_string());
        assert_eq!(generate_legal_moves(&original), generate_legal_moves(&rebuilt));
    }
}

#[test]
fn dump_distinguishes_owners() {
    let gs = fen_to_game_state("8/8/8/8/8/2Kk4/8/8 w - - 0 1").unwrap();
    let dump = gs.board_string();
    let lines: Vec<&str> = dump.lines().collect();
    assert_eq!(lines.len(), 8);
    assert_eq!(lines[5], ". . K k . . . . ");
}
