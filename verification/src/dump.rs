//! The diagnostic board dump: eight lines of eight space-separated symbols,
//! one per square, row-major; uppercase letters are White's pieces, lowercase
//! Black's, and `.` an empty square. The dump determines the board exactly,
//! so re-reading it (with the non-board fields carried over) names the same
//! position and hence the same legal moves.

use vstd::prelude::*;
use vstd::arithmetic::div_mod::lemma_fundamental_div_mod_converse;
use vstd::string::StringExecFns;
use crate::movegen::legal_moves_spec;
use crate::state::GameState;
use crate::state::PieceType;
use crate::state::Player;
use crate::state::Square;
use crate::state::StateModel;
use crate::state::empty_square;
use crate::state::square_ok;
use crate::state::wf_state;

verus! {

/// The symbol one square prints as.
pub open spec fn square_symbol(sq: Square) -> char {
    match sq.piece {
        PieceType::Empty => '.',
        PieceType::Pawn => if sq.owner == Player::Black {
            'p'
        } else {
            'P'
        },
        PieceType::Rook => if sq.owner == Player::Black {
            'r'
        } else {
            'R'
        },
        PieceType::Knight => if sq.owner == Player::Black {
            'n'
        } else {
            'N'
        },
        PieceType::Bishop => if sq.owner == Player::Black {
            'b'
        } else {
            'B'
        },
        PieceType::Queen => if sq.owner == Player::Black {
            'q'
        } else {
            'Q'
        },
        PieceType::King => if sq.owner == Player::Black {
            'k'
        } else {
            'K'
        },
    }
}

/// The square a dump symbol names.
pub open spec fn symbol_square(c: char) -> Square {
    match c {
        'P' => Square { piece: PieceType::Pawn, owner: Player::White },
        'p' => Square { piece: PieceType::Pawn, owner: Player::Black },
        'R' => Square { piece: PieceType::Rook, owner: Player::White },
        'r' => Square { piece: PieceType::Rook, owner: Player::Black },
        'N' => Square { piece: PieceType::Knight, owner: Player::White },
        'n' => Square { piece: PieceType::Knight, owner: Player::Black },
        'B' => Square { piece: PieceType::Bishop, owner: Player::White },
        'b' => Square { piece: PieceType::Bishop, owner: Player::Black },
        'Q' => Square { piece: PieceType::Queen, owner: Player::White },
        'q' => Square { piece: PieceType::Queen, owner: Player::Black },
        'K' => Square { piece: PieceType::King, owner: Player::White },
        'k' => Square { piece: PieceType::King, owner: Player::Black },
        _ => empty_square(),
    }
}

/// The character at offset `i` of the dump: each row prints eight
/// symbol-space pairs and ends with a newline, 17 characters per row.
pub open spec fn dump_char(m: StateModel, i: int) -> char {
    let r = i / 17;
    let j = i % 17;
    if j == 16 {
        '\n'
    } else if j % 2 == 0 {
        square_symbol(m.board[r * 8 + j / 2])
    } else {
        ' '
    }
}

/// The whole dump: 8 rows of 17 characters.
pub open spec fn dump_spec(m: StateModel) -> Seq<char> {
    Seq::new(136, |i: int| dump_char(m, i))
}

/// The dump offsets of the symbol and the space printed for square
/// (row, col).
proof fn lemma_dump_char_at(m: StateModel, row: int, col: int)
    requires
        0 <= row < 8,
        0 <= col < 8,
    ensures
        dump_char(m, row * 17 + col * 2) == square_symbol(m.board[row * 8 + col]),
        dump_char(m, row * 17 + col * 2 + 1) == ' ',
{
    lemma_fundamental_div_mod_converse(row * 17 + col * 2, 17, row, col * 2);
    lemma_fundamental_div_mod_converse(col * 2, 2, col, 0);
    lemma_fundamental_div_mod_converse(row * 17 + col * 2 + 1, 17, row, col * 2 + 1);
    lemma_fundamental_div_mod_converse(col * 2 + 1, 2, col, 1);
}

/// Each dump row ends with a newline.
proof fn lemma_dump_char_newline(m: StateModel, row: int)
    requires
        0 <= row < 8,
    ensures
        dump_char(m, row * 17 + 16) == '\n',
{
    lemma_fundamental_div_mod_converse(row * 17 + 16, 17, row, 16);
}

/// The printed symbol of one square, as a one-character string.
fn symbol_str(sq: Square) -> (r: &'static str)
    ensures
        r@.len() == 1,
        r@[0] == square_symbol(sq),
{
    let black = sq.owner == Player::Black;
    match sq.piece {
        PieceType::Empty => {
            proof {
                reveal_strlit(".");
            }
            "."
        },
        PieceType::Pawn => if black {
            proof {
                reveal_strlit("p");
            }
            "p"
        } else {
            proof {
                reveal_strlit("P");
            }
            "P"
        },
        PieceType::Rook => if black {
            proof {
                reveal_strlit("r");
            }
            "r"
        } else {
            proof {
                reveal_strlit("R");
            }
            "R"
        },
        PieceType::Knight => if black {
            proof {
                reveal_strlit("n");
            }
            "n"
        } else {
            proof {
                reveal_strlit("N");
            }
            "N"
        },
        PieceType::Bishop => if black {
            proof {
                reveal_strlit("b");
            }
            "b"
        } else {
            proof {
                reveal_strlit("B");
            }
            "B"
        },
        PieceType::Queen => if black {
            proof {
                reveal_strlit("q");
            }
            "q"
        } else {
            proof {
                reveal_strlit("Q");
            }
            "Q"
        },
        PieceType::King => if black {
            proof {
                reveal_strlit("k");
            }
            "k"
        } else {
            proof {
                reveal_strlit("K");
            }
            "K"
        },
    }
}

impl GameState {
    /// The diagnostic board dump: eight lines of eight space-separated
    /// symbols, row-major.
    pub fn board_string(&self) -> (r: String)
        ensures
            r@ == dump_spec(self@),
    {
        let ghost m = self@;
        let mut out = String::new();
        let mut row: usize = 0;
        while row < 8
            invariant
                m == self@,
                row <= 8,
                out@ == dump_spec(m).take(row as int * 17),
            decreases 8 - row,
        {
            let mut col: usize = 0;
            while col < 8
                invariant
                    m == self@,
                    row < 8,
                    col <= 8,
                    out@ == dump_spec(m).take(row as int * 17 + col as int * 2),
                decreases 8 - col,
            {
                let sq = self.square_at(row, col);
                let sym = symbol_str(sq);
                out.append(sym);
                out.append(" ");
                proof {
                    reveal_strlit(" ");
                    lemma_dump_char_at(m, row as int, col as int);
                    assert(out@ =~= dump_spec(m).take(row as int * 17 + (col as int + 1) * 2));
                }
                col = col + 1;
            }
            out.append("\n");
            proof {
                reveal_strlit("\n");
                lemma_dump_char_newline(m, row as int);
                assert(out@ =~= dump_spec(m).take((row as int + 1) * 17));
            }
            row = row + 1;
        }
        proof {
            assert(dump_spec(m).take(136) =~= dump_spec(m));
        }
        out
    }
}

/// Reading the dump back, symbol by symbol, recovers the board exactly: the
/// symbol printed for square (row, col) stands at offset `row * 17 + col * 2`
/// and names that square again.
pub proof fn lemma_dump_round_trip(m: StateModel)
    requires
        wf_state(m),
    ensures
        forall|row: int, col: int|
            0 <= row < 8 && 0 <= col < 8 ==> symbol_square(
                #[trigger] dump_spec(m)[row * 17 + col * 2],
            ) == m.board[row * 8 + col],
{
    assert forall|row: int, col: int|
        0 <= row < 8 && 0 <= col < 8 implies symbol_square(
        #[trigger] dump_spec(m)[row * 17 + col * 2],
    ) == m.board[row * 8 + col] by {
        lemma_dump_char_at(m, row, col);
        assert(square_ok(m.board[row * 8 + col]));
    }
}

/// Two well-formed positions with the same dump and the same non-board
/// fields are the same position, so regenerating legal moves after
/// re-reading the dump yields the same move sequence.
pub proof fn lemma_dump_same_moves(m1: StateModel, m2: StateModel)
    requires
        wf_state(m1),
        wf_state(m2),
        dump_spec(m1) == dump_spec(m2),
        m1.player_to_move == m2.player_to_move,
        m1.castling_rights == m2.castling_rights,
        m1.en_passant_target == m2.en_passant_target,
        m1.halfmove_counter == m2.halfmove_counter,
        m1.fullmove_counter == m2.fullmove_counter,
    ensures
        m1 == m2,
        legal_moves_spec(m1) == legal_moves_spec(m2),
{
    lemma_dump_round_trip(m1);
    lemma_dump_round_trip(m2);
    assert forall|i: int| 0 <= i < 64 implies m1.board[i] == m2.board[i] by {
        let row = i / 8;
        let col = i % 8;
        assert(i == row * 8 + col) by {
            vstd::arithmetic::div_mod::lemma_fundamental_div_mod(i, 8);
        }
        assert(symbol_square(dump_spec(m1)[row * 17 + col * 2]) == m1.board[row * 8 + col]);
        assert(symbol_square(dump_spec(m2)[row * 17 + col * 2]) == m2.board[row * 8 + col]);
    }
    assert(m1.board =~= m2.board);
    assert(m1 =~= m2);
}

} // verus!
