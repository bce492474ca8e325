//! The position parser: builds a `GameState` from a textual position
//! descriptor of six whitespace-separated fields — board layout, side to
//! move, castling availability, en-passant target, halfmove clock and
//! fullmove number.

use vstd::prelude::*;
use vstd::string::StrSliceExecFns;
use crate::state::CastlingRights;
use crate::state::GameState;
use crate::state::PieceType;
use crate::state::Player;
use crate::state::Square;
use crate::state::StateModel;
use crate::state::empty_square;
use crate::state::square_ok;
use crate::state::wf_state;

verus! {

/// Why a position descriptor was rejected.
#[derive(Clone, Copy, PartialEq, Eq, Structural, Debug)]
pub enum ParseError {
    /// Fewer than six whitespace-separated fields.
    MissingFields,
    /// A character that no field admits at its position.
    UnexpectedSymbol,
    /// A piece placed outside the 8x8 board.
    OutOfBoard,
    /// A counter field that is not a valid unsigned 16-bit integer.
    InvalidInteger,
}

/// The characters that separate fields.
pub open spec fn is_space(c: char) -> bool {
    c == ' ' || c == '\t' || c == '\n' || c == '\r'
}

/// The length of the maximal non-space prefix.
pub open spec fn token_len(s: Seq<char>) -> nat
    decreases s.len(),
{
    if s.len() == 0 || is_space(s[0]) {
        0
    } else {
        1 + token_len(s.drop_first())
    }
}

/// The non-space prefix never outruns the string.
pub proof fn lemma_token_len_le(s: Seq<char>)
    ensures
        token_len(s) <= s.len(),
    decreases s.len(),
{
    if s.len() > 0 && !is_space(s[0]) {
        lemma_token_len_le(s.drop_first());
    }
}

#[via_fn]
proof fn tokens_spec_decreases(s: Seq<char>) {
    lemma_token_len_le(s);
}

/// The fields of the descriptor: the maximal non-space runs, in order.
pub open spec fn tokens_spec(s: Seq<char>) -> Seq<Seq<char>>
    decreases s.len(),
    via tokens_spec_decreases
{
    if s.len() == 0 {
        Seq::empty()
    } else if is_space(s[0]) {
        tokens_spec(s.drop_first())
    } else {
        seq![s.take(token_len(s) as int)] + tokens_spec(s.skip(token_len(s) as int))
    }
}

/// The value of a board-layout digit, which skips that many empty files.
pub open spec fn digit_1_8(c: char) -> Option<u8> {
    match c {
        '1' => Some(1),
        '2' => Some(2),
        '3' => Some(3),
        '4' => Some(4),
        '5' => Some(5),
        '6' => Some(6),
        '7' => Some(7),
        '8' => Some(8),
        _ => None,
    }
}

/// The value of a decimal digit in a counter field.
pub open spec fn digit_0_9(c: char) -> Option<u8> {
    match c {
        '0' => Some(0),
        '1' => Some(1),
        '2' => Some(2),
        '3' => Some(3),
        '4' => Some(4),
        '5' => Some(5),
        '6' => Some(6),
        '7' => Some(7),
        '8' => Some(8),
        '9' => Some(9),
        _ => None,
    }
}

/// The column named by an en-passant file letter.
pub open spec fn file_letter(c: char) -> Option<u8> {
    match c {
        'a' => Some(0),
        'b' => Some(1),
        'c' => Some(2),
        'd' => Some(3),
        'e' => Some(4),
        'f' => Some(5),
        'g' => Some(6),
        'h' => Some(7),
        _ => None,
    }
}

/// The piece a board-layout letter places: lowercase letters are Black's
/// pieces, uppercase White's.
pub open spec fn board_symbol_square(c: char) -> Option<Square> {
    match c {
        'k' => Some(Square { piece: PieceType::King, owner: Player::Black }),
        'K' => Some(Square { piece: PieceType::King, owner: Player::White }),
        'q' => Some(Square { piece: PieceType::Queen, owner: Player::Black }),
        'Q' => Some(Square { piece: PieceType::Queen, owner: Player::White }),
        'r' => Some(Square { piece: PieceType::Rook, owner: Player::Black }),
        'R' => Some(Square { piece: PieceType::Rook, owner: Player::White }),
        'n' => Some(Square { piece: PieceType::Knight, owner: Player::Black }),
        'N' => Some(Square { piece: PieceType::Knight, owner: Player::White }),
        'b' => Some(Square { piece: PieceType::Bishop, owner: Player::Black }),
        'B' => Some(Square { piece: PieceType::Bishop, owner: Player::White }),
        'p' => Some(Square { piece: PieceType::Pawn, owner: Player::Black }),
        'P' => Some(Square { piece: PieceType::Pawn, owner: Player::White }),
        _ => None,
    }
}

/// A board with all 64 squares empty.
pub open spec fn empty_board() -> Seq<Square> {
    Seq::new(64, |i: int| empty_square())
}

/// The placement cursor saturates at 8: every position past the board edge
/// behaves alike (a further placement fails, a slash still resets the file).
pub open spec fn cap8(v: int) -> int {
    if v > 8 {
        8
    } else {
        v
    }
}

/// Read the board-layout field left to right with a (row, col) cursor:
/// a digit skips that many files, a slash starts the next row, a letter
/// places its piece at the cursor — failing when the cursor is off the
/// board — and any other character is rejected.
pub open spec fn parse_board_rec(
    f: Seq<char>,
    i: int,
    board: Seq<Square>,
    row: int,
    col: int,
) -> Result<Seq<Square>, ParseError>
    decreases f.len() - i,
{
    if i < 0 || i >= f.len() {
        Ok(board)
    } else {
        let c = f[i];
        if c == '/' {
            parse_board_rec(f, i + 1, board, cap8(row + 1), 0)
        } else {
            match digit_1_8(c) {
                Some(d) => parse_board_rec(f, i + 1, board, row, cap8(col + d)),
                None => match board_symbol_square(c) {
                    Some(sq) => if 0 <= row < 8 && 0 <= col < 8 {
                        parse_board_rec(f, i + 1, board.update(row * 8 + col, sq), row, cap8(col + 1))
                    } else {
                        Err(ParseError::OutOfBoard)
                    },
                    None => Err(ParseError::UnexpectedSymbol),
                },
            }
        }
    }
}

/// The board named by the board-layout field, starting from an empty board.
pub open spec fn parse_board_field(f: Seq<char>) -> Result<Seq<Square>, ParseError> {
    parse_board_rec(f, 0, empty_board(), 0, 0)
}

/// Read the side-to-move field: every character must be `w` or `b`, and the
/// last one names the side.
pub open spec fn parse_side_rec(f: Seq<char>, i: int, cur: Player) -> Result<Player, ParseError>
    decreases f.len() - i,
{
    if i < 0 || i >= f.len() {
        Ok(cur)
    } else if f[i] == 'w' {
        parse_side_rec(f, i + 1, Player::White)
    } else if f[i] == 'b' {
        parse_side_rec(f, i + 1, Player::Black)
    } else {
        Err(ParseError::UnexpectedSymbol)
    }
}

/// The side to move named by the second field.
pub open spec fn parse_side_field(f: Seq<char>) -> Result<Player, ParseError> {
    parse_side_rec(f, 0, Player::White)
}

/// Read the castling field: each of `KQkq` grants its flag, `-` grants none.
pub open spec fn parse_castling_rec(f: Seq<char>, i: int, cur: CastlingRights) -> Result<
    CastlingRights,
    ParseError,
>
    decreases f.len() - i,
{
    if i < 0 || i >= f.len() {
        Ok(cur)
    } else if f[i] == 'K' {
        parse_castling_rec(f, i + 1, CastlingRights { white_kingside: true, ..cur })
    } else if f[i] == 'Q' {
        parse_castling_rec(f, i + 1, CastlingRights { white_queenside: true, ..cur })
    } else if f[i] == 'k' {
        parse_castling_rec(f, i + 1, CastlingRights { black_kingside: true, ..cur })
    } else if f[i] == 'q' {
        parse_castling_rec(f, i + 1, CastlingRights { black_queenside: true, ..cur })
    } else if f[i] == '-' {
        parse_castling_rec(f, i + 1, cur)
    } else {
        Err(ParseError::UnexpectedSymbol)
    }
}

/// No castling rights.
pub open spec fn no_rights() -> CastlingRights {
    CastlingRights {
        white_kingside: false,
        white_queenside: false,
        black_kingside: false,
        black_queenside: false,
    }
}

/// The castling rights named by the third field.
pub open spec fn parse_castling_field(f: Seq<char>) -> Result<CastlingRights, ParseError> {
    parse_castling_rec(f, 0, no_rights())
}

/// The en-passant field: `-` for no target, else a file letter `a`-`h` and a
/// rank digit `1`-`8` naming the target square; rank `r` is row `8 - r`.
pub open spec fn parse_ep_field(f: Seq<char>) -> Result<Option<(u8, u8)>, ParseError> {
    if f.len() == 1 && f[0] == '-' {
        Ok(None)
    } else if f.len() == 2 {
        match file_letter(f[0]) {
            None => Err(ParseError::UnexpectedSymbol),
            Some(file) => match digit_1_8(f[1]) {
                None => Err(ParseError::UnexpectedSymbol),
                Some(d) => Ok(Some(((8 - d) as u8, file))),
            },
        }
    } else {
        Err(ParseError::UnexpectedSymbol)
    }
}

/// Read a counter field as decimal digits, rejecting values over `u16::MAX`.
pub open spec fn parse_u16_rec(f: Seq<char>, i: int, acc: int) -> Result<u16, ParseError>
    decreases f.len() - i,
{
    if i < 0 || i >= f.len() {
        Ok(acc as u16)
    } else {
        match digit_0_9(f[i]) {
            None => Err(ParseError::InvalidInteger),
            Some(d) => if acc * 10 + d > 65535 {
                Err(ParseError::InvalidInteger)
            } else {
                parse_u16_rec(f, i + 1, acc * 10 + d)
            },
        }
    }
}

/// The counter named by a halfmove or fullmove field.
pub open spec fn parse_u16_field(f: Seq<char>) -> Result<u16, ParseError> {
    if f.len() == 0 {
        Err(ParseError::InvalidInteger)
    } else {
        parse_u16_rec(f, 0, 0)
    }
}

/// The position a descriptor names, or the error its first bad field gives:
/// the first six fields are the board layout, the side to move, the castling
/// availability, the en-passant target, and the two counters.
pub open spec fn parse_fen_spec(s: Seq<char>) -> Result<StateModel, ParseError> {
    let ts = tokens_spec(s);
    if ts.len() < 6 {
        Err(ParseError::MissingFields)
    } else {
        match parse_board_field(ts[0]) {
            Err(e) => Err(e),
            Ok(board) => match parse_side_field(ts[1]) {
                Err(e) => Err(e),
                Ok(player) => match parse_castling_field(ts[2]) {
                    Err(e) => Err(e),
                    Ok(rights) => match parse_ep_field(ts[3]) {
                        Err(e) => Err(e),
                        Ok(ep) => match parse_u16_field(ts[4]) {
                            Err(e) => Err(e),
                            Ok(half) => match parse_u16_field(ts[5]) {
                                Err(e) => Err(e),
                                Ok(full) => Ok(
                                    StateModel {
                                        board,
                                        player_to_move: player,
                                        castling_rights: rights,
                                        en_passant_target: ep,
                                        halfmove_counter: half,
                                        fullmove_counter: full,
                                    },
                                ),
                            },
                        },
                    },
                },
            },
        }
    }
}


/// Reading a board field preserves square well-formedness: placed pieces are
/// real pieces with real owners, and the rest of the board stays as it was.
proof fn lemma_parse_board_rec_wf(f: Seq<char>, i: int, board: Seq<Square>, row: int, col: int)
    requires
        board.len() == 64,
        forall|j: int| 0 <= j < 64 ==> square_ok(#[trigger] board[j]),
    ensures
        parse_board_rec(f, i, board, row, col) matches Ok(b) ==> b.len() == 64 && (forall|j: int|
            0 <= j < 64 ==> square_ok(#[trigger] b[j])),
    decreases f.len() - i,
{
    if 0 <= i < f.len() {
        let c = f[i];
        if c == '/' {
            lemma_parse_board_rec_wf(f, i + 1, board, cap8(row + 1), 0);
        } else {
            match digit_1_8(c) {
                Some(d) => {
                    lemma_parse_board_rec_wf(f, i + 1, board, row, cap8(col + d));
                },
                None => match board_symbol_square(c) {
                    Some(sq) => {
                        if 0 <= row < 8 && 0 <= col < 8 {
                            let board2 = board.update(row * 8 + col, sq);
                            assert(square_ok(sq));
                            assert(forall|j: int|
                                0 <= j < 64 ==> square_ok(#[trigger] board2[j]));
                            lemma_parse_board_rec_wf(f, i + 1, board2, row, cap8(col + 1));
                        }
                    },
                    None => {},
                },
            }
        }
    }
}

/// Reading the side field yields White or Black, never an unowned side.
proof fn lemma_parse_side_rec_wf(f: Seq<char>, i: int, cur: Player)
    requires
        cur != Player::Nobody,
    ensures
        parse_side_rec(f, i, cur) matches Ok(p) ==> p != Player::Nobody,
    decreases f.len() - i,
{
    if 0 <= i < f.len() {
        if f[i] == 'w' {
            lemma_parse_side_rec_wf(f, i + 1, Player::White);
        } else if f[i] == 'b' {
            lemma_parse_side_rec_wf(f, i + 1, Player::Black);
        }
    }
}

/// Every position the parser accepts is well formed: the board pairs pieces
/// and owners consistently, the side to move is a real player, and the
/// en-passant target lies on the board.
pub proof fn lemma_parse_fen_wf(s: Seq<char>)
    ensures
        parse_fen_spec(s) matches Ok(m) ==> wf_state(m),
{
    let ts = tokens_spec(s);
    if ts.len() >= 6 {
        assert(forall|j: int| 0 <= j < 64 ==> square_ok(#[trigger] empty_board()[j]));
        lemma_parse_board_rec_wf(ts[0], 0, empty_board(), 0, 0);
        lemma_parse_side_rec_wf(ts[1], 0, Player::White);
    }
}

/// The characters of a string, in order.
fn chars_of(s: &str) -> (r: Vec<char>)
    ensures
        r@ == s@,
{
    let n = s.unicode_len();
    let mut v: Vec<char> = Vec::new();
    let mut i: usize = 0;
    while i < n
        invariant
            n == s@.len(),
            i <= n,
            v@ == s@.take(i as int),
        decreases n - i,
    {
        v.push(s.get_char(i));
        proof {
            assert(v@ =~= s@.take(i as int + 1));
        }
        i = i + 1;
    }
    proof {
        assert(s@.take(n as int) =~= s@);
    }
    v
}

/// Is the character a field separator?
fn is_space_exec(c: char) -> (r: bool)
    ensures
        r == is_space(c),
{
    c == ' ' || c == '\t' || c == '\n' || c == '\r'
}

/// The maximal non-space runs of the characters, in order.
fn split_fields(chars: &Vec<char>) -> (r: Vec<Vec<char>>)
    ensures
        r@.len() == tokens_spec(chars@).len(),
        forall|i: int| 0 <= i < r@.len() ==> (#[trigger] r@[i])@ == tokens_spec(chars@)[i],
{
    let s = chars;
    let ghost full: Seq<char> = chars@;
    let mut tokens: Vec<Vec<char>> = Vec::new();
    let mut i: usize = 0;
    proof {
        assert(tokens@.map_values(|t: Vec<char>| t@) =~= Seq::<Seq<char>>::empty());
        assert(full.skip(0) =~= full);
        assert(Seq::<Seq<char>>::empty() + tokens_spec(full) =~= tokens_spec(full));
    }
    while i < s.len()
        invariant
            s@ == full,
            i <= full.len(),
            tokens_spec(full) == tokens@.map_values(|t: Vec<char>| t@) + tokens_spec(
                full.skip(i as int),
            ),
        decreases full.len() - i,
    {
        if is_space_exec(s[i]) {
            proof {
                assert(full.skip(i as int).drop_first() =~= full.skip(i as int + 1));
            }
            i = i + 1;
        } else {
            let ghost suffix = full.skip(i as int);
            let start = i;
            let mut j = i;
            let mut token: Vec<char> = Vec::new();
            while j < s.len() && !is_space_exec(s[j])
                invariant
                    s@ == full,
                    start <= j <= full.len(),
                    token@ == full.subrange(start as int, j as int),
                    forall|k: int| start <= k < j ==> !is_space(full[k]),
                decreases full.len() - j,
            {
                token.push(s[j]);
                proof {
                    assert(token@ =~= full.subrange(start as int, j as int + 1));
                }
                j = j + 1;
            }
            proof {
                lemma_token_len_range(suffix, j - start);
                assert(token_len(suffix) == j - start);
                assert(suffix.take(j - start) =~= full.subrange(start as int, j as int));
                assert(suffix.skip(j - start) =~= full.skip(j as int));
                assert(tokens_spec(suffix) == seq![suffix.take(token_len(suffix) as int)]
                    + tokens_spec(suffix.skip(token_len(suffix) as int)));
            }
            let ghost before = tokens@;
            tokens.push(token);
            proof {
                assert(tokens@.map_values(|t: Vec<char>| t@) =~= before.map_values(
                    |t: Vec<char>| t@,
                ).push(token@));
                assert(tokens@.map_values(|t: Vec<char>| t@) + tokens_spec(full.skip(j as int))
                    =~= tokens_spec(full));
            }
            i = j;
        }
    }
    proof {
        assert(full.skip(full.len() as int) =~= Seq::<char>::empty());
        assert(tokens_spec(full.skip(full.len() as int)) =~= Seq::<Seq<char>>::empty());
        assert(tokens@.map_values(|t: Vec<char>| t@) =~= tokens_spec(full));
    }
    let ghost mapped = tokens@.map_values(|t: Vec<char>| t@);
    proof {
        assert(forall|k: int|
            0 <= k < tokens@.len() ==> (#[trigger] tokens@[k])@ == mapped[k]);
    }
    tokens
}

/// The prefix of `s` up to the first space (or its end, when `k` chars are
/// all non-space and `k` is the end or a space follows) has length `k`.
proof fn lemma_token_len_range(s: Seq<char>, k: int)
    requires
        0 <= k <= s.len(),
        forall|idx: int| 0 <= idx < k ==> !is_space(#[trigger] s[idx]),
        k == s.len() || is_space(s[k]),
    ensures
        token_len(s) == k,
    decreases k,
{
    if k == 0 {
    } else {
        assert(!is_space(s[0]));
        lemma_token_len_range(s.drop_first(), k - 1);
    }
}

/// `digit_1_8`, executably.
fn digit_1_8_exec(c: char) -> (r: Option<u8>)
    ensures
        r == digit_1_8(c),
{
    match c {
        '1' => Some(1),
        '2' => Some(2),
        '3' => Some(3),
        '4' => Some(4),
        '5' => Some(5),
        '6' => Some(6),
        '7' => Some(7),
        '8' => Some(8),
        _ => None,
    }
}

/// `digit_0_9`, executably.
fn digit_0_9_exec(c: char) -> (r: Option<u8>)
    ensures
        r == digit_0_9(c),
{
    match c {
        '0' => Some(0),
        '1' => Some(1),
        '2' => Some(2),
        '3' => Some(3),
        '4' => Some(4),
        '5' => Some(5),
        '6' => Some(6),
        '7' => Some(7),
        '8' => Some(8),
        '9' => Some(9),
        _ => None,
    }
}

/// `file_letter`, executably.
fn file_letter_exec(c: char) -> (r: Option<u8>)
    ensures
        r == file_letter(c),
{
    match c {
        'a' => Some(0),
        'b' => Some(1),
        'c' => Some(2),
        'd' => Some(3),
        'e' => Some(4),
        'f' => Some(5),
        'g' => Some(6),
        'h' => Some(7),
        _ => None,
    }
}

/// `board_symbol_square`, executably.
fn board_symbol_square_exec(c: char) -> (r: Option<Square>)
    ensures
        r == board_symbol_square(c),
{
    match c {
        'k' => Some(Square { piece: PieceType::King, owner: Player::Black }),
        'K' => Some(Square { piece: PieceType::King, owner: Player::White }),
        'q' => Some(Square { piece: PieceType::Queen, owner: Player::Black }),
        'Q' => Some(Square { piece: PieceType::Queen, owner: Player::White }),
        'r' => Some(Square { piece: PieceType::Rook, owner: Player::Black }),
        'R' => Some(Square { piece: PieceType::Rook, owner: Player::White }),
        'n' => Some(Square { piece: PieceType::Knight, owner: Player::Black }),
        'N' => Some(Square { piece: PieceType::Knight, owner: Player::White }),
        'b' => Some(Square { piece: PieceType::Bishop, owner: Player::Black }),
        'B' => Some(Square { piece: PieceType::Bishop, owner: Player::White }),
        'p' => Some(Square { piece: PieceType::Pawn, owner: Player::Black }),
        'P' => Some(Square { piece: PieceType::Pawn, owner: Player::White }),
        _ => None,
    }
}

/// Read the board-layout field. Mirrors `parse_board_rec`.
fn parse_board_exec(field: &Vec<char>) -> (r: Result<[Square; 64], ParseError>)
    ensures
        match r {
            Ok(board) => parse_board_field(field@) == Ok::<Seq<Square>, ParseError>(board@),
            Err(e) => parse_board_field(field@) == Err::<Seq<Square>, ParseError>(e),
        },
{
    let mut board: [Square; 64] = [Square { piece: PieceType::Empty, owner: Player::Nobody }; 64];
    proof {
        assert(board@ =~= empty_board());
    }
    let mut row: usize = 0;
    let mut col: usize = 0;
    let mut i: usize = 0;
    while i < field.len()
        invariant
            i <= field@.len(),
            row <= 8,
            col <= 8,
            parse_board_field(field@) == parse_board_rec(
                field@,
                i as int,
                board@,
                row as int,
                col as int,
            ),
        decreases field@.len() - i,
    {
        let c = field[i];
        if c == '/' {
            row = if row < 8 {
                row + 1
            } else {
                8
            };
            col = 0;
        } else if let Some(d) = digit_1_8_exec(c) {
            let nc = col + d as usize;
            col = if nc > 8 {
                8
            } else {
                nc
            };
        } else if let Some(sq) = board_symbol_square_exec(c) {
            if row < 8 && col < 8 {
                board[row * 8 + col] = sq;
                col = col + 1;
            } else {
                return Err(ParseError::OutOfBoard);
            }
        } else {
            return Err(ParseError::UnexpectedSymbol);
        }
        i = i + 1;
    }
    Ok(board)
}

/// Read the side-to-move field. Mirrors `parse_side_rec`.
fn parse_side_exec(field: &Vec<char>) -> (r: Result<Player, ParseError>)
    ensures
        r == parse_side_field(field@),
{
    let mut cur = Player::White;
    let mut i: usize = 0;
    while i < field.len()
        invariant
            i <= field@.len(),
            parse_side_field(field@) == parse_side_rec(field@, i as int, cur),
        decreases field@.len() - i,
    {
        let c = field[i];
        if c == 'w' {
            cur = Player::White;
        } else if c == 'b' {
            cur = Player::Black;
        } else {
            return Err(ParseError::UnexpectedSymbol);
        }
        i = i + 1;
    }
    Ok(cur)
}

/// Read the castling field. Mirrors `parse_castling_rec`.
fn parse_castling_exec(field: &Vec<char>) -> (r: Result<CastlingRights, ParseError>)
    ensures
        r == parse_castling_field(field@),
{
    let mut cur = CastlingRights {
        white_kingside: false,
        white_queenside: false,
        black_kingside: false,
        black_queenside: false,
    };
    let mut i: usize = 0;
    while i < field.len()
        invariant
            i <= field@.len(),
            parse_castling_field(field@) == parse_castling_rec(field@, i as int, cur),
        decreases field@.len() - i,
    {
        let c = field[i];
        if c == 'K' {
            cur.white_kingside = true;
        } else if c == 'Q' {
            cur.white_queenside = true;
        } else if c == 'k' {
            cur.black_kingside = true;
        } else if c == 'q' {
            cur.black_queenside = true;
        } else if c == '-' {
        } else {
            return Err(ParseError::UnexpectedSymbol);
        }
        i = i + 1;
    }
    Ok(cur)
}

/// Read the en-passant field. Mirrors `parse_ep_field`.
fn parse_ep_exec(field: &Vec<char>) -> (r: Result<Option<(u8, u8)>, ParseError>)
    ensures
        r == parse_ep_field(field@),
{
    if field.len() == 1 {
        if field[0] == '-' {
            return Ok(None);
        }
        return Err(ParseError::UnexpectedSymbol);
    }
    if field.len() == 2 {
        if let Some(file) = file_letter_exec(field[0]) {
            if let Some(d) = digit_1_8_exec(field[1]) {
                return Ok(Some((8 - d, file)));
            }
        }
        return Err(ParseError::UnexpectedSymbol);
    }
    Err(ParseError::UnexpectedSymbol)
}

/// Read a counter field. Mirrors `parse_u16_rec`.
fn parse_u16_exec(field: &Vec<char>) -> (r: Result<u16, ParseError>)
    ensures
        r == parse_u16_field(field@),
{
    if field.len() == 0 {
        return Err(ParseError::InvalidInteger);
    }
    let mut acc: u32 = 0;
    let mut i: usize = 0;
    while i < field.len()
        invariant
            i <= field@.len(),
            acc <= 65535,
            field@.len() > 0,
            parse_u16_field(field@) == parse_u16_rec(field@, i as int, acc as int),
        decreases field@.len() - i,
    {
        let c = field[i];
        if let Some(d) = digit_0_9_exec(c) {
            let next = acc * 10 + d as u32;
            if next > 65535 {
                return Err(ParseError::InvalidInteger);
            }
            acc = next;
        } else {
            return Err(ParseError::InvalidInteger);
        }
        i = i + 1;
    }
    Ok(acc as u16)
}

/// Build a position from a descriptor string. Fails with a `ParseError`
/// exactly where `parse_fen_spec` does: fewer than six fields, a bad
/// character in any field, a piece placed off the board, or a counter that
/// is not a valid integer. On success the returned position is exactly the
/// one the descriptor names.
pub fn fen_to_game_state(raw_fen: &str) -> (r: Result<GameState, ParseError>)
    ensures
        parse_fen_spec(raw_fen@) matches Ok(model) ==> r matches Ok(gs) && gs@ == model,
        parse_fen_spec(raw_fen@) matches Err(e) ==> r matches Err(e2) && e2 == e,
        r matches Ok(gs) ==> wf_state(gs@),
{
    proof {
        lemma_parse_fen_wf(raw_fen@);
    }
    let chars = chars_of(raw_fen);
    let fields = split_fields(&chars);
    if fields.len() < 6 {
        return Err(ParseError::MissingFields);
    }

    let board = match parse_board_exec(&fields[0]) {
        Ok(b) => b,
        Err(e) => {
            return Err(e);
        },
    };
    let player = match parse_side_exec(&fields[1]) {
        Ok(p) => p,
        Err(e) => {
            return Err(e);
        },
    };
    let rights = match parse_castling_exec(&fields[2]) {
        Ok(cr) => cr,
        Err(e) => {
            return Err(e);
        },
    };
    let ep = match parse_ep_exec(&fields[3]) {
        Ok(t) => t,
        Err(e) => {
            return Err(e);
        },
    };
    let half = match parse_u16_exec(&fields[4]) {
        Ok(v) => v,
        Err(e) => {
            return Err(e);
        },
    };
    let full = match parse_u16_exec(&fields[5]) {
        Ok(v) => v,
        Err(e) => {
            return Err(e);
        },
    };

    let game_state = GameState {
        board,
        player_to_move: player,
        castling_rights: rights,
        en_passant_target: ep,
        halfmove_counter: half,
        fullmove_counter: full,
    };
    proof {
        assert(game_state@ =~= parse_fen_spec(raw_fen@)->Ok_0);
    }
    Ok(game_state)
}

} // verus!
