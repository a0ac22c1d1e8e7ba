use crate::game::moves::{captures, check_move_piece};
use crate::game::piece::{
    is_lower, kind_of_letter, letter_kind, lower_case, Color, Piece, PieceType,
};
use crate::game::position::{Position, BOARD_SIZE};
use crate::game::text::{decimal, push_decimal};
use crate::game::words::{lemma_words_shape, split_words, words};
use vstd::prelude::*;
use vstd::string::*;
use vstd::utf8::encode_utf8;

verus! {

/// Length in bytes of a row of the board: one character per cell, and one
/// space between neighbouring cells.
pub const ROW_LENGTH: usize = BOARD_SIZE * 2 - 1;

/// A board with its white and its black piece.
#[derive(Clone, Copy, Debug, PartialEq, Eq, Structural)]
pub struct Table {
    /// The white piece.
    pub white_piece: Piece,
    /// The black piece.
    pub black_piece: Piece,
}

impl Table {
    /// A board on which no piece has been placed yet.
    pub open spec fn unset() -> Table {
        Table { white_piece: Piece::unset(), black_piece: Piece::unset() }
    }

    /// Both pieces stand on the board.
    pub open spec fn on_board(self) -> bool {
        self.white_piece.position.on_board() && self.black_piece.position.on_board()
    }

    /// Both pieces are placed, each on the board and with its own colour.
    pub open spec fn valid(self) -> bool {
        &&& self.on_board()
        &&& self.white_piece.piece_type != PieceType::Empty
        &&& self.white_piece.color == Color::White
        &&& self.black_piece.piece_type != PieceType::Empty
        &&& self.black_piece.color == Color::Black
    }

    /// Each placed piece stands on the board and has its own colour.
    pub open spec fn sound(self) -> bool {
        &&& (self.white_piece.piece_type == PieceType::Empty || (
        self.white_piece.position.on_board() && self.white_piece.color == Color::White))
        &&& (self.black_piece.piece_type == PieceType::Empty || (
        self.black_piece.position.on_board() && self.black_piece.color == Color::Black))
    }

    /// The white piece.
    pub fn white(&self) -> (r: Piece)
        ensures
            r == self.white_piece,
    {
        self.white_piece
    }

    /// The black piece.
    pub fn black(&self) -> (r: Piece)
        ensures
            r == self.black_piece,
    {
        self.black_piece
    }
}

/// Why a board text was refused, as the library states it.
pub enum ParseFault {
    /// The text does not have `expected` rows.
    RowCount { expected: nat, actual: nat },
    /// Row `row` is not `expected` bytes long.
    RowLength { row: nat, expected: nat, actual: nat },
    /// A cell holds more than one character, or one that stands for nothing.
    InvalidPiece { token: Seq<char> },
    /// A second piece of `color` was met.
    DuplicatePiece { color: Color },
    /// No piece of `color` was met.
    MissingPiece { color: Color },
}

impl ParseFault {
    /// The text that reports the fault.
    pub open spec fn message(self) -> Seq<char> {
        match self {
            ParseFault::RowCount { expected, actual } => "ERROR: Table formated incorrectly. Table has "@
                + decimal(actual) + " rows, expected "@ + decimal(expected),
            ParseFault::RowLength { row, expected, actual } =>
                "ERROR: Table formated incorrectly. Row number "@ + decimal(row) + " has "@ + decimal(
                actual,
            ) + " characters, expected "@ + decimal(expected),
            ParseFault::InvalidPiece { token } => "ERROR: Invalid piece: "@ + token,
            ParseFault::DuplicatePiece { color } => if color == Color::White {
                "ERROR: More than one white piece inserted"@
            } else {
                "ERROR: More than one black piece inserted"@
            },
            ParseFault::MissingPiece { color } => if color == Color::White {
                "ERROR: No white piece inserted"@
            } else {
                "ERROR: No black piece inserted"@
            },
        }
    }
}

/// Why a board text was refused.
#[derive(Debug)]
pub enum ParseError {
    /// The text does not have `expected` rows.
    RowCount { expected: usize, actual: usize },
    /// Row `row` is not `expected` bytes long.
    RowLength { row: usize, expected: usize, actual: usize },
    /// A cell holds more than one character, or one that stands for nothing.
    InvalidPiece { token: String },
    /// A second piece of `color` was met.
    DuplicatePiece { color: Color },
    /// No piece of `color` was met.
    MissingPiece { color: Color },
}

impl View for ParseError {
    type V = ParseFault;

    open spec fn view(&self) -> ParseFault {
        match self {
            ParseError::RowCount { expected, actual } => ParseFault::RowCount {
                expected: *expected as nat,
                actual: *actual as nat,
            },
            ParseError::RowLength { row, expected, actual } => ParseFault::RowLength {
                row: *row as nat,
                expected: *expected as nat,
                actual: *actual as nat,
            },
            ParseError::InvalidPiece { token } => ParseFault::InvalidPiece { token: token@ },
            ParseError::DuplicatePiece { color } => ParseFault::DuplicatePiece { color: *color },
            ParseError::MissingPiece { color } => ParseFault::MissingPiece { color: *color },
        }
    }
}

impl ParseError {
    /// The text that reports the error.
    pub fn message(&self) -> (r: String)
        ensures
            r@ == self@.message(),
    {
        match self {
            ParseError::RowCount { expected, actual } => {
                let mut s = "ERROR: Table formated incorrectly. Table has ".to_owned();
                push_decimal(&mut s, *actual);
                s.append(" rows, expected ");
                push_decimal(&mut s, *expected);
                s
            },
            ParseError::RowLength { row, expected, actual } => {
                let mut s = "ERROR: Table formated incorrectly. Row number ".to_owned();
                push_decimal(&mut s, *row);
                s.append(" has ");
                push_decimal(&mut s, *actual);
                s.append(" characters, expected ");
                push_decimal(&mut s, *expected);
                s
            },
            ParseError::InvalidPiece { token } => {
                let mut s = "ERROR: Invalid piece: ".to_owned();
                s.append(token.as_str());
                s
            },
            ParseError::DuplicatePiece { color } => match color {
                Color::White => "ERROR: More than one white piece inserted".to_owned(),
                _ => "ERROR: More than one black piece inserted".to_owned(),
            },
            ParseError::MissingPiece { color } => match color {
                Color::White => "ERROR: No white piece inserted".to_owned(),
                _ => "ERROR: No black piece inserted".to_owned(),
            },
        }
    }
}

/// What reading the one-character cell `c` at column `col` of row `row` makes
/// of the board `t`: `_` leaves the board as it is; any character that is not
/// the letter of a piece type is refused; a lower-case letter places the white
/// piece and an upper-case one the black piece, unless that colour's piece is
/// already placed.
pub open spec fn place(t: Table, c: char, col: nat, row: nat) -> Result<Table, ParseFault> {
    let at = Position { x: col as usize, y: row as usize };
    if c == '_' {
        Ok(t)
    } else if letter_kind(c) == PieceType::Empty {
        Err(ParseFault::InvalidPiece { token: seq![c] })
    } else if is_lower(c) {
        if t.white_piece.piece_type != PieceType::Empty {
            Err(ParseFault::DuplicatePiece { color: Color::White })
        } else {
            Ok(
                Table {
                    white_piece: Piece { piece_type: letter_kind(c), position: at, color: Color::White },
                    black_piece: t.black_piece,
                },
            )
        }
    } else {
        if t.black_piece.piece_type != PieceType::Empty {
            Err(ParseFault::DuplicatePiece { color: Color::Black })
        } else {
            Ok(
                Table {
                    white_piece: t.white_piece,
                    black_piece: Piece { piece_type: letter_kind(c), position: at, color: Color::Black },
                },
            )
        }
    }
}

/// What reading the word `token`, the cell at column `col` of row `row`,
/// makes of `t`: a word of more than one character is refused.
pub open spec fn read_token(t: Table, token: Seq<char>, col: nat, row: nat) -> Result<
    Table,
    ParseFault,
> {
    if token.len() != 1 {
        Err(ParseFault::InvalidPiece { token })
    } else {
        place(t, token[0], col, row)
    }
}

/// Reads the words of row `row` from left to right, stopping at the first
/// fault; the index of a word is its column.
pub open spec fn read_tokens(t: Table, tokens: Seq<Seq<char>>, row: nat) -> Result<
    Table,
    ParseFault,
>
    decreases tokens.len(),
{
    if tokens.len() == 0 {
        Ok(t)
    } else {
        match read_tokens(t, tokens.drop_last(), row) {
            Ok(t2) => read_token(t2, tokens.last(), (tokens.len() - 1) as nat, row),
            Err(f) => Err(f),
        }
    }
}

/// The length in bytes of the text `line`: the length of its UTF-8 encoding.
pub open spec fn byte_len(line: Seq<char>) -> nat {
    encode_utf8(line).len()
}

/// Reads row `row`, the text `line`: its length in bytes is checked first.
pub open spec fn read_row(t: Table, line: Seq<char>, row: nat) -> Result<Table, ParseFault> {
    if byte_len(line) != ROW_LENGTH {
        Err(ParseFault::RowLength { row, expected: ROW_LENGTH as nat, actual: byte_len(line) })
    } else {
        read_tokens(t, words(line), row)
    }
}

/// The board as it stands once the words of row `row` have been read into
/// `t`: the word that meets a fault, and every word after it, change nothing.
pub open spec fn read_tokens_board(t: Table, tokens: Seq<Seq<char>>, row: nat) -> Table
    decreases tokens.len(),
{
    if tokens.len() == 0 {
        t
    } else {
        match read_tokens(t, tokens.drop_last(), row) {
            Ok(t2) => match read_token(t2, tokens.last(), (tokens.len() - 1) as nat, row) {
                Ok(t3) => t3,
                Err(_) => t2,
            },
            Err(_) => read_tokens_board(t, tokens.drop_last(), row),
        }
    }
}

/// The board as it stands once row `row`, the text `line`, has been read into
/// `t`: a row of the wrong length changes nothing.
pub open spec fn read_row_board(t: Table, line: Seq<char>, row: nat) -> Table {
    if byte_len(line) != ROW_LENGTH {
        t
    } else {
        read_tokens_board(t, words(line), row)
    }
}

/// Reads the rows from the top, starting from an empty board and stopping at
/// the first fault.
pub open spec fn read_rows(rows: Seq<Seq<char>>) -> Result<Table, ParseFault>
    decreases rows.len(),
{
    if rows.len() == 0 {
        Ok(Table::unset())
    } else {
        match read_rows(rows.drop_last()) {
            Ok(t) => read_row(t, rows.last(), (rows.len() - 1) as nat),
            Err(f) => Err(f),
        }
    }
}

/// The board that the text `rows` describes, or the first fault in it: the
/// number of rows is checked first, then each row in turn, then that each
/// colour has its piece.
pub open spec fn parse_rows(rows: Seq<Seq<char>>) -> Result<Table, ParseFault> {
    if rows.len() != BOARD_SIZE {
        Err(ParseFault::RowCount { expected: BOARD_SIZE as nat, actual: rows.len() })
    } else {
        match read_rows(rows) {
            Err(f) => Err(f),
            Ok(t) => if t.white_piece.piece_type == PieceType::Empty {
                Err(ParseFault::MissingPiece { color: Color::White })
            } else if t.black_piece.piece_type == PieceType::Empty {
                Err(ParseFault::MissingPiece { color: Color::Black })
            } else {
                Ok(t)
            },
        }
    }
}

/// The text of each line.
pub open spec fn texts(lines: Seq<String>) -> Seq<Seq<char>> {
    lines.map_values(|l: String| l@)
}

/// A parse result, with its error seen as a fault.
pub open spec fn outcome(r: Result<Table, ParseError>) -> Result<Table, ParseFault> {
    match r {
        Ok(t) => Ok(t),
        Err(e) => Err(e@),
    }
}

/// Once the words read so far have met a fault, the rest of the row is not
/// looked at.
pub proof fn lemma_tokens_stop(t: Table, tokens: Seq<Seq<char>>, k: int, row: nat)
    requires
        0 <= k <= tokens.len(),
        read_tokens(t, tokens.take(k), row) is Err,
    ensures
        read_tokens(t, tokens, row) == read_tokens(t, tokens.take(k), row),
    decreases tokens.len(),
{
    if k < tokens.len() {
        assert(tokens.drop_last().take(k) =~= tokens.take(k));
        lemma_tokens_stop(t, tokens.drop_last(), k, row);
    } else {
        assert(tokens.take(k) =~= tokens);
    }
}

/// Once the words read so far have met a fault, the board no longer changes.
pub proof fn lemma_tokens_board_stop(t: Table, tokens: Seq<Seq<char>>, k: int, row: nat)
    requires
        0 <= k <= tokens.len(),
        read_tokens(t, tokens.take(k), row) is Err,
    ensures
        read_tokens_board(t, tokens, row) == read_tokens_board(t, tokens.take(k), row),
    decreases tokens.len(),
{
    if k < tokens.len() {
        assert(tokens.drop_last().take(k) =~= tokens.take(k));
        lemma_tokens_stop(t, tokens.drop_last(), k, row);
        lemma_tokens_board_stop(t, tokens.drop_last(), k, row);
    } else {
        assert(tokens.take(k) =~= tokens);
    }
}

/// A piece already placed stays where it is, whatever the words read.
pub proof fn lemma_tokens_keep_placed(t: Table, tokens: Seq<Seq<char>>, row: nat)
    ensures
        read_tokens(t, tokens, row) matches Ok(t2) ==> (t.white_piece.piece_type
            != PieceType::Empty ==> t2.white_piece == t.white_piece) && (t.black_piece.piece_type
            != PieceType::Empty ==> t2.black_piece == t.black_piece),
        t.white_piece.piece_type != PieceType::Empty ==> read_tokens_board(t, tokens, row).white_piece
            == t.white_piece,
        t.black_piece.piece_type != PieceType::Empty ==> read_tokens_board(t, tokens, row).black_piece
            == t.black_piece,
    decreases tokens.len(),
{
    if tokens.len() > 0 {
        lemma_tokens_keep_placed(t, tokens.drop_last(), row);
    }
}

/// Once the rows read so far have met a fault, the rest of the board is not
/// looked at.
pub proof fn lemma_rows_stop(rows: Seq<Seq<char>>, k: int)
    requires
        0 <= k <= rows.len(),
        read_rows(rows.take(k)) is Err,
    ensures
        read_rows(rows) == read_rows(rows.take(k)),
    decreases rows.len(),
{
    if k < rows.len() {
        assert(rows.drop_last().take(k) =~= rows.take(k));
        lemma_rows_stop(rows.drop_last(), k);
    } else {
        assert(rows.take(k) =~= rows);
    }
}

/// Reads the line `line`, row `line_number` of the board, into `table`. On a
/// fault, `table` keeps what the words before the faulty one placed.
fn parse_line(line: &String, table: &mut Table, line_number: usize) -> (r: Result<(), ParseError>)
    ensures
        match read_row(*old(table), line@, line_number as nat) {
            Ok(t) => r is Ok && *final(table) == t,
            Err(f) => r matches Err(e) && e@ == f,
        },
        *final(table) == read_row_board(*old(table), line@, line_number as nat),
        old(table).white_piece.piece_type != PieceType::Empty ==> final(table).white_piece == old(
            table,
        ).white_piece,
        old(table).black_piece.piece_type != PieceType::Empty ==> final(table).black_piece == old(
            table,
        ).black_piece,
{
    let len = line.as_str().as_bytes().len();
    if len != ROW_LENGTH {
        return Err(ParseError::RowLength { row: line_number, expected: ROW_LENGTH, actual: len });
    }
    let tokens = split_words(line.as_str());
    let ghost toks = words(line@);
    let ghost t0 = *table;
    let ghost row = line_number as nat;
    proof {
        lemma_tokens_keep_placed(t0, toks, row);
    }
    let mut j: usize = 0;
    while j < tokens.len()
        invariant
            tokens@.map_values(|w: String| w@) == toks,
            toks == words(line@),
            t0 == *old(table),
            row == line_number as nat,
            byte_len(line@) == ROW_LENGTH,
            j <= tokens.len(),
            read_tokens(t0, toks.take(j as int), row) == Ok::<Table, ParseFault>(*table),
        decreases tokens.len() - j,
    {
        let word = &tokens[j];
        assert(toks.take(j + 1).drop_last() =~= toks.take(j as int));
        assert(word@ == toks[j as int]);
        if word.as_str().unicode_len() != 1 {
            proof {
                lemma_tokens_stop(t0, toks, j + 1, row);
                lemma_tokens_board_stop(t0, toks, j + 1, row);
                lemma_tokens_keep_placed(t0, toks, row);
            }
            return Err(ParseError::InvalidPiece { token: word.clone() });
        }
        let c = word.as_str().get_char(0);
        assert(word@ =~= seq![c]);
        if c != '_' {
            let kind = kind_of_letter(c);
            if let PieceType::Empty = kind {
                proof {
                    lemma_tokens_stop(t0, toks, j + 1, row);
                    lemma_tokens_board_stop(t0, toks, j + 1, row);
                lemma_tokens_keep_placed(t0, toks, row);
                }
                return Err(ParseError::InvalidPiece { token: word.clone() });
            }
            if lower_case(c) {
                match table.white_piece.piece_type {
                    PieceType::Empty => {
                        table.white_piece = Piece {
                            piece_type: kind,
                            position: Position { x: j, y: line_number },
                            color: Color::White,
                        };
                    },
                    _ => {
                        proof {
                            lemma_tokens_stop(t0, toks, j + 1, row);
                            lemma_tokens_board_stop(t0, toks, j + 1, row);
                            lemma_tokens_keep_placed(t0, toks, row);
                lemma_tokens_keep_placed(t0, toks, row);
                        }
                        return Err(ParseError::DuplicatePiece { color: Color::White });
                    },
                }
            } else {
                match table.black_piece.piece_type {
                    PieceType::Empty => {
                        table.black_piece = Piece {
                            piece_type: kind,
                            position: Position { x: j, y: line_number },
                            color: Color::Black,
                        };
                    },
                    _ => {
                        proof {
                            lemma_tokens_stop(t0, toks, j + 1, row);
                            lemma_tokens_board_stop(t0, toks, j + 1, row);
                            lemma_tokens_keep_placed(t0, toks, row);
                lemma_tokens_keep_placed(t0, toks, row);
                        }
                        return Err(ParseError::DuplicatePiece { color: Color::Black });
                    },
                }
            }
        }
        j += 1;
    }
    assert(toks.take(toks.len() as int) =~= toks);
    Ok(())
}

/// A text has at least as many bytes as characters.
pub proof fn lemma_bytes_cover_chars(s: Seq<char>)
    ensures
        s.len() <= encode_utf8(s).len(),
    decreases s.len(),
{
    if s.len() > 0 {
        lemma_bytes_cover_chars(s.drop_first());
    }
}

/// Reading at most a board's width of words into a row of the board keeps
/// every placed piece on the board.
pub proof fn lemma_tokens_sound(t: Table, tokens: Seq<Seq<char>>, row: nat)
    requires
        t.sound(),
        tokens.len() <= BOARD_SIZE,
        row < BOARD_SIZE,
    ensures
        read_tokens(t, tokens, row) matches Ok(t2) ==> t2.sound(),
    decreases tokens.len(),
{
    if tokens.len() > 0 {
        lemma_tokens_sound(t, tokens.drop_last(), row);
    }
}

/// A row of the right length has at most a board's width of words, so reading
/// it keeps every placed piece on the board.
pub proof fn lemma_row_sound(t: Table, line: Seq<char>, row: nat)
    requires
        t.sound(),
        row < BOARD_SIZE,
    ensures
        read_row(t, line, row) matches Ok(t2) ==> t2.sound(),
{
    if byte_len(line) == ROW_LENGTH {
        lemma_bytes_cover_chars(line);
        lemma_words_shape(line);
        lemma_tokens_sound(t, words(line), row);
    }
}

/// Reading at most a board's height of rows keeps every placed piece on the
/// board.
pub proof fn lemma_rows_sound(rows: Seq<Seq<char>>)
    requires
        rows.len() <= BOARD_SIZE,
    ensures
        read_rows(rows) matches Ok(t) ==> t.sound(),
    decreases rows.len(),
{
    if rows.len() > 0 {
        lemma_rows_sound(rows.drop_last());
        if let Ok(t) = read_rows(rows.drop_last()) {
            lemma_row_sound(t, rows.last(), (rows.len() - 1) as nat);
        }
    }
}

/// A board that parses is valid.
pub proof fn lemma_parsed_valid(rows: Seq<Seq<char>>)
    ensures
        parse_rows(rows) matches Ok(t) ==> t.valid(),
{
    if rows.len() == BOARD_SIZE {
        lemma_rows_sound(rows);
    }
}

/// Parses the board text `lines`, one string per row, without line ends.
pub fn parse_board(lines: &Vec<String>) -> (r: Result<Table, ParseError>)
    ensures
        outcome(r) == parse_rows(texts(lines@)),
        r matches Ok(t) ==> t.valid(),
{
    let ghost rows = texts(lines@);
    if lines.len() != BOARD_SIZE {
        return Err(ParseError::RowCount { expected: BOARD_SIZE, actual: lines.len() });
    }
    let mut table = Table { white_piece: Piece::new(), black_piece: Piece::new() };
    let mut i: usize = 0;
    while i < lines.len()
        invariant
            rows == texts(lines@),
            lines.len() == BOARD_SIZE,
            i <= lines.len(),
            read_rows(rows.take(i as int)) == Ok::<Table, ParseFault>(table),
        decreases lines.len() - i,
    {
        assert(rows.take(i + 1).drop_last() =~= rows.take(i as int));
        assert(rows[i as int] == lines@[i as int]@);
        match parse_line(&lines[i], &mut table, i) {
            Ok(()) => {},
            Err(e) => {
                proof {
                    lemma_rows_stop(rows, i + 1);
                }
                return Err(e);
            },
        }
        i += 1;
    }
    assert(rows.take(rows.len() as int) =~= rows);
    proof {
        lemma_parsed_valid(rows);
    }
    if let PieceType::Empty = table.white_piece.piece_type {
        return Err(ParseError::MissingPiece { color: Color::White });
    }
    if let PieceType::Empty = table.black_piece.piece_type {
        return Err(ParseError::MissingPiece { color: Color::Black });
    }
    Ok(table)
}

/// Parses the board text `lines`, one string per row, without line ends; an
/// error comes as the text that reports it.
pub fn parse_table(lines: &Vec<String>) -> (r: Result<Table, String>)
    ensures
        match parse_rows(texts(lines@)) {
            Ok(t) => r == Ok::<Table, String>(t),
            Err(f) => r matches Err(m) && m@ == f.message(),
        },
        r matches Ok(t) ==> t.valid(),
{
    match parse_board(lines) {
        Ok(t) => Ok(t),
        Err(e) => Err(e.message()),
    }
}

/// Whether the white piece can capture the black one, and whether the black
/// piece can capture the white one.
pub fn check_moves(table: &Table) -> (r: (bool, bool))
    requires
        table.on_board(),
    ensures
        r == (
            captures(table.white_piece, table.black_piece.position),
            captures(table.black_piece, table.white_piece.position),
        ),
{
    (
        check_move_piece(&table.white_piece, &table.black_piece),
        check_move_piece(&table.black_piece, &table.white_piece),
    )
}

} // verus!
