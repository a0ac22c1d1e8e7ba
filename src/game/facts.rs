use crate::game::moves::{moves_to, pawn_reaches};
use crate::game::piece::{is_lower, is_upper, letter_kind, Color, Piece, PieceType};
use crate::game::position::{Position, BOARD_SIZE};
use crate::game::table::{
    byte_len, parse_rows, read_row, read_rows, read_token, read_tokens, texts, ParseFault, Table,
    ROW_LENGTH,
};
use crate::game::text::{decimal, lemma_decimal_digits, lemma_decimal_injective, lemma_split_digits};
use crate::game::words::{is_blank, words};
use vstd::prelude::*;
use vstd::utf8::{is_ascii_chars, is_ascii_chars_encode_utf8};

verus! {

// ---------------------------------------------------------------------------
// Reach
// ---------------------------------------------------------------------------

/// Every piece type but the pawn moves alike for both colours, and reaches
/// `b` from `a` exactly when it reaches `a` from `b`.
pub proof fn reach_is_symmetric(kind: PieceType, c1: Color, c2: Color, a: Position, b: Position)
    requires
        kind != PieceType::Pawn,
    ensures
        moves_to(kind, c1, a, b) == moves_to(kind, c2, b, a),
{
}

/// A pawn's reach is not symmetric, for either colour: a white pawn on
/// column 3, row 4 reaches column 4, row 3, and not the other way round; a
/// black pawn on column 3, row 4 reaches column 4, row 5, and not the other way
/// round.
pub proof fn pawn_reach_is_not_symmetric()
    ensures
        exists|a: Position, b: Position|
            a.on_board() && b.on_board() && #[trigger] pawn_reaches(Color::White, a, b)
                && !pawn_reaches(Color::White, b, a),
        exists|a: Position, b: Position|
            a.on_board() && b.on_board() && #[trigger] pawn_reaches(Color::Black, a, b)
                && !pawn_reaches(Color::Black, b, a),
{
    let a = Position { x: 3, y: 4 };
    let b = Position { x: 4, y: 3 };
    let c = Position { x: 4, y: 5 };
    assert(pawn_reaches(Color::White, a, b) && !pawn_reaches(Color::White, b, a));
    assert(pawn_reaches(Color::Black, a, c) && !pawn_reaches(Color::Black, c, a));
}

// ---------------------------------------------------------------------------
// Kinds of fault
// ---------------------------------------------------------------------------

/// Reading words only ever meets a bad cell or a second piece.
pub proof fn lemma_token_faults(t: Table, tokens: Seq<Seq<char>>, row: nat)
    ensures
        read_tokens(t, tokens, row) matches Err(f) ==> (f is InvalidPiece || f is DuplicatePiece),
    decreases tokens.len(),
{
    if tokens.len() > 0 {
        lemma_token_faults(t, tokens.drop_last(), row);
    }
}

/// Reading rows never meets a fault on the number of rows, and a fault on a
/// row's length names a row that has the wrong length.
pub proof fn lemma_row_faults(rows: Seq<Seq<char>>)
    ensures
        read_rows(rows) matches Err(f) ==> !(f is RowCount) && !(f is MissingPiece),
        read_rows(rows) matches Err(ParseFault::RowLength { row, expected, actual }) ==> row
            < rows.len() && byte_len(rows[row as int]) != ROW_LENGTH && actual == byte_len(
            rows[row as int],
        ) && expected == ROW_LENGTH,
        read_rows(rows) matches Err(ParseFault::RowLength { row, .. }) ==> read_rows(
            rows.take(row as int),
        ) is Ok,
    decreases rows.len(),
{
    if rows.len() > 0 {
        let prefix = rows.drop_last();
        lemma_row_faults(prefix);
        if let Ok(t) = read_rows(prefix) {
            lemma_token_faults(t, words(rows.last()), (rows.len() - 1) as nat);
            assert(rows.take(rows.len() - 1) =~= prefix);
        } else if let Err(ParseFault::RowLength { row, .. }) = read_rows(prefix) {
            assert(prefix.take(row as int) =~= rows.take(row as int));
        }
    }
}

/// Rows that read without fault all have the right length.
pub proof fn lemma_read_rows_lengths(rows: Seq<Seq<char>>)
    ensures
        read_rows(rows) is Ok ==> forall|j: int|
            0 <= j < rows.len() ==> byte_len(#[trigger] rows[j]) == ROW_LENGTH,
    decreases rows.len(),
{
    if rows.len() > 0 {
        lemma_read_rows_lengths(rows.drop_last());
        if read_rows(rows) is Ok {
            assert forall|j: int| 0 <= j < rows.len() implies byte_len(#[trigger] rows[j])
                == ROW_LENGTH by {
                if j < rows.len() - 1 {
                    assert(rows.drop_last()[j] == rows[j]);
                }
            }
        }
    }
}

/// The parse fails on the number of rows exactly when there are not
/// `BOARD_SIZE` of them.
pub proof fn row_count_fault(rows: Seq<Seq<char>>)
    ensures
        (parse_rows(rows) matches Err(f) && f is RowCount) <==> rows.len() != BOARD_SIZE,
{
    lemma_row_faults(rows);
}

/// The parse fails on a row's length only where some row has the wrong
/// length: so never when every row has the right one.
pub proof fn row_length_fault_names_bad_row(rows: Seq<Seq<char>>)
    ensures
        parse_rows(rows) matches Err(ParseFault::RowLength { row, .. }) ==> row < rows.len()
            && byte_len(rows[row as int]) != ROW_LENGTH,
        (forall|i: int| 0 <= i < rows.len() ==> byte_len(#[trigger] rows[i]) == ROW_LENGTH)
            ==> !(parse_rows(rows) matches Err(f) && f is RowLength),
{
    lemma_row_faults(rows);
}

/// Of `BOARD_SIZE` rows, the parse fails on the length of row `i` exactly
/// when that row has the wrong length and the rows above it read without
/// fault; those rows then all have the right length. The fault gives the
/// row's actual length and the expected one.
pub proof fn row_length_fault_iff(rows: Seq<Seq<char>>, i: int)
    requires
        rows.len() == BOARD_SIZE,
        0 <= i < rows.len(),
    ensures
        (parse_rows(rows) matches Err(ParseFault::RowLength { row, .. }) && row == i) <==> (
        byte_len(rows[i]) != ROW_LENGTH && read_rows(rows.take(i)) is Ok),
        byte_len(rows[i]) != ROW_LENGTH && read_rows(rows.take(i)) is Ok ==> parse_rows(rows)
            == Err::<Table, ParseFault>(
            ParseFault::RowLength {
                row: i as nat,
                expected: ROW_LENGTH as nat,
                actual: byte_len(rows[i]),
            },
        ),
        read_rows(rows.take(i)) is Ok ==> forall|j: int|
            0 <= j < i ==> byte_len(#[trigger] rows[j]) == ROW_LENGTH,
{
    lemma_row_faults(rows);
    lemma_read_rows_lengths(rows.take(i));
    assert forall|j: int| 0 <= j < i implies rows.take(i)[j] == rows[j] by {}
    if byte_len(rows[i]) != ROW_LENGTH && read_rows(rows.take(i)) is Ok {
        assert(rows.take(i + 1).drop_last() =~= rows.take(i));
        crate::game::table::lemma_rows_stop(rows, i + 1);
    }
}

proof fn lemma_row_length_message(f: ParseFault, r: nat, a: nat)
    requires
        !(f is RowCount),
        f matches ParseFault::RowLength { expected, .. } ==> expected == ROW_LENGTH,
        f.message() == (ParseFault::RowLength { row: r, expected: ROW_LENGTH as nat, actual: a }).message(),
    ensures
        f == (ParseFault::RowLength { row: r, expected: ROW_LENGTH as nat, actual: a }),
{
    reveal_strlit("ERROR: Table formated incorrectly. Row number ");
    reveal_strlit(" has ");
    reveal_strlit(" characters, expected ");
    reveal_strlit("ERROR: Invalid piece: ");
    reveal_strlit("ERROR: More than one white piece inserted");
    reveal_strlit("ERROR: More than one black piece inserted");
    reveal_strlit("ERROR: No white piece inserted");
    reveal_strlit("ERROR: No black piece inserted");
    let head = "ERROR: Table formated incorrectly. Row number "@;
    let has = " has "@;
    let tail = " characters, expected "@;
    let target = (ParseFault::RowLength { row: r, expected: ROW_LENGTH as nat, actual: a });
    assert(target.message() =~= head + (decimal(r) + (has + (decimal(a) + (tail + decimal(
        ROW_LENGTH as nat,
    ))))));
    assert(target.message()[7] == 'T');
    match f {
        ParseFault::RowLength { row, expected, actual } => {
            let m = f.message();
            assert(m =~= head + (decimal(row) + (has + (decimal(actual) + (tail + decimal(
                ROW_LENGTH as nat,
            ))))));
            let rest1 = decimal(r) + (has + (decimal(a) + (tail + decimal(ROW_LENGTH as nat))));
            let rest2 = decimal(row) + (has + (decimal(actual) + (tail + decimal(
                ROW_LENGTH as nat,
            ))));
            assert(rest1 =~= m.skip(head.len() as int));
            assert(rest2 =~= m.skip(head.len() as int));
            lemma_decimal_digits(r);
            lemma_decimal_digits(row);
            lemma_decimal_digits(a);
            lemma_decimal_digits(actual);
            lemma_split_digits(
                decimal(row),
                has + (decimal(actual) + (tail + decimal(ROW_LENGTH as nat))),
                decimal(r),
                has + (decimal(a) + (tail + decimal(ROW_LENGTH as nat))),
            );
            lemma_decimal_injective(row, r);
            let x1 = decimal(actual) + (tail + decimal(ROW_LENGTH as nat));
            let x2 = decimal(a) + (tail + decimal(ROW_LENGTH as nat));
            assert(x1 =~= (has + x1).skip(has.len() as int));
            assert(x2 =~= (has + x2).skip(has.len() as int));
            lemma_split_digits(
                decimal(actual),
                tail + decimal(ROW_LENGTH as nat),
                decimal(a),
                tail + decimal(ROW_LENGTH as nat),
            );
            lemma_decimal_injective(actual, a);
        },
        ParseFault::InvalidPiece { token } => {
            assert(f.message()[7] == 'I');
        },
        ParseFault::DuplicatePiece { color } => {
            assert(f.message()[7] == 'M');
        },
        ParseFault::MissingPiece { color } => {
            assert(f.message()[7] == 'N');
        },
        ParseFault::RowCount { .. } => {},
    }
}

/// Of `BOARD_SIZE` rows, the parse fails with the text that reports row `i`
/// as `byte_len(rows[i])` bytes long exactly when that row has the wrong
/// length and the rows above it read without fault.
pub proof fn row_length_message_iff(rows: Seq<Seq<char>>, i: int)
    requires
        rows.len() == BOARD_SIZE,
        0 <= i < rows.len(),
    ensures
        (parse_rows(rows) matches Err(f) && f.message() == (ParseFault::RowLength {
            row: i as nat,
            expected: ROW_LENGTH as nat,
            actual: byte_len(rows[i]),
        }).message()) <==> (byte_len(rows[i]) != ROW_LENGTH && read_rows(rows.take(i)) is Ok),
{
    row_length_fault_iff(rows, i);
    lemma_row_faults(rows);
    if let Err(f) = parse_rows(rows) {
        if f.message() == (ParseFault::RowLength {
            row: i as nat,
            expected: ROW_LENGTH as nat,
            actual: byte_len(rows[i]),
        }).message() {
            lemma_row_length_message(f, i as nat, byte_len(rows[i]));
        }
    }
}

// ---------------------------------------------------------------------------
// Counting pieces
// ---------------------------------------------------------------------------

/// A well-formed cell: one character, `_` or the letter of a piece type in
/// either case.
pub open spec fn proper_cell(token: Seq<char>) -> bool {
    token.len() == 1 && (token[0] == '_' || letter_kind(token[0]) != PieceType::Empty)
}

/// Every word of `tokens` is a well-formed cell.
pub open spec fn proper_cells(tokens: Seq<Seq<char>>) -> bool {
    forall|j: int| 0 <= j < tokens.len() ==> proper_cell(#[trigger] tokens[j])
}

/// A board text whose shape is right: `BOARD_SIZE` rows of `ROW_LENGTH`
/// bytes, each cell well formed.
pub open spec fn proper_board(rows: Seq<Seq<char>>) -> bool {
    &&& rows.len() == BOARD_SIZE
    &&& forall|i: int|
        0 <= i < rows.len() ==> byte_len(#[trigger] rows[i]) == ROW_LENGTH && proper_cells(
            words(rows[i]),
        )
}

/// The word is a letter of the given case: upper case for Black, lower case
/// for White.
pub open spec fn letter_of(token: Seq<char>, black: bool) -> bool {
    token.len() > 0 && if black {
        is_upper(token[0])
    } else {
        is_lower(token[0])
    }
}

/// How many of the words are letters of the given case.
pub open spec fn letters_in(tokens: Seq<Seq<char>>, black: bool) -> nat
    decreases tokens.len(),
{
    if tokens.len() == 0 {
        0
    } else {
        letters_in(tokens.drop_last(), black) + if letter_of(tokens.last(), black) {
            1nat
        } else {
            0
        }
    }
}

/// How many cells of the board hold a letter of the given case.
pub open spec fn letters_on(rows: Seq<Seq<char>>, black: bool) -> nat
    decreases rows.len(),
{
    if rows.len() == 0 {
        0
    } else {
        letters_on(rows.drop_last(), black) + letters_in(words(rows.last()), black)
    }
}

/// 1 where the slot holds a piece, 0 where it is empty.
pub open spec fn filled(p: Piece) -> nat {
    if p.piece_type == PieceType::Empty {
        0
    } else {
        1
    }
}

/// The pieces already on `t`, with `white` more white ones and `black` more
/// black ones, make at most one of each colour.
pub open spec fn fits(t: Table, white: nat, black: nat) -> bool {
    filled(t.white_piece) + white <= 1 && filled(t.black_piece) + black <= 1
}

proof fn lemma_tokens_count(t: Table, tokens: Seq<Seq<char>>, row: nat)
    requires
        proper_cells(tokens),
    ensures
        fits(t, letters_in(tokens, false), letters_in(tokens, true)) ==> (read_tokens(
            t,
            tokens,
            row,
        ) matches Ok(t2) && filled(t2.white_piece) == filled(t.white_piece) + letters_in(
            tokens,
            false,
        ) && filled(t2.black_piece) == filled(t.black_piece) + letters_in(tokens, true)),
        !fits(t, letters_in(tokens, false), letters_in(tokens, true)) ==> (read_tokens(
            t,
            tokens,
            row,
        ) matches Err(f) && f is DuplicatePiece),
    decreases tokens.len(),
{
    if tokens.len() > 0 {
        let prefix = tokens.drop_last();
        assert(proper_cells(prefix)) by {
            assert forall|j: int| 0 <= j < prefix.len() implies proper_cell(#[trigger] prefix[j]) by {
                assert(prefix[j] == tokens[j]);
            }
        }
        assert(proper_cell(tokens[tokens.len() - 1]));
        lemma_tokens_count(t, prefix, row);
    }
}

proof fn lemma_rows_count(rows: Seq<Seq<char>>)
    requires
        rows.len() <= BOARD_SIZE,
        forall|i: int|
            0 <= i < rows.len() ==> byte_len(#[trigger] rows[i]) == ROW_LENGTH && proper_cells(
                words(rows[i]),
            ),
    ensures
        fits(Table::unset(), letters_on(rows, false), letters_on(rows, true)) ==> (read_rows(
            rows,
        ) matches Ok(t) && filled(t.white_piece) == letters_on(rows, false) && filled(
            t.black_piece,
        ) == letters_on(rows, true)),
        !fits(Table::unset(), letters_on(rows, false), letters_on(rows, true)) ==> (read_rows(
            rows,
        ) matches Err(f) && f is DuplicatePiece),
    decreases rows.len(),
{
    if rows.len() > 0 {
        let prefix = rows.drop_last();
        assert forall|i: int| 0 <= i < prefix.len() implies byte_len(#[trigger] prefix[i])
            == ROW_LENGTH && proper_cells(words(prefix[i])) by {
            assert(prefix[i] == rows[i]);
        }
        lemma_rows_count(prefix);
        let last = rows[rows.len() - 1];
        assert(byte_len(last) == ROW_LENGTH && proper_cells(words(last)));
        if let Ok(t) = read_rows(prefix) {
            lemma_tokens_count(t, words(last), (rows.len() - 1) as nat);
        }
    }
}

/// On a board text of the right shape, the parse fails on a second piece of
/// a colour exactly when more than one lower-case, or more than one
/// upper-case, letter stands on it.
pub proof fn duplicate_fault_iff_two_letters(rows: Seq<Seq<char>>)
    requires
        proper_board(rows),
    ensures
        (parse_rows(rows) matches Err(f) && f is DuplicatePiece) <==> (letters_on(rows, false) >= 2
            || letters_on(rows, true) >= 2),
{
    lemma_rows_count(rows);
}

/// On a board text of the right shape with at most one letter of each case,
/// the parse fails on a missing piece exactly when no lower-case, or no
/// upper-case, letter stands on it: White is looked for first.
pub proof fn missing_fault_iff_no_letter(rows: Seq<Seq<char>>)
    requires
        proper_board(rows),
        letters_on(rows, false) <= 1,
        letters_on(rows, true) <= 1,
    ensures
        (parse_rows(rows) matches Err(f) && f is MissingPiece) <==> (letters_on(rows, false) == 0
            || letters_on(rows, true) == 0),
        letters_on(rows, false) == 0 ==> parse_rows(rows) == Err::<Table, ParseFault>(
            ParseFault::MissingPiece { color: Color::White },
        ),
        letters_on(rows, false) == 1 && letters_on(rows, true) == 0 ==> parse_rows(rows) == Err::<
            Table,
            ParseFault,
        >(ParseFault::MissingPiece { color: Color::Black }),
        letters_on(rows, false) == 1 && letters_on(rows, true) == 1 ==> parse_rows(rows) is Ok,
{
    lemma_rows_count(rows);
}

/// The colour that a letter of the given case stands for.
pub open spec fn case_color(black: bool) -> Color {
    if black {
        Color::Black
    } else {
        Color::White
    }
}

/// The words of the board, in reading order: the rows from the top, each row
/// from the left.
pub open spec fn cells(rows: Seq<Seq<char>>) -> Seq<Seq<char>>
    decreases rows.len(),
{
    if rows.len() == 0 {
        seq![]
    } else {
        cells(rows.drop_last()) + words(rows.last())
    }
}

/// Word `k` of `tokens` is a letter of the given case that makes that colour's
/// second piece, while the other colour has not had two yet; `white` white
/// pieces and `blacks` black ones were there before the first word.
pub open spec fn repeats_at(tokens: Seq<Seq<char>>, k: int, black: bool, white: nat, blacks: nat) -> bool {
    let w = white + letters_in(tokens.take(k), false);
    let b = blacks + letters_in(tokens.take(k), true);
    &&& letter_of(tokens[k], black)
    &&& if black {
        b == 1 && w <= 1
    } else {
        w == 1 && b <= 1
    }
}

proof fn lemma_letters_concat(a: Seq<Seq<char>>, b: Seq<Seq<char>>, black: bool)
    ensures
        letters_in(a + b, black) == letters_in(a, black) + letters_in(b, black),
    decreases b.len(),
{
    if b.len() == 0 {
        assert(a + b =~= a);
    } else {
        assert((a + b).drop_last() =~= a + b.drop_last());
        lemma_letters_concat(a, b.drop_last(), black);
    }
}

proof fn lemma_letters_on_cells(rows: Seq<Seq<char>>, black: bool)
    ensures
        letters_on(rows, black) == letters_in(cells(rows), black),
    decreases rows.len(),
{
    if rows.len() > 0 {
        lemma_letters_on_cells(rows.drop_last(), black);
        lemma_letters_concat(cells(rows.drop_last()), words(rows.last()), black);
    }
}

proof fn lemma_tokens_dup_color(t: Table, tokens: Seq<Seq<char>>, row: nat, black: bool)
    requires
        proper_cells(tokens),
    ensures
        (read_tokens(t, tokens, row) == Err::<Table, ParseFault>(
            ParseFault::DuplicatePiece { color: case_color(black) },
        )) <==> exists|k: int|
            0 <= k < tokens.len() && #[trigger] repeats_at(
                tokens,
                k,
                black,
                filled(t.white_piece),
                filled(t.black_piece),
            ),
    decreases tokens.len(),
{
    let w0 = filled(t.white_piece);
    let b0 = filled(t.black_piece);
    if tokens.len() == 0 {
    } else {
        let p = tokens.drop_last();
        let n = p.len() as int;
        assert(proper_cells(p)) by {
            assert forall|j: int| 0 <= j < p.len() implies proper_cell(#[trigger] p[j]) by {
                assert(p[j] == tokens[j]);
            }
        }
        assert(proper_cell(tokens[n]));
        lemma_tokens_dup_color(t, p, row, black);
        lemma_tokens_count(t, p, row);
        assert forall|k: int| 0 <= k < n implies #[trigger] repeats_at(tokens, k, black, w0, b0)
            == repeats_at(p, k, black, w0, b0) by {
            assert(tokens.take(k) =~= p.take(k));
        }
        assert(tokens.take(n) =~= p);
        let ex_p = exists|k: int| 0 <= k < n && #[trigger] repeats_at(p, k, black, w0, b0);
        let ex_t = exists|k: int|
            0 <= k < tokens.len() && #[trigger] repeats_at(tokens, k, black, w0, b0);
        assert(ex_t <==> (ex_p || repeats_at(tokens, n, black, w0, b0))) by {
            if ex_t {
                let k = choose|k: int|
                    0 <= k < tokens.len() && #[trigger] repeats_at(tokens, k, black, w0, b0);
                if k < n {
                    assert(repeats_at(p, k, black, w0, b0));
                }
            }
            if ex_p {
                let k = choose|k: int| 0 <= k < n && #[trigger] repeats_at(p, k, black, w0, b0);
                assert(repeats_at(tokens, k, black, w0, b0));
            }
        }
    }
}

proof fn lemma_rows_dup_color(rows: Seq<Seq<char>>, black: bool)
    requires
        rows.len() <= BOARD_SIZE,
        forall|i: int|
            0 <= i < rows.len() ==> byte_len(#[trigger] rows[i]) == ROW_LENGTH && proper_cells(
                words(rows[i]),
            ),
    ensures
        (read_rows(rows) == Err::<Table, ParseFault>(
            ParseFault::DuplicatePiece { color: case_color(black) },
        )) <==> exists|k: int|
            0 <= k < cells(rows).len() && #[trigger] repeats_at(cells(rows), k, black, 0, 0),
    decreases rows.len(),
{
    if rows.len() > 0 {
        let p = rows.drop_last();
        assert forall|i: int| 0 <= i < p.len() implies byte_len(#[trigger] p[i]) == ROW_LENGTH
            && proper_cells(words(p[i])) by {
            assert(p[i] == rows[i]);
        }
        let last = rows[rows.len() - 1];
        assert(byte_len(last) == ROW_LENGTH && proper_cells(words(last)));
        lemma_rows_dup_color(p, black);
        lemma_rows_count(p);
        lemma_letters_on_cells(p, false);
        lemma_letters_on_cells(p, true);
        let pc = cells(p);
        let w = words(last);
        let c = cells(rows);
        let m = pc.len() as int;
        let cw = letters_in(pc, false);
        let cb = letters_in(pc, true);
        assert(c == pc + w);
        assert forall|k: int| 0 <= k < m implies #[trigger] repeats_at(c, k, black, 0, 0)
            == repeats_at(pc, k, black, 0, 0) by {
            assert(c.take(k) =~= pc.take(k));
        }
        assert forall|j: int| 0 <= j < w.len() implies #[trigger] repeats_at(c, m + j, black, 0, 0)
            == repeats_at(w, j, black, cw, cb) by {
            assert(c.take(m + j) =~= pc + w.take(j));
            lemma_letters_concat(pc, w.take(j), false);
            lemma_letters_concat(pc, w.take(j), true);
        }
        let ex_p = exists|k: int| 0 <= k < m && #[trigger] repeats_at(pc, k, black, 0, 0);
        let ex_w = exists|j: int| 0 <= j < w.len() && #[trigger] repeats_at(w, j, black, cw, cb);
        let ex_c = exists|k: int| 0 <= k < c.len() && #[trigger] repeats_at(c, k, black, 0, 0);
        assert(ex_c <==> (ex_p || ex_w)) by {
            if ex_c {
                let k = choose|k: int| 0 <= k < c.len() && #[trigger] repeats_at(c, k, black, 0, 0);
                if k < m {
                    assert(repeats_at(pc, k, black, 0, 0));
                } else {
                    assert(m + (k - m) == k);
                    assert(repeats_at(c, m + (k - m), black, 0, 0));
                    assert(repeats_at(w, k - m, black, cw, cb));
                }
            }
            if ex_p {
                let k = choose|k: int| 0 <= k < m && #[trigger] repeats_at(pc, k, black, 0, 0);
                assert(repeats_at(c, k, black, 0, 0));
            }
            if ex_w {
                let j = choose|j: int| 0 <= j < w.len() && #[trigger] repeats_at(w, j, black, cw, cb);
                assert(repeats_at(c, m + j, black, 0, 0));
            }
        }
        if let Ok(t) = read_rows(p) {
            lemma_tokens_dup_color(t, w, (rows.len() - 1) as nat, black);
        }
    }
}

/// On a board text of the right shape, the parse fails on a second piece of
/// a colour exactly when, reading the cells in order, some cell holds that
/// colour's second letter while the other colour has not had two letters yet.
pub proof fn duplicate_fault_color(rows: Seq<Seq<char>>, black: bool)
    requires
        proper_board(rows),
    ensures
        (parse_rows(rows) == Err::<Table, ParseFault>(
            ParseFault::DuplicatePiece { color: case_color(black) },
        )) <==> exists|k: int|
            0 <= k < cells(rows).len() && #[trigger] repeats_at(cells(rows), k, black, 0, 0),
{
    lemma_rows_dup_color(rows, black);
}

/// Parsing depends on the text of the lines alone: two lists of lines with
/// the same text give the same board, or the same fault.
pub proof fn parse_is_deterministic(a: Seq<String>, b: Seq<String>)
    requires
        texts(a) == texts(b),
    ensures
        parse_rows(texts(a)) == parse_rows(texts(b)),
{
}

// ---------------------------------------------------------------------------
// Writing a board and reading it back
// ---------------------------------------------------------------------------

/// The letter that writes `p` on a board: lower case for White, upper case
/// for Black.
pub open spec fn piece_letter(p: Piece) -> char {
    let black = p.color == Color::Black;
    match p.piece_type {
        PieceType::King => if black { 'R' } else { 'r' },
        PieceType::Queen => if black { 'D' } else { 'd' },
        PieceType::Bishop => if black { 'A' } else { 'a' },
        PieceType::Knight => if black { 'C' } else { 'c' },
        PieceType::Rook => if black { 'T' } else { 't' },
        _ => if black { 'P' } else { 'p' },
    }
}

/// The cell at column `x`, row `y` of the board `t`: the letter of the piece
/// standing there, or `_`.
pub open spec fn cell(t: Table, x: int, y: int) -> char {
    if t.white_piece.position.x == x && t.white_piece.position.y == y {
        piece_letter(t.white_piece)
    } else if t.black_piece.position.x == x && t.black_piece.position.y == y {
        piece_letter(t.black_piece)
    } else {
        '_'
    }
}

/// Row `y` of the board `t` written out: its cells, one space apart.
pub open spec fn row_text(t: Table, y: int) -> Seq<char> {
    Seq::new(ROW_LENGTH as nat, |i: int| if i % 2 == 1 { ' ' } else { cell(t, i / 2, y) })
}

/// The board `t` written out, one text per row.
pub open spec fn board_text(t: Table) -> Seq<Seq<char>> {
    Seq::new(BOARD_SIZE as nat, |y: int| row_text(t, y))
}

/// `t` with only the pieces that stand before column `x` of row `y`, reading
/// rows from the top and each row from the left.
pub open spec fn scanned(t: Table, y: int, x: int) -> Table {
    let w = t.white_piece.position;
    let b = t.black_piece.position;
    Table {
        white_piece: if w.y < y || (w.y == y && w.x < x) {
            t.white_piece
        } else {
            Piece::unset()
        },
        black_piece: if b.y < y || (b.y == y && b.x < x) {
            t.black_piece
        } else {
            Piece::unset()
        },
    }
}

proof fn lemma_row_text_words(t: Table, y: int, i: int)
    requires
        t.valid(),
        0 <= i <= ROW_LENGTH,
    ensures
        words(row_text(t, y).take(i)) == Seq::new(
            ((i + 1) / 2) as nat,
            |k: int| seq![cell(t, k, y)],
        ),
    decreases i,
{
    let row = row_text(t, y);
    if i == 0 {
        assert(words(row.take(0)) =~= Seq::<Seq<char>>::empty());
        assert(Seq::new(0, |k: int| seq![cell(t, k, y)]) =~= Seq::<Seq<char>>::empty());
    } else {
        lemma_row_text_words(t, y, i - 1);
        let s = row.take(i);
        assert(s.drop_last() =~= row.take(i - 1));
        let c = s.last();
        assert(c == row[i - 1]);
        let prev = Seq::new(((i) / 2) as nat, |k: int| seq![cell(t, k, y)]);
        let next = Seq::new(((i + 1) / 2) as nat, |k: int| seq![cell(t, k, y)]);
        if (i - 1) % 2 == 1 {
            assert(is_blank(c));
            assert(next =~= prev);
        } else {
            assert(c == cell(t, (i - 1) / 2, y));
            assert(!is_blank(c));
            if i - 1 > 0 {
                assert(s.drop_last().last() == row[i - 2]);
                assert(is_blank(s.drop_last().last()));
            }
            assert(next =~= prev.push(seq![c]));
        }
    }
}

proof fn lemma_row_tokens(t: Table, y: int, k: int)
    requires
        t.valid(),
        t.white_piece.position != t.black_piece.position,
        0 <= y < BOARD_SIZE,
        0 <= k <= BOARD_SIZE,
    ensures
        read_tokens(
            scanned(t, y, 0),
            Seq::new(BOARD_SIZE as nat, |j: int| seq![cell(t, j, y)]).take(k),
            y as nat,
        ) == Ok::<Table, ParseFault>(scanned(t, y, k)),
    decreases k,
{
    let tokens = Seq::new(BOARD_SIZE as nat, |j: int| seq![cell(t, j, y)]);
    if k == 0 {
        assert(scanned(t, y, 0) == scanned(t, y, k));
    } else {
        lemma_row_tokens(t, y, k - 1);
        assert(tokens.take(k).drop_last() =~= tokens.take(k - 1));
        assert(tokens.take(k).last() == seq![cell(t, k - 1, y)]);
        let before = scanned(t, y, k - 1);
        let c = cell(t, k - 1, y);
        assert(read_token(before, seq![c], (k - 1) as nat, y as nat) == Ok::<Table, ParseFault>(
            scanned(t, y, k),
        ));
    }
}

proof fn lemma_rows_read(t: Table, y: int)
    requires
        t.valid(),
        t.white_piece.position != t.black_piece.position,
        0 <= y <= BOARD_SIZE,
    ensures
        read_rows(board_text(t).take(y)) == Ok::<Table, ParseFault>(scanned(t, y, 0)),
    decreases y,
{
    let rows = board_text(t);
    if y == 0 {
        assert(scanned(t, 0, 0) == Table::unset());
    } else {
        lemma_rows_read(t, y - 1);
        assert(rows.take(y).drop_last() =~= rows.take(y - 1));
        let line = row_text(t, y - 1);
        assert(rows.take(y).last() == line);
        assert(is_ascii_chars(line));
        is_ascii_chars_encode_utf8(line);
        assert(byte_len(line) == ROW_LENGTH);
        lemma_row_text_words(t, y - 1, ROW_LENGTH as int);
        assert(line.take(ROW_LENGTH as int) =~= line);
        lemma_row_tokens(t, y - 1, BOARD_SIZE as int);
        let tokens = Seq::new(BOARD_SIZE as nat, |j: int| seq![cell(t, j, y - 1)]);
        assert(tokens.take(BOARD_SIZE as int) =~= tokens);
        assert(words(line) == tokens);
        assert(scanned(t, y - 1, BOARD_SIZE as int) == scanned(t, y, 0));
        assert(read_row(scanned(t, y - 1, 0), line, (y - 1) as nat) == Ok::<Table, ParseFault>(
            scanned(t, y, 0),
        ));
    }
}

/// A valid board with its two pieces on different squares, written out as
/// text, reads back as that same board: each piece with its type, its colour,
/// and the row and column it was written at.
pub proof fn board_text_reads_back(t: Table)
    requires
        t.valid(),
        t.white_piece.position != t.black_piece.position,
    ensures
        parse_rows(board_text(t)) == Ok::<Table, ParseFault>(t),
{
    lemma_rows_read(t, BOARD_SIZE as int);
    assert(board_text(t).take(BOARD_SIZE as int) =~= board_text(t));
    assert(scanned(t, BOARD_SIZE as int, 0) == t);
}

} // verus!
