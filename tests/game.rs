use tp1_rust::game::piece::{Color, Piece, PieceType};
use tp1_rust::game::play_game;
use tp1_rust::game::position::Position;
use tp1_rust::game::table::{check_moves, parse_board, parse_table, ParseError, Table};

/// An 8x8 board text with `pieces` (column, row, letter) and `_` elsewhere.
fn board(pieces: &[(usize, usize, char)]) -> Vec<String> {
    let mut rows = Vec::new();
    for y in 0..8 {
        let mut cells = Vec::new();
        for x in 0..8 {
            let mut c = '_';
            for &(px, py, letter) in pieces {
                if px == x && py == y {
                    c = letter;
                }
            }
            cells.push(c.to_string());
        }
        rows.push(cells.join(" "));
    }
    rows
}

fn moves(pieces: &[(usize, usize, char)]) -> (bool, bool) {
    check_moves(&parse_table(&board(pieces)).unwrap())
}

fn piece(piece_type: PieceType, x: usize, y: usize, color: Color) -> Piece {
    Piece { piece_type, position: Position { x, y }, color }
}

#[test]
fn test_play_game() {
    assert_eq!(play_game(board(&[(5, 7, 'd'), (5, 1, 'T')])).unwrap(), "E");
    assert_eq!(play_game(board(&[(2, 2, 'a'), (5, 5, 'C')])).unwrap(), "B");
    assert_eq!(play_game(board(&[(0, 0, 'a'), (0, 5, 'T')])).unwrap(), "N");
    assert_eq!(play_game(board(&[(0, 6, 'p'), (7, 1, 'P')])).unwrap(), "P");
}

#[test]
fn test_game() {
    let res = play_game(board(&[(2, 2, 'a'), (5, 5, 'C')]));
    assert!(res.is_ok());
    let game_result = res.unwrap();
    assert_eq!(game_result, "B");
}

#[test]
fn test_parse_table() {
    let lines = board(&[(3, 3, 'T')]);
    assert!(parse_table(&lines).is_err());
    assert_eq!(parse_table(&lines).err(), Some("ERROR: No white piece inserted".to_string()));

    let lines = board(&[(3, 3, 'd')]);
    assert!(parse_table(&lines).is_err());
    assert_eq!(parse_table(&lines).err(), Some("ERROR: No black piece inserted".to_string()));

    let lines = board(&[(1, 0, 'x'), (3, 3, 'd'), (4, 4, 'T')]);
    assert!(parse_table(&lines).is_err());
    assert_eq!(parse_table(&lines).err(), Some("ERROR: Invalid piece: x".to_string()));

    let mut lines = board(&[(3, 3, 'd'), (4, 6, 'T')]);
    lines[4] = "_ _ _ _ _ _ _ _ _".to_string();
    assert!(parse_table(&lines).is_err());
    assert_eq!(
        parse_table(&lines).err(),
        Some("ERROR: Table formated incorrectly. Row number 4 has 17 characters, expected 15".to_string())
    );

    let mut lines = board(&[(3, 3, 'd'), (4, 6, 'T')]);
    lines.push("_ _ _ _ _ _ _ _".to_string());
    assert!(parse_table(&lines).is_err());
    assert_eq!(
        parse_table(&lines).err(),
        Some("ERROR: Table formated incorrectly. Table has 9 rows, expected 8".to_string())
    );

    let lines = board(&[(3, 3, 'd'), (4, 6, 'T'), (1, 7, 'A')]);
    assert!(parse_table(&lines).is_err());
    assert_eq!(parse_table(&lines).err(), Some("ERROR: More than one black piece inserted".to_string()));

    let lines = board(&[(3, 3, 'd'), (4, 6, 'T'), (1, 7, 'a')]);
    assert!(parse_table(&lines).is_err());
    assert_eq!(parse_table(&lines).err(), Some("ERROR: More than one white piece inserted".to_string()));

    let lines = board(&[(5, 7, 'd'), (5, 1, 'T')]);
    assert!(parse_table(&lines).is_ok());
    assert_eq!(
        parse_table(&lines).unwrap(),
        Table {
            white_piece: piece(PieceType::Queen, 5, 7, Color::White),
            black_piece: piece(PieceType::Rook, 5, 1, Color::Black),
        }
    );
}

#[test]
fn test_moves() {
    // Queen and rook on one column.
    assert_eq!(moves(&[(5, 7, 'd'), (5, 1, 'T')]), (true, true));
    // Two kings side by side.
    assert_eq!(moves(&[(3, 3, 'r'), (4, 4, 'R')]), (true, true));
    // A bishop against a knight it sees on its diagonal.
    assert_eq!(moves(&[(2, 2, 'a'), (5, 5, 'C')]), (true, false));
    // A knight against a bishop one jump away.
    assert_eq!(moves(&[(1, 0, 'c'), (2, 2, 'A')]), (true, false));
    // Two knights, one in a corner.
    assert_eq!(moves(&[(0, 0, 'c'), (1, 2, 'C')]), (true, true));
    // Two rooks on one row.
    assert_eq!(moves(&[(0, 3, 't'), (6, 3, 'T')]), (true, true));
    // Two pawns facing diagonally.
    assert_eq!(moves(&[(3, 4, 'p'), (2, 3, 'P')]), (true, true));
    // Two pawns on the edge columns.
    assert_eq!(moves(&[(0, 6, 'p'), (7, 1, 'P')]), (false, false));
}

#[test]
fn queen_and_rook_on_one_column_draw() {
    let lines = board(&[(5, 7, 'd'), (5, 1, 'T')]);
    let table = parse_table(&lines).unwrap();
    assert_eq!(table.white(), piece(PieceType::Queen, 5, 7, Color::White));
    assert_eq!(table.black(), piece(PieceType::Rook, 5, 1, Color::Black));
    assert_eq!(check_moves(&table), (true, true));
    assert_eq!(play_game(lines).unwrap(), "E");
}

#[test]
fn pawns_on_edge_columns_both_lose() {
    assert_eq!(play_game(board(&[(0, 5, 'p'), (7, 2, 'P')])).unwrap(), "P");
    assert_eq!(play_game(board(&[(0, 0, 'p'), (7, 7, 'P')])).unwrap(), "P");
}

#[test]
fn bishop_reaches_a_rook_that_cannot_reply() {
    assert_eq!(moves(&[(1, 1, 'a'), (6, 6, 'T')]), (true, false));
    assert_eq!(play_game(board(&[(1, 1, 'a'), (6, 6, 'T')])).unwrap(), "B");
}

#[test]
fn black_alone_captures() {
    assert_eq!(play_game(board(&[(7, 0, 'c'), (3, 4, 'D')])).unwrap(), "N");
}

#[test]
fn parsing_twice_gives_the_same_board() {
    let lines = board(&[(2, 6, 'c'), (7, 0, 'P')]);
    assert_eq!(parse_table(&lines).unwrap(), parse_table(&lines).unwrap());
    let bad = board(&[(2, 6, 'c')]);
    assert_eq!(parse_table(&bad).err(), parse_table(&bad).err());
}

#[test]
fn positions_come_from_row_and_column() {
    for &(wx, wy, bx, by) in &[(0, 0, 7, 7), (7, 0, 0, 7), (3, 5, 4, 2), (6, 6, 6, 5)] {
        let t = parse_table(&board(&[(wx, wy, 'r'), (bx, by, 'P')])).unwrap();
        assert_eq!(t.white(), piece(PieceType::King, wx, wy, Color::White));
        assert_eq!(t.black(), piece(PieceType::Pawn, bx, by, Color::Black));
    }
}

#[test]
fn every_letter_reads_as_its_piece_type() {
    let kinds = [
        ('r', PieceType::King),
        ('d', PieceType::Queen),
        ('a', PieceType::Bishop),
        ('c', PieceType::Knight),
        ('t', PieceType::Rook),
        ('p', PieceType::Pawn),
    ];
    for &(letter, kind) in &kinds {
        let upper = letter.to_ascii_uppercase();
        let t = parse_table(&board(&[(1, 2, letter), (4, 5, upper)])).unwrap();
        assert_eq!(t.white().piece_type, kind);
        assert_eq!(t.black().piece_type, kind);
    }
}

#[test]
fn reach_is_symmetric_but_for_pawns() {
    let pairs = [((3, 3), (4, 4)), ((1, 1), (6, 6)), ((0, 3), (6, 3)), ((1, 0), (2, 2)), ((2, 5), (3, 3)), ((0, 0), (7, 6))];
    for letter in ['r', 'd', 'a', 'c', 't'] {
        let upper = letter.to_ascii_uppercase();
        for &((ax, ay), (bx, by)) in &pairs {
            let (w, b) = moves(&[(ax, ay, letter), (bx, by, upper)]);
            assert_eq!(w, b, "{} at ({}, {}) and ({}, {})", letter, ax, ay, bx, by);
        }
    }
    // A white pawn reaches a black piece one row up, which cannot reach back
    // when it is not a pawn of the other colour.
    assert_eq!(moves(&[(3, 4, 'p'), (4, 3, 'C')]), (true, false));
    // A black pawn facing the wrong way reaches nothing.
    assert_eq!(moves(&[(3, 4, 'p'), (4, 5, 'P')]), (false, false));
}

#[test]
fn king_reach_covers_its_neighbours_only() {
    assert_eq!(moves(&[(0, 0, 'r'), (1, 1, 'C')]), (true, false));
    assert_eq!(moves(&[(0, 0, 'r'), (2, 0, 'C')]), (false, false));
    assert_eq!(moves(&[(7, 7, 'r'), (6, 7, 'A')]), (true, false));
}

#[test]
fn knight_jumps_from_every_side() {
    for &(dx, dy) in &[(1i32, 2i32), (2, 1), (-1, 2), (-2, 1), (1, -2), (2, -1), (-1, -2), (-2, -1)] {
        let tx = (3 + dx) as usize;
        let ty = (3 + dy) as usize;
        assert_eq!(moves(&[(3, 3, 'c'), (tx, ty, 'R')]).0, true);
    }
    assert_eq!(moves(&[(3, 3, 'c'), (5, 5, 'R')]).0, false);
    assert_eq!(moves(&[(7, 7, 'c'), (5, 6, 'R')]).0, true);
}

#[test]
fn bishop_sees_each_diagonal() {
    for &(tx, ty) in &[(6, 6), (0, 0), (0, 6), (6, 0)] {
        assert_eq!(moves(&[(3, 3, 'a'), (tx, ty, 'R')]).0, true);
    }
    assert_eq!(moves(&[(3, 3, 'a'), (3, 6, 'R')]).0, false);
    assert_eq!(moves(&[(3, 3, 'a'), (4, 6, 'R')]).0, false);
}

#[test]
fn pawn_on_an_edge_column_reaches_the_next_column_at_any_row() {
    assert_eq!(moves(&[(0, 5, 'p'), (1, 0, 'R')]), (true, false));
    assert_eq!(moves(&[(6, 6, 'c'), (7, 0, 'P')]), (false, true));
    assert_eq!(moves(&[(6, 0, 't'), (7, 6, 'P')]), (false, true));
    assert_eq!(moves(&[(0, 0, 'p'), (1, 7, 'R')]), (true, false));
}

#[test]
fn pawn_directions() {
    // White moves up the board, Black down.
    assert_eq!(moves(&[(4, 4, 'p'), (5, 3, 'C')]), (true, false));
    assert_eq!(moves(&[(4, 4, 'p'), (5, 5, 'C')]), (false, false));
    assert_eq!(moves(&[(4, 4, 'c'), (5, 3, 'P')]), (false, true));
    assert_eq!(moves(&[(5, 5, 'r'), (4, 4, 'P')]), (true, true));
}

#[test]
fn errors_name_their_cause() {
    let mut lines = board(&[(3, 3, 'd'), (4, 6, 'T')]);
    lines[2] = "_ _ _ _ xy _ _ _".chars().take(15).collect();
    assert_eq!(parse_table(&lines).err(), Some("ERROR: Invalid piece: xy".to_string()));

    let mut lines = board(&[(3, 3, 'd'), (4, 6, 'T')]);
    lines[0] = "_ _ _ _ _ _ _ #".to_string();
    assert_eq!(parse_table(&lines).err(), Some("ERROR: Invalid piece: #".to_string()));

    let lines: Vec<String> = Vec::new();
    assert_eq!(
        parse_table(&lines).err(),
        Some("ERROR: Table formated incorrectly. Table has 0 rows, expected 8".to_string())
    );

    let mut lines = board(&[(3, 3, 'd'), (4, 6, 'T')]);
    lines[7] = String::new();
    assert_eq!(
        parse_table(&lines).err(),
        Some("ERROR: Table formated incorrectly. Row number 7 has 0 characters, expected 15".to_string())
    );
}

#[test]
fn typed_errors() {
    let mut lines = board(&[(3, 3, 'd'), (4, 6, 'T')]);
    lines.truncate(7);
    assert!(matches!(parse_board(&lines), Err(ParseError::RowCount { expected: 8, actual: 7 })));

    let lines = board(&[(3, 3, 'd'), (4, 6, 'T'), (0, 0, 'R')]);
    assert!(matches!(parse_board(&lines), Err(ParseError::DuplicatePiece { color: Color::Black })));

    let lines = board(&[(4, 6, 'T')]);
    assert!(matches!(parse_board(&lines), Err(ParseError::MissingPiece { color: Color::White })));

    let lines = board(&[(1, 1, 'p')]);
    assert!(matches!(parse_board(&lines), Err(ParseError::MissingPiece { color: Color::Black })));

    let lines = board(&[(1, 1, 'p'), (2, 2, 'Q')]);
    match parse_board(&lines) {
        Err(e) => {
            assert!(matches!(&e, ParseError::InvalidPiece { token } if token == "Q"));
            assert_eq!(e.message(), "ERROR: Invalid piece: Q");
        }
        Ok(_) => panic!("a board with Q parsed"),
    }
}

#[test]
fn the_first_fault_wins() {
    // A letter that names no piece type is refused as such, even after a
    // piece of its colour.
    let lines = board(&[(0, 0, 'p'), (1, 0, 'x'), (4, 6, 'T')]);
    assert_eq!(parse_table(&lines).err(), Some("ERROR: Invalid piece: x".to_string()));
    let lines = board(&[(0, 0, 'P'), (1, 0, 'X'), (4, 6, 't')]);
    assert_eq!(parse_table(&lines).err(), Some("ERROR: Invalid piece: X".to_string()));
    // A bad row length is only reported once the rows above it have been read.
    let mut lines = board(&[(0, 0, 'p'), (1, 0, 'r'), (4, 6, 'T')]);
    lines[5] = "_".to_string();
    assert_eq!(parse_table(&lines).err(), Some("ERROR: More than one white piece inserted".to_string()));
    // The row count comes before anything inside the rows.
    let mut lines = board(&[(0, 0, 'p'), (1, 0, 'r')]);
    lines.pop();
    assert_eq!(
        parse_table(&lines).err(),
        Some("ERROR: Table formated incorrectly. Table has 7 rows, expected 8".to_string())
    );
}

#[test]
fn cells_may_be_split_by_any_whitespace() {
    let mut lines = board(&[(3, 3, 'd'), (4, 6, 'T')]);
    lines[1] = "_\t_ _ _ _ _ _ r".to_string();
    lines[3] = "_ _ _ _ _ _ _ _".to_string();
    let t = parse_table(&lines).unwrap();
    assert_eq!(t.white(), piece(PieceType::King, 7, 1, Color::White));

    // Two spaces leave one cell fewer in the row; the columns are counted by
    // cell.
    let mut lines = board(&[(4, 6, 'T')]);
    lines[2] = "_  _ _ _ _ d _ ".to_string();
    let t = parse_table(&lines).unwrap();
    assert_eq!(t.white(), piece(PieceType::Queen, 5, 2, Color::White));
}

#[test]
fn row_length_counts_bytes() {
    let mut lines = board(&[(3, 3, 'd'), (4, 6, 'T')]);
    lines[0] = "_ _ _ _ _ _ _ é".to_string();
    assert_eq!(
        parse_table(&lines).err(),
        Some("ERROR: Table formated incorrectly. Row number 0 has 16 characters, expected 15".to_string())
    );
    lines[0] = "_ _ _ _ _ _ é".to_string() + "_";
    assert_eq!(lines[0].len(), 15);
    assert_eq!(parse_table(&lines).err(), Some("ERROR: Invalid piece: é_".to_string()));
}

#[test]
fn large_counts_are_written_in_full() {
    let lines: Vec<String> = (0..1234).map(|_| "_ _ _ _ _ _ _ _".to_string()).collect();
    assert_eq!(
        parse_table(&lines).err(),
        Some("ERROR: Table formated incorrectly. Table has 1234 rows, expected 8".to_string())
    );
    let mut lines = board(&[(3, 3, 'd'), (4, 6, 'T')]);
    lines[6] = "_".repeat(120);
    assert_eq!(
        parse_table(&lines).err(),
        Some("ERROR: Table formated incorrectly. Row number 6 has 120 characters, expected 15".to_string())
    );
}

#[test]
fn new_piece_is_unset() {
    let p = Piece::new();
    assert_eq!(p.piece_type, PieceType::Empty);
    assert_eq!(p.color, Color::Empty);
    assert_eq!(p.position, Position::default());
    assert_eq!(Position::default(), Position { x: 0, y: 0 });
}

#[test]
fn the_first_repeated_colour_is_reported() {
    // The second upper-case letter comes first in reading order.
    let lines = board(&[(0, 1, 'p'), (2, 2, 'T'), (5, 2, 'A'), (1, 4, 'r')]);
    assert_eq!(parse_table(&lines).err(), Some("ERROR: More than one black piece inserted".to_string()));
    // The second lower-case letter comes first, on the same row.
    let lines = board(&[(0, 1, 'p'), (2, 2, 'T'), (3, 2, 'r'), (5, 2, 'A')]);
    assert_eq!(parse_table(&lines).err(), Some("ERROR: More than one white piece inserted".to_string()));
}
