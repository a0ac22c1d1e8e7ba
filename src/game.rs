pub mod facts;
pub mod moves;
pub mod piece;
pub mod position;
pub mod table;
pub mod text;
pub mod words;

use crate::game::moves::captures;
use crate::game::table::{check_moves, parse_rows, parse_table, texts, Table};
use vstd::prelude::*;

verus! {

/// The letter that reports a game: `E` when each piece can capture the other
/// (a draw), `B` when only White can (White wins), `N` when only Black can
/// (Black wins), `P` when neither can (both lose).
pub open spec fn result_code(white_captures: bool, black_captures: bool) -> char {
    if white_captures && black_captures {
        'E'
    } else if white_captures {
        'B'
    } else if black_captures {
        'N'
    } else {
        'P'
    }
}

/// The letter that reports the game on the board `t`.
pub open spec fn game_code(t: Table) -> char {
    result_code(
        captures(t.white_piece, t.black_piece.position),
        captures(t.black_piece, t.white_piece.position),
    )
}

/// Plays the game on the board that `lines` describe, one string per row:
/// the one-letter result, or the text of the first fault in the board.
pub fn play_game(lines: Vec<String>) -> (r: Result<String, String>)
    ensures
        match parse_rows(texts(lines@)) {
            Ok(t) => r matches Ok(s) && s@ == seq![game_code(t)],
            Err(f) => r matches Err(m) && m@ == f.message(),
        },
{
    let table = match parse_table(&lines) {
        Ok(t) => t,
        Err(e) => return Err(e),
    };
    proof {
        reveal_strlit("E");
        reveal_strlit("B");
        reveal_strlit("N");
        reveal_strlit("P");
    }
    let (w, b) = check_moves(&table);
    if w && b {
        Ok("E".to_owned())
    } else if w {
        Ok("B".to_owned())
    } else if b {
        Ok("N".to_owned())
    } else {
        Ok("P".to_owned())
    }
}

} // verus!
