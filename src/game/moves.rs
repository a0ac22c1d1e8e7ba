use crate::game::piece::{Color, Piece, PieceType};
use crate::game::position::{Position, BOARD_SIZE};
use vstd::prelude::*;

verus! {

/// The distance between two coordinates.
pub open spec fn gap(p: usize, q: usize) -> int {
    if p >= q {
        p - q
    } else {
        q - p
    }
}

/// A king reaches the eight neighbouring squares, and its own.
pub open spec fn king_reaches(a: Position, t: Position) -> bool {
    gap(a.x, t.x) <= 1 && gap(a.y, t.y) <= 1
}

/// A rook reaches every square of its row and of its column.
pub open spec fn rook_reaches(a: Position, t: Position) -> bool {
    a.x == t.x || a.y == t.y
}

/// A bishop reaches every other square of its two diagonals.
pub open spec fn bishop_reaches(a: Position, t: Position) -> bool {
    gap(a.x, t.x) == gap(a.y, t.y) && a != t
}

/// A queen reaches what a bishop or a rook on its square reaches.
pub open spec fn queen_reaches(a: Position, t: Position) -> bool {
    bishop_reaches(a, t) || rook_reaches(a, t)
}

/// A knight reaches the squares one step away on one axis and two on the other.
pub open spec fn knight_reaches(a: Position, t: Position) -> bool {
    (gap(a.x, t.x) == 1 && gap(a.y, t.y) == 2) || (gap(a.x, t.x) == 2 && gap(a.y, t.y) == 1)
}

/// A pawn captures one square diagonally forward: towards row 0 for White,
/// towards the last row for Black. A pawn on the first column reaches every
/// square of the second column, and one on the last column every square of the
/// column before it, whatever their row.
pub open spec fn pawn_reaches(color: Color, a: Position, t: Position) -> bool {
    if a.x == 0 {
        color != Color::Empty && t.x == 1
    } else if a.x == BOARD_SIZE - 1 {
        color != Color::Empty && t.x == BOARD_SIZE - 2
    } else {
        match color {
            Color::White => t.y + 1 == a.y && gap(a.x, t.x) == 1,
            Color::Black => t.y == a.y + 1 && gap(a.x, t.x) == 1,
            Color::Empty => false,
        }
    }
}

/// Whether a piece of type `kind` and colour `color` standing on `a` reaches `t`.
pub open spec fn moves_to(kind: PieceType, color: Color, a: Position, t: Position) -> bool {
    match kind {
        PieceType::King => king_reaches(a, t),
        PieceType::Queen => queen_reaches(a, t),
        PieceType::Bishop => bishop_reaches(a, t),
        PieceType::Knight => knight_reaches(a, t),
        PieceType::Rook => rook_reaches(a, t),
        PieceType::Pawn => pawn_reaches(color, a, t),
        PieceType::Empty => false,
    }
}

/// Whether `attacker` can capture a piece standing on `t`.
pub open spec fn captures(attacker: Piece, t: Position) -> bool {
    moves_to(attacker.piece_type, attacker.color, attacker.position, t)
}

/// `t` lies `dx` columns and `dy` rows away from `a`.
pub open spec fn lands(a: Position, t: Position, dx: int, dy: int) -> bool {
    a.x + dx == t.x && a.y + dy == t.y
}

/// Whether `attacker` can capture `other`.
pub fn check_move_piece(attacker: &Piece, other: &Piece) -> (r: bool)
    requires
        attacker.position.on_board(),
        other.position.on_board(),
    ensures
        r == captures(*attacker, other.position),
{
    match attacker.piece_type {
        PieceType::King => check_move_r(&attacker.position, &other.position),
        PieceType::Queen => check_move_d(&attacker.position, &other.position),
        PieceType::Bishop => check_move_a(&attacker.position, &other.position),
        PieceType::Knight => check_move_c(&attacker.position, &other.position),
        PieceType::Rook => check_move_t(&attacker.position, &other.position),
        PieceType::Pawn => check_move_p(attacker, other),
        PieceType::Empty => false,
    }
}

/// Whether a king on `a` can capture a piece on `t`.
pub fn check_move_r(a: &Position, t: &Position) -> (r: bool)
    requires
        a.on_board(),
        t.on_board(),
    ensures
        r == king_reaches(*a, *t),
{
    a.x <= t.x + 1 && t.x <= a.x + 1 && a.y <= t.y + 1 && t.y <= a.y + 1
}

/// Whether a queen on `a` can capture a piece on `t`.
pub fn check_move_d(a: &Position, t: &Position) -> (r: bool)
    requires
        a.on_board(),
        t.on_board(),
    ensures
        r == queen_reaches(*a, *t),
{
    check_move_a(a, t) || check_move_t(a, t)
}

/// Whether a bishop on `a` can capture a piece on `t`: walks each of the four
/// diagonals from `a` to the edge of the board.
pub fn check_move_a(a: &Position, t: &Position) -> (r: bool)
    requires
        a.on_board(),
        t.on_board(),
    ensures
        r == bishop_reaches(*a, *t),
{
    // Towards the bottom right.
    let far = if a.x > a.y { a.x } else { a.y };
    let limit = BOARD_SIZE - far - 1;
    let mut i: usize = 1;
    while i <= limit
        invariant
            1 <= i <= limit + 1,
            limit == BOARD_SIZE - far - 1,
            far == if a.x > a.y { a.x } else { a.y },
            a.on_board(),
            forall|k: int| 1 <= k < i ==> !#[trigger] lands(*a, *t, k, k),
        decreases limit + 1 - i,
    {
        if a.x + i == t.x && a.y + i == t.y {
            assert(lands(*a, *t, i as int, i as int));
            return true;
        }
        i += 1;
    }
    // Towards the bottom left.
    let limit = if a.x < BOARD_SIZE - a.y - 1 { a.x } else { BOARD_SIZE - a.y - 1 };
    let mut i: usize = 1;
    while i <= limit
        invariant
            1 <= i <= limit + 1,
            limit <= a.x,
            limit <= BOARD_SIZE - a.y - 1,
            a.on_board(),
            forall|k: int| 1 <= k < i ==> !#[trigger] lands(*a, *t, -k, k),
        decreases limit + 1 - i,
    {
        if a.x - i == t.x && a.y + i == t.y {
            assert(lands(*a, *t, -i, i as int));
            return true;
        }
        i += 1;
    }
    // Towards the top right.
    let limit = if a.y < BOARD_SIZE - a.x - 1 { a.y } else { BOARD_SIZE - a.x - 1 };
    let mut i: usize = 1;
    while i <= limit
        invariant
            1 <= i <= limit + 1,
            limit <= a.y,
            limit <= BOARD_SIZE - a.x - 1,
            a.on_board(),
            forall|k: int| 1 <= k < i ==> !#[trigger] lands(*a, *t, k, -k),
        decreases limit + 1 - i,
    {
        if a.x + i == t.x && a.y - i == t.y {
            assert(lands(*a, *t, i as int, -i));
            return true;
        }
        i += 1;
    }
    // Towards the top left.
    let limit = if a.x < a.y { a.x } else { a.y };
    let mut i: usize = 1;
    while i <= limit
        invariant
            1 <= i <= limit + 1,
            limit <= a.x,
            limit <= a.y,
            a.on_board(),
            forall|k: int| 1 <= k < i ==> !#[trigger] lands(*a, *t, -k, -k),
        decreases limit + 1 - i,
    {
        if a.x - i == t.x && a.y - i == t.y {
            assert(lands(*a, *t, -i, -i));
            return true;
        }
        i += 1;
    }
    proof {
        if bishop_reaches(*a, *t) {
            let d = gap(a.x, t.x);
            if t.x >= a.x && t.y >= a.y {
                assert(lands(*a, *t, d, d));
            } else if t.x < a.x && t.y >= a.y {
                assert(lands(*a, *t, -d, d));
            } else if t.x >= a.x && t.y < a.y {
                assert(lands(*a, *t, d, -d));
            } else {
                assert(lands(*a, *t, -d, -d));
            }
        }
    }
    false
}

/// Whether a rook on `a` can capture a piece on `t`.
pub fn check_move_t(a: &Position, t: &Position) -> (r: bool)
    ensures
        r == rook_reaches(*a, *t),
{
    a.x == t.x || a.y == t.y
}

/// Whether a knight on `a` can capture a piece on `t`: tries the two jumps
/// of each quadrant, each only where it stays on the board.
pub fn check_move_c(a: &Position, t: &Position) -> (r: bool)
    requires
        a.on_board(),
        t.on_board(),
    ensures
        r == knight_reaches(*a, *t),
{
    // Top left.
    if (a.x > 0 && a.y > 1 && a.x - 1 == t.x && a.y - 2 == t.y) || (a.x > 1 && a.y > 0 && a.x - 2
        == t.x && a.y - 1 == t.y) {
        return true;
    }
    // Top right.
    if (a.x < BOARD_SIZE - 1 && a.y > 1 && a.x + 1 == t.x && a.y - 2 == t.y) || (a.x < BOARD_SIZE
        - 2 && a.y > 0 && a.x + 2 == t.x && a.y - 1 == t.y) {
        return true;
    }
    // Bottom left.
    if (a.x > 0 && a.y < BOARD_SIZE - 2 && a.x - 1 == t.x && a.y + 2 == t.y) || (a.x > 1 && a.y
        < BOARD_SIZE - 1 && a.x - 2 == t.x && a.y + 1 == t.y) {
        return true;
    }
    // Bottom right.
    if (a.x < BOARD_SIZE - 1 && a.y < BOARD_SIZE - 2 && a.x + 1 == t.x && a.y + 2 == t.y) || (a.x
        < BOARD_SIZE - 2 && a.y < BOARD_SIZE - 1 && a.x + 2 == t.x && a.y + 1 == t.y) {
        return true;
    }
    false
}

/// Whether the pawn `attacker` can capture `other`; its colour gives its
/// direction.
pub fn check_move_p(attacker: &Piece, other: &Piece) -> (r: bool)
    requires
        attacker.position.on_board(),
        other.position.on_board(),
    ensures
        r == pawn_reaches(attacker.color, attacker.position, other.position),
{
    match attacker.color {
        Color::White => check_move_p_white(&attacker.position, &other.position),
        Color::Black => check_move_p_black(&attacker.position, &other.position),
        Color::Empty => false,
    }
}

/// Whether a white pawn on `a` can capture a piece on `t`.
pub fn check_move_p_white(a: &Position, t: &Position) -> (r: bool)
    requires
        a.on_board(),
        t.on_board(),
    ensures
        r == pawn_reaches(Color::White, *a, *t),
{
    (a.x > 0 && a.x < BOARD_SIZE - 1 && a.y > 0 && a.y - 1 == t.y && (a.x - 1 == t.x || a.x + 1
        == t.x)) || (a.x == 0 && a.x + 1 == t.x) || (a.x == BOARD_SIZE - 1 && a.x - 1 == t.x)
}

/// Whether a black pawn on `a` can capture a piece on `t`.
pub fn check_move_p_black(a: &Position, t: &Position) -> (r: bool)
    requires
        a.on_board(),
        t.on_board(),
    ensures
        r == pawn_reaches(Color::Black, *a, *t),
{
    (a.x > 0 && a.x < BOARD_SIZE - 1 && a.y < BOARD_SIZE - 1 && a.y + 1 == t.y && (a.x - 1 == t.x
        || a.x + 1 == t.x)) || (a.x == 0 && a.x + 1 == t.x) || (a.x == BOARD_SIZE - 1 && a.x - 1
        == t.x)
}

} // verus!
