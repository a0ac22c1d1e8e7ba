use crate::game::position::Position;
use vstd::prelude::*;

verus! {

/// The movement pattern of a piece.
#[derive(Clone, Copy, Debug, PartialEq, Eq, Structural)]
pub enum PieceType {
    /// Steps to any of the eight neighbouring squares (letter `r`).
    King,
    /// Moves as a bishop or as a rook (letter `d`).
    Queen,
    /// Moves along diagonals (letter `a`).
    Bishop,
    /// Jumps in an L shape (letter `c`).
    Knight,
    /// Moves along its row or its column (letter `t`).
    Rook,
    /// Captures one square diagonally forward (letter `p`).
    Pawn,
    /// No piece has been placed yet.
    Empty,
}

/// The side a piece belongs to.
#[derive(Clone, Copy, Debug, PartialEq, Eq, Structural)]
pub enum Color {
    /// Written in lower case; its pawns move towards row 0.
    White,
    /// Written in upper case; its pawns move towards the last row.
    Black,
    /// No piece has been placed yet.
    Empty,
}

/// A piece on the board.
#[derive(Clone, Copy, Debug, PartialEq, Eq, Structural)]
pub struct Piece {
    /// The type of the piece.
    pub piece_type: PieceType,
    /// The square it stands on.
    pub position: Position,
    /// The side it belongs to.
    pub color: Color,
}

impl Piece {
    /// The slot of a piece that has not been placed yet.
    pub open spec fn unset() -> Piece {
        Piece { piece_type: PieceType::Empty, position: Position { x: 0, y: 0 }, color: Color::Empty }
    }

    /// Creates a slot that holds no piece yet.
    pub fn new() -> (r: Piece)
        ensures
            r == Piece::unset(),
    {
        Piece { piece_type: PieceType::Empty, position: Position::default(), color: Color::Empty }
    }
}

/// The type of piece that a letter stands for, whatever its case; `Empty` for
/// any other character.
pub open spec fn letter_kind(c: char) -> PieceType {
    if c == 'r' || c == 'R' {
        PieceType::King
    } else if c == 'd' || c == 'D' {
        PieceType::Queen
    } else if c == 'a' || c == 'A' {
        PieceType::Bishop
    } else if c == 'c' || c == 'C' {
        PieceType::Knight
    } else if c == 't' || c == 'T' {
        PieceType::Rook
    } else if c == 'p' || c == 'P' {
        PieceType::Pawn
    } else {
        PieceType::Empty
    }
}

/// An ASCII lower-case letter.
pub open spec fn is_lower(c: char) -> bool {
    'a' <= c && c <= 'z'
}

/// An ASCII upper-case letter.
pub open spec fn is_upper(c: char) -> bool {
    'A' <= c && c <= 'Z'
}

/// Reads the type of piece that a letter stands for.
pub fn kind_of_letter(c: char) -> (r: PieceType)
    ensures
        r == letter_kind(c),
{
    match c {
        'r' | 'R' => PieceType::King,
        'd' | 'D' => PieceType::Queen,
        'a' | 'A' => PieceType::Bishop,
        'c' | 'C' => PieceType::Knight,
        't' | 'T' => PieceType::Rook,
        'p' | 'P' => PieceType::Pawn,
        _ => PieceType::Empty,
    }
}

/// Whether `c` is an ASCII lower-case letter.
pub fn lower_case(c: char) -> (r: bool)
    ensures
        r == is_lower(c),
{
    'a' <= c && c <= 'z'
}

} // verus!
