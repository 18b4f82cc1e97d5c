//! Piece identity: kind, color and position.

use vstd::prelude::*;

use crate::loc::Loc;

verus! {

/// Black or white, the colors of chess.
#[derive(Clone, Copy, PartialEq, Eq, Hash, Debug, Structural)]
pub enum ChessColor {
    Black,
    White,
}

impl ChessColor {
    /// The opposite color.
    pub open spec fn spec_other(self) -> ChessColor {
        match self {
            ChessColor::Black => ChessColor::White,
            ChessColor::White => ChessColor::Black,
        }
    }

    /// The opposite color.
    #[verifier::when_used_as_spec(spec_other)]
    pub fn other(self) -> (c: ChessColor)
        ensures
            c == self.spec_other(),
    {
        match self {
            ChessColor::Black => ChessColor::White,
            ChessColor::White => ChessColor::Black,
        }
    }
}

/// The six kinds of chess piece.
#[derive(Clone, Copy, PartialEq, Eq, Hash, Debug, Structural)]
pub enum PieceNames {
    Pawn,
    Bishop,
    Knight,
    Rook,
    Queen,
    King,
}

/// Material value of a piece kind, in centipawns.
pub open spec fn spec_piece_value(p: PieceNames) -> int {
    match p {
        PieceNames::Pawn => 100,
        PieceNames::Knight => 320,
        PieceNames::Bishop => 330,
        PieceNames::Rook => 500,
        PieceNames::Queen => 900,
        PieceNames::King => 20000,
    }
}

/// Material value of a piece kind, in centipawns.
pub fn piece_value(piece: &PieceNames) -> (v: i32)
    ensures
        v == spec_piece_value(*piece),
{
    match piece {
        PieceNames::Pawn => 100,
        PieceNames::Knight => 320,
        PieceNames::Bishop => 330,
        PieceNames::Rook => 500,
        PieceNames::Queen => 900,
        PieceNames::King => 20000,
    }
}

/// A piece on the board.  Its position is kept equal to its grid slot by the
/// board's move application, not by the piece itself.
#[derive(Clone, Copy, PartialEq, Eq, Hash, Debug, Structural)]
pub struct Piece {
    /// Kind of piece.
    pub name: PieceNames,
    /// The color of the piece.
    pub color: ChessColor,
    /// The piece's current position on the board.
    pub pos: Loc,
}

impl Piece {
    /// A piece with the given kind, color and position.
    pub fn new(name: PieceNames, color: ChessColor, pos: Loc) -> (p: Piece)
        ensures
            p == (Piece { name, color, pos }),
    {
        Piece { name, color, pos }
    }

    /// Material value of this piece.
    pub fn value(&self) -> (v: i32)
        ensures
            v == spec_piece_value(self.name),
    {
        piece_value(&self.name)
    }
}

} // verus!
