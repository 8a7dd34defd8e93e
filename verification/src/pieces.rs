//! The closed set of piece kinds.

use vstd::prelude::*;

verus! {

/// One of the seven kinds of piece.
#[derive(Clone, Copy, Debug, PartialEq, Eq, Structural)]
pub enum Piece {
    King,
    Queen,
    Knight,
    Bishop,
    Fortress,
    General,
    Pawn,
}

impl Piece {
    /// The letter that stands for each kind.
    pub open spec fn spec_code(self) -> char {
        match self {
            Piece::King => 'K',
            Piece::Queen => 'Q',
            Piece::Bishop => 'B',
            Piece::Knight => 'N',
            Piece::Fortress => 'F',
            Piece::General => 'G',
            Piece::Pawn => 'P',
        }
    }

    /// One-letter code used when a piece is drawn.
    pub fn code(self) -> (c: char)
        ensures
            c == self.spec_code(),
    {
        match self {
            Piece::King => 'K',
            Piece::Queen => 'Q',
            Piece::Bishop => 'B',
            Piece::Knight => 'N',
            Piece::Fortress => 'F',
            Piece::General => 'G',
            Piece::Pawn => 'P',
        }
    }

    /// The name of each kind.
    pub open spec fn spec_name(self) -> Seq<char> {
        match self {
            Piece::King => "King"@,
            Piece::Queen => "Queen"@,
            Piece::Knight => "Knight"@,
            Piece::Bishop => "Bishop"@,
            Piece::Fortress => "Fortress"@,
            Piece::General => "General"@,
            Piece::Pawn => "Pawn"@,
        }
    }

    /// The name of the kind, as it is shown to the players.
    pub fn name(self) -> (s: String)
        ensures
            s@ == self.spec_name(),
    {
        match self {
            Piece::King => "King".to_string(),
            Piece::Queen => "Queen".to_string(),
            Piece::Knight => "Knight".to_string(),
            Piece::Bishop => "Bishop".to_string(),
            Piece::Fortress => "Fortress".to_string(),
            Piece::General => "General".to_string(),
            Piece::Pawn => "Pawn".to_string(),
        }
    }
}

} // verus!
