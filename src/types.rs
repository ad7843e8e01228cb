use vstd::prelude::*;

verus! {

/// The two players; White's advantage is counted positive.
#[derive(Clone, Copy, PartialEq, Eq, Debug, Structural)]
pub enum Side {
    White,
    Black,
}

/// The six kinds of chess piece, pawn first.
#[derive(Clone, Copy, PartialEq, Eq, Debug, Structural)]
pub enum PieceKind {
    Pawn,
    Knight,
    Bishop,
    Rook,
    Queen,
    King,
}

/// A piece standing on a square: its kind and its owner.
#[derive(Clone, Copy, PartialEq, Eq, Debug, Structural)]
pub struct Occupant {
    pub kind: PieceKind,
    pub side: Side,
}

/// A move in coordinate form. Squares are numbered `8 * rank + file`, so `0` is a1 and `63` is h8.
#[derive(Clone, Copy, PartialEq, Eq, Debug, Structural)]
pub struct Move {
    pub from: u8,
    pub to: u8,
    pub promotion: Option<PieceKind>,
}

/// What a position holds, as plain values: the contents of the 64 squares, the side to move,
/// each side's castling rights (0 none, 1 king side, 2 queen side, 3 both), and the square of
/// a pawn that may be taken en passant.
pub struct PositionModel {
    pub squares: Seq<Option<Occupant>>,
    pub white_to_move: bool,
    pub castling: (u8, u8),
    pub en_passant: Option<u8>,
}

/// A legal chess position. Besides the plain values that the evaluator reads, it carries the
/// rules engine's own board, from which those values were read.
pub struct Position {
    pub(crate) board: chess::Board,
    pub(crate) squares: Vec<Option<Occupant>>,
    pub(crate) white_to_move: bool,
    pub(crate) castling: (u8, u8),
    pub(crate) en_passant: Option<u8>,
}

impl View for Position {
    type V = PositionModel;

    closed spec fn view(&self) -> PositionModel {
        PositionModel {
            squares: self.squares@,
            white_to_move: self.white_to_move,
            castling: self.castling,
            en_passant: self.en_passant,
        }
    }
}

impl PositionModel {
    /// Sixty-four squares, and an en passant square that is one of them.
    pub open spec fn well_formed(self) -> bool {
        &&& self.squares.len() == 64
        &&& (self.en_passant matches Some(s) ==> s < 64)
    }

    pub open spec fn side_to_move(self) -> Side {
        if self.white_to_move {
            Side::White
        } else {
            Side::Black
        }
    }
}

impl Position {
    pub open spec fn well_formed(&self) -> bool {
        self@.well_formed()
    }

    /// The piece on square `sq`, if any.
    pub fn piece_at(&self, sq: u8) -> (r: Option<Occupant>)
        requires
            self.well_formed(),
            sq < 64,
        ensures
            r == self@.squares[sq as int],
    {
        self.squares[sq as usize]
    }

    pub fn side_to_move(&self) -> (r: Side)
        ensures
            r == self@.side_to_move(),
    {
        if self.white_to_move {
            Side::White
        } else {
            Side::Black
        }
    }

    /// The square of the pawn that may be taken en passant, if any.
    pub fn en_passant(&self) -> (r: Option<u8>)
        ensures
            r == self@.en_passant,
    {
        self.en_passant
    }
}

/// What a stored value means relative to the alpha-beta window it was found in.
#[derive(Clone, Copy, PartialEq, Eq, Debug, Structural)]
pub enum NodeType {
    /// The value is exact.
    Exact,
    /// The search stopped at a value at least beta: the true value is at least this.
    LowerBound,
    /// The search stopped at a value at most alpha: the true value is at most this.
    UpperBound,
}

/// The outcome of searching one node: its value (positive favours White), the running material
/// and positional baseline it was reached with, the best move found, the number of plies that
/// were left to search below it, and what the value means.
#[derive(Clone, Copy, PartialEq, Eq, Debug, Structural)]
pub struct SearchResult {
    pub value: i32,
    pub lazy_value: i32,
    pub best_move: Option<Move>,
    pub depth: u16,
    pub node_type: NodeType,
}

impl SearchResult {
    /// An exact result.
    pub fn new(value: i32, lazy_value: i32, best_move: Option<Move>, depth: u16) -> (r: SearchResult)
        ensures
            r == (SearchResult { value, lazy_value, best_move, depth, node_type: NodeType::Exact }),
    {
        SearchResult { value, lazy_value, best_move, depth, node_type: NodeType::Exact }
    }
}

pub open spec fn opponent(s: Side) -> Side {
    match s {
        Side::White => Side::Black,
        Side::Black => Side::White,
    }
}

pub fn other_side(s: Side) -> (r: Side)
    ensures
        r == opponent(s),
{
    match s {
        Side::White => Side::Black,
        Side::Black => Side::White,
    }
}

} // verus!
