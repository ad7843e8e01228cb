//! The rules engine: move generation, move application, game status and hashing come from the
//! `chess` crate. Each call sits in a small function below whose contract states what the call
//! returns; where the answer takes a whole rule book to state, it is given a name.
use vstd::prelude::*;
use crate::types::{Move, Occupant, PieceKind, Position, PositionModel, Side};

verus! {

#[verifier::external_type_specification]
#[verifier::external_body]
pub struct ExBoard(chess::Board);

#[verifier::external_type_specification]
#[verifier::external_body]
pub struct ExChessMove(chess::ChessMove);

#[verifier::external_type_specification]
#[verifier::external_body]
pub struct ExPiece(chess::Piece);

#[verifier::external_type_specification]
#[verifier::external_body]
pub struct ExColor(chess::Color);

/// Whether a game is still running, and how it ended if not.
#[derive(Clone, Copy, PartialEq, Eq, Debug, Structural)]
pub enum GameStatus {
    Ongoing,
    Stalemate,
    Checkmate,
}

/// The legal moves of a position, in the order the move generator yields them.
pub uninterp spec fn legal_moves_of(p: PositionModel) -> Seq<Move>;

/// The position reached by playing a legal move.
pub uninterp spec fn after_move(p: PositionModel, m: Move) -> PositionModel;

/// Whether the side to move is in check.
pub uninterp spec fn in_check_of(p: PositionModel) -> bool;

/// The Zobrist hash of a position.
pub uninterp spec fn hash_of(p: PositionModel) -> u64;

/// The position that a FEN text describes, if it describes a legal one.
pub uninterp spec fn position_from_fen(text: Seq<char>) -> Option<PositionModel>;

/// A game is over exactly when the side to move has no legal move; it is mate when that side is
/// in check.
pub open spec fn status_of(p: PositionModel) -> GameStatus {
    if legal_moves_of(p).len() > 0 {
        GameStatus::Ongoing
    } else if in_check_of(p) {
        GameStatus::Checkmate
    } else {
        GameStatus::Stalemate
    }
}

/// Every move names two squares of the board.
pub open spec fn moves_on_board(ms: Seq<Move>) -> bool {
    forall|i: int| 0 <= i < ms.len() ==> (#[trigger] ms[i]).from < 64 && ms[i].to < 64
}

/// The same position with the other side to move and no en passant square.
pub open spec fn passed(p: PositionModel) -> PositionModel {
    PositionModel {
        squares: p.squares,
        white_to_move: !p.white_to_move,
        castling: p.castling,
        en_passant: None,
    }
}

/// The name of a square in coordinate notation, file letter then rank digit.
pub open spec fn square_text(sq: int) -> Seq<char> {
    seq![
        seq!['a', 'b', 'c', 'd', 'e', 'f', 'g', 'h'][sq % 8],
        seq!['1', '2', '3', '4', '5', '6', '7', '8'][sq / 8],
    ]
}

/// The letter of a piece kind in coordinate notation.
pub open spec fn kind_letter(k: PieceKind) -> char {
    match k {
        PieceKind::Pawn => 'p',
        PieceKind::Knight => 'n',
        PieceKind::Bishop => 'b',
        PieceKind::Rook => 'r',
        PieceKind::Queen => 'q',
        PieceKind::King => 'k',
    }
}

/// A move in coordinate notation: its two squares, then the letter of the promotion piece.
pub open spec fn move_text_of(m: Move) -> Seq<char> {
    square_text(m.from as int) + square_text(m.to as int) + match m.promotion {
        Some(k) => seq![kind_letter(k)],
        None => Seq::<char>::empty(),
    }
}

/// A pawn move from the second or seventh rank to the fourth or fifth, whichever side makes it.
pub open spec fn is_double_step(m: Move) -> bool {
    (m.from / 8 == 1 || m.from / 8 == 6) && (m.to / 8 == 3 || m.to / 8 == 4)
}

/// The square one rank behind `sq` for `side`, wrapping around the board's edge.
pub open spec fn square_behind(sq: int, side: Side) -> int {
    match side {
        Side::White => 8 * ((sq / 8 + 7) % 8) + sq % 8,
        Side::Black => 8 * ((sq / 8 + 1) % 8) + sq % 8,
    }
}

/// The piece on the move's source square.
pub open spec fn mover(p: PositionModel, m: Move) -> Occupant {
    p.squares[m.from as int]->0
}

/// A pawn move, without promotion and other than a double step, whose target square lies just
/// ahead of the pawn that may be taken en passant: that pawn leaves the board.
pub open spec fn takes_en_passant(p: PositionModel, m: Move) -> bool {
    &&& mover(p, m).kind == PieceKind::Pawn
    &&& m.promotion is None
    &&& !is_double_step(m)
    &&& p.en_passant == Some(square_behind(m.to as int, p.side_to_move()) as u8)
}

/// One of the castling squares c1, e1, g1, c8, e8, g8.
pub open spec fn is_castle_square(sq: int) -> bool {
    sq == 2 || sq == 4 || sq == 6 || sq == 58 || sq == 60 || sq == 62
}

/// A king move between two castling squares: the rook moves too.
pub open spec fn is_castling(p: PositionModel, m: Move) -> bool {
    mover(p, m).kind == PieceKind::King && is_castle_square(m.from as int) && is_castle_square(m.to as int)
}

/// The back rank of a side.
pub open spec fn back_rank(side: Side) -> int {
    match side {
        Side::White => 0,
        Side::Black => 7,
    }
}

/// The corner the castling rook starts from: the a-file towards c, the h-file towards g.
pub open spec fn rook_from(m: Move, side: Side) -> int {
    8 * back_rank(side) + if m.to % 8 < 4 { 0int } else { 7int }
}

/// The square the castling rook ends on: the d-file towards c, the f-file towards g.
pub open spec fn rook_to(m: Move, side: Side) -> int {
    8 * back_rank(side) + if m.to % 8 < 4 { 3int } else { 5int }
}

/// The contents of the squares after move `m`: the mover leaves its square and stands on the
/// target as itself, or as the promotion piece if it is a pawn; a pawn taken en passant leaves
/// the board; in castling the rook moves from its corner beside the king.
pub open spec fn squares_after(p: PositionModel, m: Move) -> Seq<Option<Occupant>> {
    let side = p.side_to_move();
    let kind = if mover(p, m).kind == PieceKind::Pawn && m.promotion is Some {
        m.promotion->0
    } else {
        mover(p, m).kind
    };
    let moved = p.squares.update(m.from as int, None).update(m.to as int, Some(Occupant { kind, side }));
    if takes_en_passant(p, m) {
        moved.update(p.en_passant->0 as int, None)
    } else if is_castling(p, m) {
        moved.update(rook_from(m, side), None).update(
            rook_to(m, side),
            Some(Occupant { kind: PieceKind::Rook, side }),
        )
    } else {
        moved
    }
}

/// The shape of every legal move: a piece of the side to move goes to a square that holds no
/// piece of its own; only a pawn promotes; an en passant capture lands on an empty square just
/// ahead of an enemy pawn, and is the only file-changing pawn move onto an empty square; castling
/// finds its rook in the corner and the rook's target square empty.
pub open spec fn is_plain_move(p: PositionModel, m: Move) -> bool {
    let side = p.side_to_move();
    &&& m.from < 64 && m.to < 64 && m.from != m.to
    &&& p.squares[m.from as int] matches Some(o) && o.side == side
    &&& (p.squares[m.to as int] matches Some(t) ==> t.side != side)
    &&& (m.promotion is Some ==> mover(p, m).kind == PieceKind::Pawn)
    &&& (takes_en_passant(p, m) <==> (p.squares[m.to as int] is None && p.en_passant is Some
        && mover(p, m).kind == PieceKind::Pawn && m.from % 8 != m.to % 8))
    &&& (takes_en_passant(p, m) ==> (p.squares[p.en_passant->0 as int] matches Some(e) && e.side != side))
    &&& (is_castling(p, m) ==> p.squares[rook_from(m, side)] == Some(Occupant { kind: PieceKind::Rook, side })
        && p.squares[rook_to(m, side)] is None)
}

/// Converts a `chess::Piece`, one variant to one variant.
#[verifier::external_body]
fn kind_of(k: chess::Piece) -> PieceKind {
    match k {
        chess::Piece::Pawn => PieceKind::Pawn,
        chess::Piece::Knight => PieceKind::Knight,
        chess::Piece::Bishop => PieceKind::Bishop,
        chess::Piece::Rook => PieceKind::Rook,
        chess::Piece::Queen => PieceKind::Queen,
        chess::Piece::King => PieceKind::King,
    }
}

/// Converts a piece kind to a `chess::Piece`, one variant to one variant.
#[verifier::external_body]
fn engine_kind(k: PieceKind) -> chess::Piece {
    match k {
        PieceKind::Pawn => chess::Piece::Pawn,
        PieceKind::Knight => chess::Piece::Knight,
        PieceKind::Bishop => chess::Piece::Bishop,
        PieceKind::Rook => chess::Piece::Rook,
        PieceKind::Queen => chess::Piece::Queen,
        PieceKind::King => chess::Piece::King,
    }
}

/// Converts a `chess::Color`, one variant to one variant.
#[verifier::external_body]
fn side_of(c: chess::Color) -> Side {
    match c {
        chess::Color::White => Side::White,
        chess::Color::Black => Side::Black,
    }
}

/// Converts a `chess::ChessMove` through its getters; `Square::to_int` numbers squares as
/// `Move` does.
#[verifier::external_body]
fn move_of(m: chess::ChessMove) -> Move {
    Move {
        from: m.get_source().to_int(),
        to: m.get_dest().to_int(),
        promotion: m.get_promotion().map(kind_of),
    }
}

/// Converts a move to a `chess::ChessMove` with `ChessMove::new`, taking its squares from
/// `chess::ALL_SQUARES`, which lists them in the order of `Square::to_int`.
#[verifier::external_body]
fn engine_move(m: Move) -> chess::ChessMove
    requires
        m.from < 64,
        m.to < 64,
{
    chess::ChessMove::new(
        chess::ALL_SQUARES[m.from as usize],
        chess::ALL_SQUARES[m.to as usize],
        m.promotion.map(engine_kind),
    )
}

/// Reads the plain values of a board through `Board::piece_on`, `color_on`, `side_to_move`,
/// `castle_rights` (as `CastleRights::to_index`) and `en_passant`, walking `chess::ALL_SQUARES`.
#[verifier::external_body]
fn position_of(board: chess::Board) -> Position {
    let squares = chess::ALL_SQUARES.iter().map(|s| match (board.piece_on(*s), board.color_on(*s)) {
        (Some(k), Some(c)) => Some(Occupant { kind: kind_of(k), side: side_of(c) }),
        _ => None,
    }).collect();
    let white = board.castle_rights(chess::Color::White).to_index() as u8;
    let black = board.castle_rights(chess::Color::Black).to_index() as u8;
    let white_to_move = board.side_to_move() == chess::Color::White;
    let en_passant = board.en_passant().map(|s| s.to_int());
    Position { board, squares, white_to_move, castling: (white, black), en_passant }
}

/// The number of empty squares a FEN digit stands for, or nothing.
pub open spec fn fen_digit(c: char) -> Option<int> {
    if c == '1' {
        Some(1)
    } else if c == '2' {
        Some(2)
    } else if c == '3' {
        Some(3)
    } else if c == '4' {
        Some(4)
    } else if c == '5' {
        Some(5)
    } else if c == '6' {
        Some(6)
    } else if c == '7' {
        Some(7)
    } else if c == '8' {
        Some(8)
    } else {
        None
    }
}

/// Whether `c` is a FEN piece letter.
pub open spec fn is_piece_letter(c: char) -> bool {
    c == 'P' || c == 'N' || c == 'B' || c == 'R' || c == 'Q' || c == 'K' || c == 'p' || c == 'n' || c == 'b'
        || c == 'r' || c == 'q' || c == 'k'
}

/// Whether the piece-placement field of a FEN text (the text up to its first space), read from
/// index `i` on after `slashes` rank separators, with `files` squares of the current rank filled
/// and the kings seen so far, completes eight ranks of exactly eight squares with a king of each
/// side.
pub open spec fn placement_from(s: Seq<char>, i: int, slashes: int, files: int, white_king: bool, black_king: bool) -> bool
    decreases s.len() - i,
{
    if i < 0 || i >= s.len() || s[i] == ' ' {
        slashes == 7 && files == 8 && white_king && black_king
    } else if s[i] == '/' {
        files == 8 && slashes < 7 && placement_from(s, i + 1, slashes + 1, 0, white_king, black_king)
    } else if fen_digit(s[i]) is Some {
        files + fen_digit(s[i])->0 <= 8 && placement_from(
            s,
            i + 1,
            slashes,
            files + fen_digit(s[i])->0,
            white_king,
            black_king,
        )
    } else if is_piece_letter(s[i]) {
        files < 8 && placement_from(s, i + 1, slashes, files + 1, white_king || s[i] == 'K', black_king || s[i] == 'k')
    } else {
        false
    }
}

/// A FEN text whose piece placement is a full board with both kings on it: every piece lands on
/// a square of its own, and the rules engine finds a king for each side.
pub open spec fn placement_ok(text: Seq<char>) -> bool {
    placement_from(text, 0, 0, 0, false, false)
}

/// Checks the piece placement of a FEN text.
pub fn check_placement(text: &str) -> (r: bool)
    ensures
        r == placement_ok(text@),
{
    let n = text.unicode_len();
    let mut i: usize = 0;
    let mut slashes: usize = 0;
    let mut files: usize = 0;
    let mut white_king = false;
    let mut black_king = false;
    while i < n
        invariant
            n == text@.len(),
            i <= n,
            slashes <= 7,
            files <= 8,
            placement_ok(text@) == placement_from(text@, i as int, slashes as int, files as int, white_king, black_king),
        ensures
            placement_ok(text@) == (slashes == 7 && files == 8 && white_king && black_king),
        decreases n - i,
    {
        let c = text.get_char(i);
        if c == ' ' {
            assert(text@[i as int] == ' ');
            break;
        } else if c == '/' {
            if files != 8 || slashes >= 7 {
                return false;
            }
            slashes = slashes + 1;
            files = 0;
        } else if c >= '1' && c <= '8' {
            let d: usize = if c == '1' {
                1
            } else if c == '2' {
                2
            } else if c == '3' {
                3
            } else if c == '4' {
                4
            } else if c == '5' {
                5
            } else if c == '6' {
                6
            } else if c == '7' {
                7
            } else {
                8
            };
            assert(fen_digit(c) == Some(d as int));
            if files + d > 8 {
                return false;
            }
            files = files + d;
        } else if c == 'P' || c == 'N' || c == 'B' || c == 'R' || c == 'Q' || c == 'K' || c == 'p' || c == 'n'
            || c == 'b' || c == 'r' || c == 'q' || c == 'k' {
            if files >= 8 {
                return false;
            }
            files = files + 1;
            white_king = white_king || c == 'K';
            black_king = black_king || c == 'k';
        } else {
            return false;
        }
        i = i + 1;
    }
    slashes == 7 && files == 8 && white_king && black_king
}

/// Reads the position that a FEN text describes; nothing when the text describes none, or when
/// its piece placement is not a full board with both kings.
pub fn read_fen(text: &str) -> (r: Option<Position>)
    ensures
        r.is_some() == (placement_ok(text@) && position_from_fen(text@).is_some()),
        r matches Some(p) ==> Some(p@) == position_from_fen(text@) && p@.well_formed(),
{
    if check_placement(text) {
        parse_fen(text)
    } else {
        None
    }
}

/// Relies on `Board::from_str`: a FEN text gives a position, or an error; which depends on the
/// text alone. The parser finds the king of the side to move before it checks the board, so the
/// text must place a king of each side.
#[verifier::external_body]
pub fn parse_fen(text: &str) -> (r: Option<Position>)
    requires
        placement_ok(text@),
    ensures
        r.is_some() == position_from_fen(text@).is_some(),
        r matches Some(p) ==> Some(p@) == position_from_fen(text@) && p@.well_formed(),
{
    <chess::Board as std::str::FromStr>::from_str(text).ok().map(position_of)
}

/// Relies on `MoveGen::new_legal`: the legal moves of the position.
#[verifier::external_body]
pub fn legal_moves(p: &Position) -> (r: Vec<Move>)
    ensures
        r@ == legal_moves_of(p@),
        moves_on_board(r@),
{
    chess::MoveGen::new_legal(&p.board).map(move_of).collect()
}

/// Relies on `Board::make_move_new`: the position after a legal move, with the other side to
/// move. The board is changed by toggling the mover off its square and onto the target, the
/// captured piece off the target, the promoted pawn into its new piece, the pawn taken en
/// passant off its square, and the castling rook from its corner to its square; for a move of
/// the shape of `is_plain_move` those toggles leave the squares as `squares_after` says.
#[verifier::external_body]
pub fn make_move(p: &Position, m: Move) -> (r: Position)
    requires
        legal_moves_of(p@).contains(m),
        m.from < 64,
        m.to < 64,
    ensures
        r@ == after_move(p@, m),
        r@.well_formed(),
        r@.white_to_move == !p@.white_to_move,
        is_plain_move(p@, m) ==> r@.squares == squares_after(p@, m),
{
    position_of(p.board.make_move_new(engine_move(m)))
}

/// Relies on `Board::checkers`: whether some piece gives check to the side to move.
#[verifier::external_body]
pub fn in_check(p: &Position) -> (r: bool)
    ensures
        r == in_check_of(p@),
{
    p.board.checkers().popcnt() > 0
}

/// Relies on `Board::status`: no legal move and a checker is mate, no legal move and none is
/// stalemate.
#[verifier::external_body]
pub fn status(p: &Position) -> (r: GameStatus)
    ensures
        r == status_of(p@),
{
    match p.board.status() {
        chess::BoardStatus::Ongoing => GameStatus::Ongoing,
        chess::BoardStatus::Stalemate => GameStatus::Stalemate,
        chess::BoardStatus::Checkmate => GameStatus::Checkmate,
    }
}

/// Relies on `Board::null_move`: when the side to move is not in check, the same board with the
/// other side to move and the en passant square cleared; otherwise nothing.
#[verifier::external_body]
pub fn null_move(p: &Position) -> (r: Option<Position>)
    ensures
        r.is_none() == in_check_of(p@),
        r matches Some(q) ==> q@ == passed(p@),
{
    p.board.null_move().map(position_of)
}

/// Relies on `Board::get_hash`: the position's hash.
#[verifier::external_body]
pub fn position_hash(p: &Position) -> (r: u64)
    ensures
        r == hash_of(p@),
{
    p.board.get_hash()
}

/// Relies on the `Display` of `ChessMove`: the source square, the target square (each a file
/// letter and a rank digit) and the lower-case letter of the promotion piece.
#[verifier::external_body]
pub fn move_text(m: Move) -> (r: String)
    requires
        m.from < 64,
        m.to < 64,
    ensures
        r@ == move_text_of(m),
{
    engine_move(m).to_string()
}

} // verus!
