//! The position evaluator: material and forward progress of every piece, the pawn-chain bonus,
//! and the leaf-only mobility and king-safety terms; and the incremental evaluator, which gives
//! the change of the material and positional score that a move makes.
use vstd::prelude::*;
use crate::rules::{
    in_check_of, is_castling, is_plain_move, legal_moves, legal_moves_of, moves_on_board, mover,
    null_move, passed, rook_from, rook_to, squares_after, takes_en_passant,
};
use crate::tables::{
    attack_penalty, attack_penalty_of, attack_weight, base_value, forward_scale, in_king_zone,
    has_bit, init_king_mask, piece_attack_weight, piece_forward_scale, piece_value,
    MAX_ATTACK_WEIGHT, PAWN_SUPPORT_BONUS, SIDE_SCALAR, step,
};
use crate::types::{other_side, opponent, Move, Occupant, PieceKind, Position, PositionModel, Side};

verus! {

/// `x` as it counts for White: as it is for White, negated for Black.
pub open spec fn signed(side: Side, x: int) -> int {
    match side {
        Side::White => x,
        Side::Black => -x,
    }
}

/// Forward progress of a piece, signed by side: the rank for White, minus the distance from
/// the eighth rank for Black, scaled by the kind's forward scale.
pub open spec fn positional(k: PieceKind, sq: int, side: Side) -> int {
    match side {
        Side::White => forward_scale(k) * (sq / 8),
        Side::Black => -(forward_scale(k) * (7 - sq / 8)),
    }
}

/// Material and forward progress of one piece, positive for White.
pub open spec fn piece_score(k: PieceKind, sq: int, side: Side) -> int {
    signed(side, base_value(k)) + positional(k, sq, side)
}

/// What one square contributes to the material and positional score.
pub open spec fn cell_score(cell: Option<Occupant>, sq: int) -> int {
    match cell {
        None => 0,
        Some(o) => piece_score(o.kind, sq, o.side),
    }
}

/// The material and positional score of the first `n` squares.
pub open spec fn material_upto(s: Seq<Option<Occupant>>, n: nat) -> int
    decreases n,
{
    if n == 0 {
        0
    } else {
        material_upto(s, (n - 1) as nat) + cell_score(s[n - 1], n - 1)
    }
}

/// The material and positional score of a board.
pub open spec fn material_score(s: Seq<Option<Occupant>>) -> int {
    material_upto(s, s.len())
}

proof fn lemma_cell_bound(cell: Option<Occupant>, sq: int)
    requires
        0 <= sq < 64,
    ensures
        -800 <= cell_score(cell, sq) <= 800,
{
    if let Some(o) = cell {
        let r = sq / 8;
        assert(0 <= r <= 7);
        let fs = forward_scale(o.kind);
        assert(-10 <= fs <= 10);
        assert(-80 <= fs * r <= 80) by (nonlinear_arith)
            requires
                -10 <= fs <= 10,
                0 <= r <= 7,
        ;
        assert(-80 <= fs * (7 - r) <= 80) by (nonlinear_arith)
            requires
                -10 <= fs <= 10,
                0 <= r <= 7,
        ;
    }
}

/// The forward-progress term of a piece.
pub fn eval_piece_position(k: PieceKind, sq: u8, side: Side) -> (r: i32)
    requires
        sq < 64,
    ensures
        r == positional(k, sq as int, side),
        -80 <= r <= 80,
{
    let rank = (sq / 8) as i32;
    let fs = piece_forward_scale(k);
    assert(-80 <= fs * rank <= 80) by (nonlinear_arith)
        requires
            -10 <= fs <= 10,
            0 <= rank <= 7,
    ;
    assert(-80 <= fs * (7 - rank) <= 80) by (nonlinear_arith)
        requires
            -10 <= fs <= 10,
            0 <= rank <= 7,
    ;
    match side {
        Side::White => fs * rank,
        Side::Black => -(fs * (7 - rank)),
    }
}

/// Material plus forward progress of a piece, positive for White.
pub fn eval_piece(k: PieceKind, sq: u8, side: Side) -> (r: i32)
    requires
        sq < 64,
    ensures
        r == piece_score(k, sq as int, side),
{
    let v = piece_value(k);
    let pos = eval_piece_position(k, sq, side);
    match side {
        Side::White => v + pos,
        Side::Black => -v + pos,
    }
}

fn eval_cell(cell: Option<Occupant>, sq: u8) -> (r: i32)
    requires
        sq < 64,
    ensures
        r == cell_score(cell, sq as int),
{
    match cell {
        None => 0,
        Some(o) => eval_piece(o.kind, sq, o.side),
    }
}

/// The material and positional score of the whole board, positive for White.
pub fn eval_all_pieces_positional(p: &Position) -> (r: i32)
    requires
        p.well_formed(),
    ensures
        r == material_score(p@.squares),
{
    let mut acc: i32 = 0;
    let mut i: u8 = 0;
    while i < 64
        invariant
            p.well_formed(),
            i <= 64,
            acc == material_upto(p@.squares, i as nat),
            -800 * i <= acc <= 800 * i,
        decreases 64 - i,
    {
        let c = p.piece_at(i);
        proof {
            lemma_cell_bound(c, i as int);
        }
        acc = acc + eval_cell(c, i);
        i = i + 1;
    }
    acc
}

/// Whether square `sq`, if on the board, holds a pawn of side `side`.
pub open spec fn pawn_on(s: Seq<Option<Occupant>>, sq: Option<u8>, side: Side) -> bool {
    sq matches Some(t) && s[t as int] == Some(Occupant { kind: PieceKind::Pawn, side })
}

/// The rank offset that points behind a pawn of side `side`.
pub open spec fn behind(side: Side) -> int {
    match side {
        Side::White => -1,
        Side::Black => 1,
    }
}

/// The bonus of a pawn of side `side` on `sq`: so much for each pawn of its side that stands
/// diagonally behind it.
pub open spec fn pawn_support(s: Seq<Option<Occupant>>, sq: int, side: Side) -> int {
    (if pawn_on(s, step(sq, behind(side), -1), side) { PAWN_SUPPORT_BONUS as int } else { 0 })
        + (if pawn_on(s, step(sq, behind(side), 1), side) { PAWN_SUPPORT_BONUS as int } else { 0 })
}

/// What the pawn on a square, if any, contributes to the pawn-chain bonus.
pub open spec fn pawn_chain_score(s: Seq<Option<Occupant>>, sq: int) -> int {
    match s[sq] {
        Some(o) => if o.kind == PieceKind::Pawn {
            signed(o.side, pawn_support(s, sq, o.side))
        } else {
            0
        },
        None => 0,
    }
}

pub open spec fn pawn_chain_upto(s: Seq<Option<Occupant>>, n: nat) -> int
    decreases n,
{
    if n == 0 {
        0
    } else {
        pawn_chain_upto(s, (n - 1) as nat) + pawn_chain_score(s, n - 1)
    }
}

/// The pawn-chain bonus of a board, positive for White.
pub open spec fn pawn_chain_bonus(s: Seq<Option<Occupant>>) -> int {
    pawn_chain_upto(s, s.len())
}

fn pawn_at(p: &Position, sq: Option<u8>, side: Side) -> (r: bool)
    requires
        p.well_formed(),
        sq matches Some(t) ==> t < 64,
    ensures
        r == pawn_on(p@.squares, sq, side),
{
    match sq {
        None => false,
        Some(t) => match p.piece_at(t) {
            Some(o) => o.kind == PieceKind::Pawn && o.side == side,
            None => false,
        },
    }
}

proof fn lemma_step_on_board(sq: int, dr: int, df: int)
    ensures
        step(sq, dr, df) matches Some(t) ==> t < 64,
{
}

/// The bonus of the pawn of side `side` on `sq` for the pawns of its side diagonally behind it.
pub fn eval_pawn_extra(sq: u8, side: Side, p: &Position) -> (r: i32)
    requires
        p.well_formed(),
        sq < 64,
    ensures
        r == pawn_support(p@.squares, sq as int, side),
{
    let back: i8 = match side {
        Side::White => -1,
        Side::Black => 1,
    };
    let mut bonus: i32 = 0;
    let west = crate::tables::step_exec(sq, back, -1);
    let east = crate::tables::step_exec(sq, back, 1);
    proof {
        lemma_step_on_board(sq as int, back as int, -1);
        lemma_step_on_board(sq as int, back as int, 1);
    }
    if pawn_at(p, west, side) {
        bonus = bonus + PAWN_SUPPORT_BONUS;
    }
    if pawn_at(p, east, side) {
        bonus = bonus + PAWN_SUPPORT_BONUS;
    }
    bonus
}

/// The pawn-chain bonus of the whole board, positive for White.
pub fn eval_overall_pawn_bonus(p: &Position) -> (r: i32)
    requires
        p.well_formed(),
    ensures
        r == pawn_chain_bonus(p@.squares),
        -640 <= r <= 640,
{
    let mut overall: i32 = 0;
    let mut i: u8 = 0;
    while i < 64
        invariant
            p.well_formed(),
            i <= 64,
            overall == pawn_chain_upto(p@.squares, i as nat),
            -10 * i <= overall <= 10 * i,
        decreases 64 - i,
    {
        if let Some(o) = p.piece_at(i) {
            if o.kind == PieceKind::Pawn {
                let extra = eval_pawn_extra(i, o.side, p);
                match o.side {
                    Side::White => overall = overall + extra,
                    Side::Black => overall = overall - extra,
                }
            }
        }
        i = i + 1;
    }
    overall
}

/// Whether a pawn move changes file: a capture, en passant when the target square is empty.
pub open spec fn changes_file(m: Move) -> bool {
    m.from % 8 != m.to % 8
}

/// The score of what a move takes: the piece on the target square, or the pawn passed by an
/// en passant capture.
pub open spec fn captured_score(p: PositionModel, m: Move, mover: Occupant) -> int {
    if p.squares[m.to as int] is Some {
        cell_score(p.squares[m.to as int], m.to as int)
    } else if p.en_passant is Some && mover.kind == PieceKind::Pawn && changes_file(m) {
        let e = p.en_passant->0 as int;
        cell_score(p.squares[e], e)
    } else {
        0
    }
}

/// The change of the material and positional score that a move makes: the mover's forward
/// progress (as the promoted piece, if it promotes), the material gained by promotion, and the
/// whole score of what it takes.
pub open spec fn incremental_delta(p: PositionModel, m: Move) -> int {
    match p.squares[m.from as int] {
        None => 0,
        Some(mover) => {
            let result_kind = match m.promotion {
                Some(k) => k,
                None => mover.kind,
            };
            positional(result_kind, m.to as int, mover.side) - positional(mover.kind, m.from as int, mover.side)
                + signed(mover.side, base_value(result_kind) - base_value(mover.kind))
                - captured_score(p, m, mover)
        },
    }
}

/// The change of the material and positional score that move `m` makes, without a scan of the
/// board.
pub fn assess_incremental(p: &Position, m: Move) -> (r: i32)
    requires
        p.well_formed(),
        m.from < 64,
        m.to < 64,
    ensures
        r == incremental_delta(p@, m),
        -3000 <= r <= 3000,
{
    let mover = match p.piece_at(m.from) {
        Some(o) => o,
        None => return 0,
    };
    let result_kind = match m.promotion {
        Some(k) => k,
        None => mover.kind,
    };
    let mut val: i32 = eval_piece_position(result_kind, m.to, mover.side) - eval_piece_position(
        mover.kind,
        m.from,
        mover.side,
    );
    let gain = piece_value(result_kind) - piece_value(mover.kind);
    let signed_gain = match mover.side {
        Side::White => gain,
        Side::Black => -gain,
    };
    val = val + signed_gain;
    let target = p.piece_at(m.to);
    proof {
        lemma_cell_bound(target, m.to as int);
    }
    let ghost before = val;

    if target.is_some() {
        val = val - eval_cell(target, m.to);
    } else if let Some(e) = p.en_passant() {
        if mover.kind == PieceKind::Pawn && m.from % 8 != m.to % 8 {
            let passed_pawn = p.piece_at(e);
            proof {
                lemma_cell_bound(passed_pawn, e as int);
            }
            val = val - eval_cell(passed_pawn, e);
        }
    }
    assert(val == before - captured_score(p@, m, mover));
    val
}

/// A capture whose attacker is worth no more than its target.
pub open spec fn is_advantaged_capture(p: PositionModel, m: Move) -> bool {
    match (p.squares[m.from as int], p.squares[m.to as int]) {
        (Some(attacker), Some(defender)) => base_value(attacker.kind) <= base_value(defender.kind),
        _ => false,
    }
}

/// Whether `m` takes a piece worth at least the piece that takes it.
pub fn advantaged_capture(m: Move, p: &Position) -> (r: bool)
    requires
        p.well_formed(),
        m.from < 64,
        m.to < 64,
    ensures
        r == is_advantaged_capture(p@, m),
{
    match (p.piece_at(m.from), p.piece_at(m.to)) {
        (Some(attacker), Some(defender)) => piece_value(attacker.kind) <= piece_value(defender.kind),
        _ => false,
    }
}

/// The first square at or after `i` that holds the king of side `side`.
pub open spec fn king_from(s: Seq<Option<Occupant>>, side: Side, i: int) -> Option<int>
    decreases s.len() - i,
{
    if i < 0 || i >= s.len() {
        None
    } else if s[i] == Some(Occupant { kind: PieceKind::King, side }) {
        Some(i)
    } else {
        king_from(s, side, i + 1)
    }
}

/// The square of the king of side `side`.
pub open spec fn king_square(s: Seq<Option<Occupant>>, side: Side) -> Option<int> {
    king_from(s, side, 0)
}

fn find_king(p: &Position, side: Side) -> (r: Option<u8>)
    requires
        p.well_formed(),
    ensures
        match r {
            Some(k) => k < 64 && king_square(p@.squares, side) == Some(k as int),
            None => king_square(p@.squares, side) is None,
        },
{
    let mut i: u8 = 0;
    while i < 64
        invariant
            p.well_formed(),
            i <= 64,
            king_square(p@.squares, side) == king_from(p@.squares, side, i as int),
        decreases 64 - i,
    {
        if p.piece_at(i) == Some(Occupant { kind: PieceKind::King, side }) {
            return Some(i);
        }
        i = i + 1;
    }
    None
}

/// The attack weight of the piece on `sq`, if any.
pub open spec fn mover_weight(s: Seq<Option<Occupant>>, sq: int) -> int {
    match s[sq] {
        Some(o) => attack_weight(o.kind),
        None => 0,
    }
}

/// The summed weight of the first `n` moves that land in the zone of the king on `king`.
pub open spec fn threat_weight(s: Seq<Option<Occupant>>, ms: Seq<Move>, n: nat, king: int, side: Side) -> int
    decreases n,
{
    if n == 0 {
        0
    } else {
        threat_weight(s, ms, (n - 1) as nat, king, side) + if in_king_zone(king, ms[n - 1].to as int, side) {
            mover_weight(s, ms[n - 1].from as int)
        } else {
            0
        }
    }
}

/// The aggregate weight of the legal moves of the side to move that land in the danger zone
/// around the enemy king.
pub open spec fn threat_total(p: PositionModel) -> int {
    match king_square(p.squares, opponent(p.side_to_move())) {
        None => 0,
        Some(k) => threat_weight(p.squares, legal_moves_of(p), legal_moves_of(p).len(), k, p.side_to_move()),
    }
}

/// The aggregate attack weight of the side to move against the enemy king's zone: the summed
/// weight of its legal moves that land there.
pub fn get_attack_weight(p: &Position, moves: &Vec<Move>) -> (r: u128)
    requires
        p.well_formed(),
        moves@ == legal_moves_of(p@),
        moves_on_board(moves@),
    ensures
        r as int == threat_total(p@),
{
    let side = p.side_to_move();
    let king = match find_king(p, other_side(side)) {
        Some(k) => k,
        None => return 0,
    };
    let mask = init_king_mask(king, side);
    let mut w: u128 = 0;
    let mut i: usize = 0;
    while i < moves.len()
        invariant
            p.well_formed(),
            moves_on_board(moves@),
            i <= moves@.len(),
            crate::tables::is_zone_mask(mask, king as int, side),
            w as int == threat_weight(p@.squares, moves@, i as nat, king as int, side),
            w <= 5 * i,
        decreases moves@.len() - i,
    {
        let m = moves[i];
        assert(m.from < 64 && m.to < 64) by {
            assert(moves@[i as int] == m);
        }
        if (mask >> (m.to as u64)) & 1 == 1 {
            assert(has_bit(mask, m.to as int));
            let aw = match p.piece_at(m.from) {
                Some(o) => piece_attack_weight(o.kind),
                None => 0,
            };
            w = w + aw as u128;
        } else {
            assert(!has_bit(mask, m.to as int));
        }
        i = i + 1;
    }
    w
}

/// The leaf-only terms of one side, the side to move: ten per legal move, and the king-safety
/// penalty of its attacks.
pub open spec fn side_terms(p: PositionModel) -> int {
    SIDE_SCALAR * legal_moves_of(p).len() + attack_penalty(threat_total(p))
}

/// The leaf-only terms of a position, positive for White: the mobility and king-safety terms of
/// the side to move less those of the other side (counted on the passed position, and left out
/// when the side to move is in check), plus the pawn-chain bonus.
pub open spec fn leaf_terms(p: PositionModel) -> int {
    signed(
        p.side_to_move(),
        side_terms(p) - if in_check_of(p) {
            0
        } else {
            side_terms(passed(p))
        },
    ) + pawn_chain_bonus(p.squares)
}

fn eval_side_terms(p: &Position) -> (r: i128)
    requires
        p.well_formed(),
    ensures
        r == side_terms(p@),
        0 <= r <= 200_000_000_000_000_000_000,
{
    let moves = legal_moves(p);
    let w = get_attack_weight(p, &moves);
    let n = moves.len() as i128;
    (SIDE_SCALAR as i128) * n + (attack_penalty_of(w) as i128)
}

/// The terms of a leaf that are not tracked incrementally: mobility, king safety and the
/// pawn-chain bonus, positive for White.
pub fn lazy_assess_board(p: &Position) -> (r: i128)
    requires
        p.well_formed(),
    ensures
        r == leaf_terms(p@),
        -300_000_000_000_000_000_000 <= r <= 300_000_000_000_000_000_000,
{
    let mine = eval_side_terms(p);
    let theirs: i128 = match null_move(p) {
        Some(q) => eval_side_terms(&q),
        None => 0,
    };
    let bonus = eval_overall_pawn_bonus(p) as i128;
    match p.side_to_move() {
        Side::White => (mine - theirs) + bonus,
        Side::Black => -(mine - theirs) + bonus,
    }
}

proof fn lemma_material_update(s: Seq<Option<Occupant>>, i: int, v: Option<Occupant>, n: nat)
    requires
        0 <= i < s.len(),
        n <= s.len(),
    ensures
        material_upto(s.update(i, v), n) == material_upto(s, n) + if i < n {
            cell_score(v, i) - cell_score(s[i], i)
        } else {
            0
        },
    decreases n,
{
    if n > 0 {
        lemma_material_update(s, i, v, (n - 1) as nat);
    }
}

/// What one move does to the material and positional score is what the incremental evaluator
/// says it does.
pub proof fn lemma_move_delta(p: PositionModel, m: Move)
    requires
        p.well_formed(),
        is_plain_move(p, m),
    ensures
        squares_after(p, m).len() == 64,
        material_score(squares_after(p, m)) == material_score(p.squares) + incremental_delta(p, m),
{
    let side = p.side_to_move();
    let o = mover(p, m);
    let kind = if o.kind == PieceKind::Pawn && m.promotion is Some {
        m.promotion->0
    } else {
        o.kind
    };
    let from = m.from as int;
    let to = m.to as int;
    let s0 = p.squares;
    let s1 = s0.update(from, None);
    let s2 = s1.update(to, Some(Occupant { kind, side }));
    lemma_material_update(s0, from, None, 64);
    lemma_material_update(s1, to, Some(Occupant { kind, side }), 64);
    assert(s1[to] == s0[to]);
    assert(material_score(s2) == material_score(s0) - cell_score(s0[from], from) + cell_score(
        Some(Occupant { kind, side }),
        to,
    ) - cell_score(s0[to], to));
    if takes_en_passant(p, m) {
        let e = p.en_passant->0 as int;
        assert(e != from && e != to);
        lemma_material_update(s2, e, None, 64);
        assert(s2[e] == s0[e]);
    } else if is_castling(p, m) {
        let a = rook_from(m, side);
        let b = rook_to(m, side);
        let rook = Some(Occupant { kind: PieceKind::Rook, side });
        assert(a != from && a != to && b != from && b != to && a != b);
        let s3 = s2.update(a, None);
        lemma_material_update(s2, a, None, 64);
        lemma_material_update(s3, b, rook, 64);
        assert(s2[a] == rook);
        assert(s3[b] == s0[b]);
        assert(a / 8 == b / 8);
        assert(cell_score(rook, a) == cell_score(rook, b));
    }
}

/// The sum of the incremental deltas of the first `n` moves, each made in the position before it.
pub open spec fn delta_total(ps: Seq<PositionModel>, ms: Seq<Move>, n: nat) -> int
    decreases n,
{
    if n == 0 {
        0
    } else {
        delta_total(ps, ms, (n - 1) as nat) + incremental_delta(ps[n - 1], ms[n - 1])
    }
}

/// Along a line of moves, each played in the position the previous one left, the material and
/// positional score of every position is that of the first plus the incremental deltas of the
/// moves that led to it.
pub proof fn lemma_replay_deltas(ps: Seq<PositionModel>, ms: Seq<Move>, n: nat)
    requires
        ps.len() == ms.len() + 1,
        n <= ms.len(),
        ps[0].well_formed(),
        forall|k: int|
            0 <= k < ms.len() ==> {
                &&& is_plain_move(ps[k], #[trigger] ms[k])
                &&& ps[k + 1].squares == squares_after(ps[k], ms[k])
                &&& ps[k + 1].en_passant matches Some(e) ==> e < 64
            },
    ensures
        ps[n as int].well_formed(),
        material_score(ps[n as int].squares) == material_score(ps[0].squares) + delta_total(ps, ms, n),
    decreases n,
{
    if n > 0 {
        let k = n - 1;
        lemma_replay_deltas(ps, ms, k as nat);
        assert(is_plain_move(ps[k], ms[k]));
        lemma_move_delta(ps[k], ms[k]);
    }
}

} // verus!
