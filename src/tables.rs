//! Static configuration of the evaluator: piece valuations, the king-safety curve, and the king
//! danger zones.
use vstd::prelude::*;
use crate::types::{PieceKind, Side};

verus! {

/// Weight of the mobility term: centipawns per legal move.
pub const SIDE_SCALAR: i32 = 10;

/// Bonus for each pawn that stands diagonally behind a pawn of its own side.
pub const PAWN_SUPPORT_BONUS: i32 = 5;

/// Largest aggregate attack weight that the king-safety curve distinguishes.
pub const MAX_ATTACK_WEIGHT: usize = 99;

/// King-safety penalty by aggregate attack weight; it rises and then saturates at 500.
pub const ATTACK_WEIGHT_MAP: [i32; 100] = [
    0, 0, 1, 2, 3, 5, 7, 9, 12, 15, 18, 22, 26, 30, 35, 39, 44, 50, 56, 62, 68, 75, 82, 85, 89, 97,
    105, 113, 122, 131, 140, 150, 169, 180, 191, 202, 213, 225, 237, 248, 260, 272, 283, 295, 307,
    319, 330, 342, 354, 366, 377, 389, 401, 412, 424, 436, 448, 459, 471, 483, 494, 500, 500, 500,
    500, 500, 500, 500, 500, 500, 500, 500, 500, 500, 500, 500, 500, 500, 500, 500, 500, 500, 500,
    500, 500, 500, 500, 500, 500, 500, 500, 500, 500, 500, 500, 500, 500, 500, 500, 500,
];

pub open spec fn base_value(k: PieceKind) -> int {
    match k {
        PieceKind::Pawn => 100,
        PieceKind::Knight => 300,
        PieceKind::Bishop => 300,
        PieceKind::Rook => 500,
        PieceKind::Queen => 700,
        PieceKind::King => 0,
    }
}

pub open spec fn forward_scale(k: PieceKind) -> int {
    match k {
        PieceKind::Pawn => 7,
        PieceKind::Knight => 2,
        PieceKind::Bishop => 2,
        PieceKind::Rook => 3,
        PieceKind::Queen => 4,
        PieceKind::King => -10,
    }
}

pub open spec fn attack_weight(k: PieceKind) -> int {
    match k {
        PieceKind::Pawn => 2,
        PieceKind::Knight => 2,
        PieceKind::Bishop => 2,
        PieceKind::Rook => 3,
        PieceKind::Queen => 5,
        PieceKind::King => 0,
    }
}

/// The valuation of one piece kind: its material value, its centipawns per rank of forward
/// progress, and how much its moves into the enemy king's zone weigh.
#[derive(Clone, Copy, PartialEq, Eq, Debug, Structural)]
pub struct PieceValuePair {
    pub piece: PieceKind,
    pub value: i32,
    pub forward_scale: i32,
    pub attack_weight: i32,
}

/// The valuation of a piece kind.
pub fn piece_valuation(k: PieceKind) -> (r: PieceValuePair)
    ensures
        r.piece == k,
        r.value == base_value(k),
        r.forward_scale == forward_scale(k),
        r.attack_weight == attack_weight(k),
{
    match k {
        PieceKind::Pawn => PieceValuePair { piece: k, value: 100, forward_scale: 7, attack_weight: 2 },
        PieceKind::Knight => PieceValuePair { piece: k, value: 300, forward_scale: 2, attack_weight: 2 },
        PieceKind::Bishop => PieceValuePair { piece: k, value: 300, forward_scale: 2, attack_weight: 2 },
        PieceKind::Rook => PieceValuePair { piece: k, value: 500, forward_scale: 3, attack_weight: 3 },
        PieceKind::Queen => PieceValuePair { piece: k, value: 700, forward_scale: 4, attack_weight: 5 },
        PieceKind::King => PieceValuePair { piece: k, value: 0, forward_scale: -10, attack_weight: 0 },
    }
}

/// The material value of a piece kind.
pub fn piece_value(k: PieceKind) -> (r: i32)
    ensures
        r == base_value(k),
{
    piece_valuation(k).value
}

/// Centipawns per rank of forward progress.
pub fn piece_forward_scale(k: PieceKind) -> (r: i32)
    ensures
        r == forward_scale(k),
{
    piece_valuation(k).forward_scale
}

/// How much a move of this kind into the enemy king's zone weighs.
pub fn piece_attack_weight(k: PieceKind) -> (r: usize)
    ensures
        r == attack_weight(k),
{
    piece_valuation(k).attack_weight as usize
}

/// The king-safety penalty for an aggregate attack weight, saturating past the table's end.
pub open spec fn attack_penalty(w: int) -> int {
    if w > MAX_ATTACK_WEIGHT {
        ATTACK_WEIGHT_MAP[MAX_ATTACK_WEIGHT as int] as int
    } else {
        ATTACK_WEIGHT_MAP[w] as int
    }
}

pub fn attack_penalty_of(w: u128) -> (r: i32)
    ensures
        r == attack_penalty(w as int),
        0 <= r <= 500,
{
    let i: usize = if w > MAX_ATTACK_WEIGHT as u128 { MAX_ATTACK_WEIGHT } else { w as usize };
    ATTACK_WEIGHT_MAP[i]
}

/// Whether square `sq` lies in the danger zone of a king of side `side` standing on `king`:
/// the files beside the king's, from one rank behind it to two ranks ahead of it.
pub open spec fn in_king_zone(king: int, sq: int, side: Side) -> bool {
    let df = sq % 8 - king % 8;
    let dr = sq / 8 - king / 8;
    &&& -1 <= df <= 1
    &&& match side {
        Side::White => -1 <= dr <= 2,
        Side::Black => -2 <= dr <= 1,
    }
}

/// Whether bit `i` of `mask` is set.
pub open spec fn has_bit(mask: u64, i: int) -> bool {
    (mask >> (i as u64)) & 1 == 1
}

/// The mask of the zone: bit `sq` is set exactly for the squares of the zone.
pub open spec fn is_zone_mask(mask: u64, king: int, side: Side) -> bool {
    forall|sq: int| 0 <= sq < 64 ==> (#[trigger] has_bit(mask, sq) <==> in_king_zone(king, sq, side))
}

/// The square one step away by rank and file offsets, if it is on the board.
pub open spec fn step(sq: int, dr: int, df: int) -> Option<u8> {
    let r = sq / 8 + dr;
    let f = sq % 8 + df;
    if 0 <= r < 8 && 0 <= f < 8 {
        Some((8 * r + f) as u8)
    } else {
        None
    }
}

pub(crate) fn step_exec(sq: u8, dr: i8, df: i8) -> (r: Option<u8>)
    requires
        sq < 64,
        -2 <= dr <= 2,
        -2 <= df <= 2,
    ensures
        r == step(sq as int, dr as int, df as int),
{
    let r: i8 = (sq / 8) as i8 + dr;
    let f: i8 = (sq % 8) as i8 + df;
    if 0 <= r && r < 8 && 0 <= f && f < 8 {
        Some((8 * r + f) as u8)
    } else {
        None
    }
}

/// A square and its neighbours, each present where it lies on the board.
pub fn expand_square(sq: u8) -> (r: [Option<u8>; 9])
    requires
        sq < 64,
    ensures
        r@ == seq![
            Some(sq),
            step(sq as int, 0, -1),
            step(sq as int, 1, -1),
            step(sq as int, -1, -1),
            step(sq as int, 0, 1),
            step(sq as int, 1, 1),
            step(sq as int, -1, 1),
            step(sq as int, 1, 0),
            step(sq as int, -1, 0),
        ],
{
    let r = [
        Some(sq),
        step_exec(sq, 0, -1),
        step_exec(sq, 1, -1),
        step_exec(sq, -1, -1),
        step_exec(sq, 0, 1),
        step_exec(sq, 1, 1),
        step_exec(sq, -1, 1),
        step_exec(sq, 1, 0),
        step_exec(sq, -1, 0),
    ];
    assert(r@ =~= seq![
        Some(sq),
        step(sq as int, 0, -1),
        step(sq as int, 1, -1),
        step(sq as int, -1, -1),
        step(sq as int, 0, 1),
        step(sq as int, 1, 1),
        step(sq as int, -1, 1),
        step(sq as int, 1, 0),
        step(sq as int, -1, 0),
    ]);
    r
}

proof fn lemma_set_bit(m: u64, s: u64, i: u64)
    requires
        s < 64,
        i < 64,
    ensures
        ((m | (1u64 << s)) >> i) & 1 == 1 <==> (i == s || (m >> i) & 1 == 1),
{
    assert(((m | (1u64 << s)) >> i) & 1 == 1 <==> (i == s || (m >> i) & 1 == 1)) by (bit_vector)
        requires
            s < 64,
            i < 64,
    ;
}

proof fn lemma_no_bits(i: u64)
    requires
        i < 64,
    ensures
        (0u64 >> i) & 1 != 1,
{
    assert((0u64 >> i) & 1 != 1) by (bit_vector);
}

/// Whether `sq` is one of the squares listed in the first `n` entries of `cells`.
pub open spec fn listed(cells: Seq<Option<u8>>, n: int, sq: int) -> bool {
    exists|j: int| 0 <= j < n && #[trigger] cells[j] == Some(sq as u8)
}

/// Sets in `mask` the bit of each square listed in `cells`.
fn mark_squares(mask: u64, cells: &[Option<u8>; 9]) -> (r: u64)
    requires
        forall|j: int| 0 <= j < 9 ==> (#[trigger] cells@[j] matches Some(s) ==> s < 64),
    ensures
        forall|sq: int|
            0 <= sq < 64 ==> (#[trigger] has_bit(r, sq) <==> (has_bit(mask, sq) || listed(cells@, 9, sq))),
{
    let mut r = mask;
    let mut i: usize = 0;
    while i < 9
        invariant
            i <= 9,
            forall|j: int| 0 <= j < 9 ==> (#[trigger] cells@[j] matches Some(s) ==> s < 64),
            forall|sq: int|
                0 <= sq < 64 ==> (#[trigger] has_bit(r, sq) <==> (has_bit(mask, sq) || listed(cells@, i as int, sq))),
        decreases 9 - i,
    {
        if let Some(s) = cells[i] {
            assert(cells@[i as int] == Some(s));
            let ghost old_r = r;
            r = r | (1u64 << (s as u64));
            assert forall|sq: int| 0 <= sq < 64 implies (#[trigger] has_bit(r, sq) <==> (has_bit(mask, sq)
                || listed(cells@, i + 1, sq))) by {
                lemma_set_bit(old_r, s as u64, sq as u64);
                assert(has_bit(old_r, sq) <==> (has_bit(mask, sq) || listed(cells@, i as int, sq)));
                if listed(cells@, i + 1, sq) && !listed(cells@, i as int, sq) {
                    let j = choose|j: int| 0 <= j < i + 1 && #[trigger] cells@[j] == Some(sq as u8);
                    assert(j == i);
                    assert(cells@[i as int] == Some(s));
                    assert(sq == s as int);
                }
                if sq == s as int {
                    assert(cells@[i as int] == Some(sq as u8));
                }
                if listed(cells@, i as int, sq) {
                    let j = choose|j: int| 0 <= j < i && #[trigger] cells@[j] == Some(sq as u8);
                    assert(cells@[j] == Some(sq as u8));
                }
            }
        } else {
            assert forall|sq: int| 0 <= sq < 64 implies (#[trigger] has_bit(r, sq) <==> (has_bit(mask, sq)
                || listed(cells@, i + 1, sq))) by {
                if listed(cells@, i + 1, sq) && !listed(cells@, i as int, sq) {
                    let j = choose|j: int| 0 <= j < i + 1 && #[trigger] cells@[j] == Some(sq as u8);
                    assert(j == i);
                }
                if listed(cells@, i as int, sq) {
                    let j = choose|j: int| 0 <= j < i && #[trigger] cells@[j] == Some(sq as u8);
                    assert(cells@[j] == Some(sq as u8));
                }
            }
        }
        i = i + 1;
    }
    r
}

/// The entry of `expand_square` that holds the step by `dr` ranks and `df` files.
spec fn neighbour_slot(dr: int, df: int) -> int {
    if dr == 0 && df == 0 {
        0
    } else if dr == 0 && df == -1 {
        1
    } else if dr == 1 && df == -1 {
        2
    } else if dr == -1 && df == -1 {
        3
    } else if dr == 0 && df == 1 {
        4
    } else if dr == 1 && df == 1 {
        5
    } else if dr == -1 && df == 1 {
        6
    } else if dr == 1 {
        7
    } else {
        8
    }
}

spec fn neighbours(sq: int) -> Seq<Option<u8>> {
    seq![
        Some(sq as u8),
        step(sq, 0, -1),
        step(sq, 1, -1),
        step(sq, -1, -1),
        step(sq, 0, 1),
        step(sq, 1, 1),
        step(sq, -1, 1),
        step(sq, 1, 0),
        step(sq, -1, 0),
    ]
}

proof fn lemma_neighbours(k: int, sq: int)
    requires
        0 <= k < 64,
        0 <= sq < 64,
    ensures
        listed(neighbours(k), 9, sq) <==> (-1 <= sq / 8 - k / 8 <= 1 && -1 <= sq % 8 - k % 8 <= 1),
{
    let dr = sq / 8 - k / 8;
    let df = sq % 8 - k % 8;
    if -1 <= dr <= 1 && -1 <= df <= 1 {
        let j = neighbour_slot(dr, df);
        assert(neighbours(k)[j] == Some(sq as u8));
    }
    if listed(neighbours(k), 9, sq) {
        let j = choose|j: int| 0 <= j < 9 && #[trigger] neighbours(k)[j] == Some(sq as u8);
        assert(-1 <= dr <= 1 && -1 <= df <= 1);
    }
}

/// The zone is the squares around the king together with those around the square ahead of it.
proof fn lemma_zone_cover(k: int, side: Side, sq: int)
    requires
        0 <= k < 64,
        0 <= sq < 64,
    ensures
        ({
            let ahead = match side {
                Side::White => step(k, 1, 0),
                Side::Black => step(k, -1, 0),
            };
            in_king_zone(k, sq, side) <==> (listed(neighbours(k), 9, sq) || (ahead matches Some(a)
                && listed(neighbours(a as int), 9, sq)))
        }),
{
    let ahead = match side {
        Side::White => step(k, 1, 0),
        Side::Black => step(k, -1, 0),
    };
    lemma_neighbours(k, sq);
    if let Some(a) = ahead {
        lemma_neighbours(a as int, sq);
        assert(a as int % 8 == k % 8);
    }
}

/// The danger zone of a king of side `side` on square `index`: the squares around the king and
/// around the square ahead of it.
pub fn init_king_mask(index: u8, side: Side) -> (r: u64)
    requires
        index < 64,
    ensures
        is_zone_mask(r, index as int, side),
{
    let around = expand_square(index);
    proof {
        lemma_no_bits(0);
        assert(forall|sq: int| 0 <= sq < 64 ==> !#[trigger] has_bit(0u64, sq)) by {
            assert forall|sq: int| 0 <= sq < 64 implies !#[trigger] has_bit(0u64, sq) by {
                lemma_no_bits(sq as u64);
            }
        }
    }
    let mut mask = mark_squares(0, &around);
    let ahead = match side {
        Side::White => step_exec(index, 1, 0),
        Side::Black => step_exec(index, -1, 0),
    };
    let ghost k = index as int;
    assert(around@ == neighbours(k));
    if let Some(a) = ahead {
        let further = expand_square(a);
        assert(further@ == neighbours(a as int));
        mask = mark_squares(mask, &further);
    }
    assert forall|sq: int| 0 <= sq < 64 implies (#[trigger] has_bit(mask, sq) <==> in_king_zone(
        k,
        sq,
        side,
    )) by {
        lemma_zone_cover(k, side, sq);
    }
    mask
}

/// The danger zone of a king of side `side` on each of the 64 squares.
fn king_attack_squares(side: Side) -> (r: Vec<u64>)
    ensures
        r@.len() == 64,
        forall|k: int| 0 <= k < 64 ==> is_zone_mask(#[trigger] r@[k], k, side),
{
    let mut r: Vec<u64> = Vec::new();
    let mut k: u8 = 0;
    while k < 64
        invariant
            k <= 64,
            r@.len() == k,
            forall|j: int| 0 <= j < k ==> is_zone_mask(#[trigger] r@[j], j, side),
        decreases 64 - k,
    {
        r.push(init_king_mask(k, side));
        k = k + 1;
    }
    r
}

/// The danger zones of the white king, indexed by its square.
pub fn get_white_king_attack_squares() -> (r: Vec<u64>)
    ensures
        r@.len() == 64,
        forall|k: int| 0 <= k < 64 ==> is_zone_mask(#[trigger] r@[k], k, Side::White),
{
    king_attack_squares(Side::White)
}

/// The danger zones of the black king, indexed by its square.
pub fn get_black_king_attack_squares() -> (r: Vec<u64>)
    ensures
        r@.len() == 64,
        forall|k: int| 0 <= k < 64 ==> is_zone_mask(#[trigger] r@[k], k, Side::Black),
{
    king_attack_squares(Side::Black)
}

} // verus!
