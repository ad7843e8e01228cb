use chess_search::eval::{
    advantaged_capture, assess_incremental, eval_all_pieces_positional, eval_overall_pawn_bonus,
    eval_pawn_extra, eval_piece, eval_piece_position,
};
use chess_search::rules::{legal_moves, make_move, move_text, read_fen};
use chess_search::tables::{
    attack_penalty_of, expand_square, get_black_king_attack_squares, get_white_king_attack_squares,
    init_king_mask,
};
use chess_search::types::{Move, PieceKind, Position, Side};

const START: &str = "rnbqkbnr/pppppppp/8/8/8/8/PPPPPPPP/RNBQKBNR w KQkq - 0 1";

fn play(p: &Position, text: &str) -> (Position, i32) {
    let m = legal_moves(p)
        .into_iter()
        .find(|m| move_text(*m) == text)
        .unwrap_or_else(|| panic!("{} is not legal", text));
    (make_move(p, m), assess_incremental(p, m))
}

#[test]
fn piece_terms_have_exact_values() {
    assert_eq!(eval_piece(PieceKind::Queen, 27, Side::White), 712);
    assert_eq!(eval_piece(PieceKind::Queen, 27, Side::Black), -716);
    assert_eq!(eval_piece_position(PieceKind::Pawn, 52, Side::Black), -7);
    assert_eq!(eval_piece_position(PieceKind::Pawn, 12, Side::White), 7);
    assert_eq!(eval_piece_position(PieceKind::King, 4, Side::White), 0);
    assert_eq!(eval_piece(PieceKind::King, 60, Side::Black), 0);
    assert_eq!(eval_piece(PieceKind::Rook, 0, Side::White), 500);
}

#[test]
fn start_position_scores_level() {
    let p = read_fen(START).unwrap();
    assert_eq!(eval_all_pieces_positional(&p), 0);
    assert_eq!(eval_overall_pawn_bonus(&p), 0);
}

#[test]
fn lone_pawns_score_material_and_progress() {
    let p = read_fen("4k3/8/8/8/8/8/4P3/4K3 w - - 0 1").unwrap();
    // pawn on e2: 100 + 7 * 1; the kings stand on their back ranks
    assert_eq!(eval_all_pieces_positional(&p), 107);
}

#[test]
fn pawn_chain_bonus_counts_defenders_behind() {
    let p = read_fen("4k3/8/8/8/3P4/2P1P3/8/4K3 w - - 0 1").unwrap();
    assert_eq!(eval_pawn_extra(27, Side::White, &p), 10);
    assert_eq!(eval_pawn_extra(18, Side::White, &p), 0);
    assert_eq!(eval_overall_pawn_bonus(&p), 10);
    let q = read_fen("4k3/8/2p1p3/3p4/8/8/8/4K3 b - - 0 1").unwrap();
    assert_eq!(eval_pawn_extra(35, Side::Black, &q), 10);
    assert_eq!(eval_overall_pawn_bonus(&q), -10);
}

#[test]
fn incremental_deltas_replay_to_the_full_score() {
    // castling, captures, en passant and a promotion along the way
    let line = [
        "e2e4", "d7d5", "e4d5", "d8d5", "g1f3", "d5e4", "f1e2", "e4e2", "d1e2", "c8g4", "e1g1",
        "b8c6", "d2d4", "e8c8", "d4d5", "e7e5", "d5e6", "g4f3", "e6f7", "f3e2", "f7g8q",
    ];
    let mut p = read_fen(START).unwrap();
    let mut running = eval_all_pieces_positional(&p);
    for text in line {
        let (next, delta) = play(&p, text);
        running += delta;
        p = next;
        assert_eq!(running, eval_all_pieces_positional(&p), "after {}", text);
    }
}

#[test]
fn capture_delta_removes_the_captured_piece() {
    let p = read_fen("q3k3/8/8/3p4/2Q5/8/8/4K3 b - - 0 1").unwrap();
    let m = Move { from: 35, to: 26, promotion: None };
    // pawn d5 -> c4 moves one rank forward for Black (-7) and takes a queen worth 712
    assert_eq!(assess_incremental(&p, m), -7 - 712);
    assert!(advantaged_capture(m, &p));
    let back = Move { from: 26, to: 35, promotion: None };
    let w = read_fen("q3k3/8/8/3p4/2Q5/8/8/4K3 w - - 0 1").unwrap();
    assert!(!advantaged_capture(back, &w));
}

#[test]
fn king_zones_match_known_masks() {
    assert_eq!(init_king_mask(0, Side::White), 0x0000000000030303);
    assert_eq!(init_king_mask(0, Side::Black), 0x0000000000000303);
    assert_eq!(init_king_mask(27, Side::White), 0x00001C1C1C1C0000);
    assert_eq!(init_king_mask(27, Side::Black), 0x0000001C1C1C1C00);
    assert_eq!(init_king_mask(63, Side::White), 0xC0C0000000000000);
    assert_eq!(init_king_mask(63, Side::Black), 0xC0C0C00000000000);
    let white = get_white_king_attack_squares();
    let black = get_black_king_attack_squares();
    assert_eq!(white.len(), 64);
    assert_eq!(white[7], 0x0000000000C0C0C0);
    assert_eq!(black[56], 0x0303030000000000);
}

#[test]
fn neighbours_stay_on_the_board() {
    let n = expand_square(0);
    assert_eq!(n, [Some(0), None, None, None, Some(1), Some(9), None, Some(8), None]);
    let m = expand_square(27);
    assert_eq!(m, [Some(27), Some(26), Some(34), Some(18), Some(28), Some(36), Some(20), Some(35), Some(19)]);
}

#[test]
fn attack_curve_saturates() {
    assert_eq!(attack_penalty_of(0), 0);
    assert_eq!(attack_penalty_of(5), 5);
    assert_eq!(attack_penalty_of(31), 150);
    assert_eq!(attack_penalty_of(99), 500);
    assert_eq!(attack_penalty_of(1000), 500);
}
