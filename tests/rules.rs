use chess_search::cache::TranspositionTable;
use chess_search::eval::{assess_incremental, eval_all_pieces_positional, get_attack_weight};
use chess_search::rules::{
    check_placement,
    in_check, legal_moves, make_move, move_text, null_move, read_fen, position_hash, status, GameStatus,
};
use chess_search::search::{add_scores, leaf_eval, start_search, BLACK_MATED, WHITE_MATED};
use chess_search::types::{Move, Occupant, PieceKind, Position, Side};

const START: &str = "rnbqkbnr/pppppppp/8/8/8/8/PPPPPPPP/RNBQKBNR w KQkq - 0 1";

fn minimax(p: &Position, plies: u16, lazy: i32) -> i32 {
    match status(p) {
        GameStatus::Checkmate => {
            return if p.side_to_move() == Side::White { WHITE_MATED } else { BLACK_MATED };
        }
        GameStatus::Stalemate => return 0,
        GameStatus::Ongoing => {}
    }
    if plies == 0 {
        return leaf_eval(p, lazy);
    }
    let values = legal_moves(p).into_iter().map(|m| {
        let child = make_move(p, m);
        minimax(&child, plies - 1, add_scores(lazy, assess_incremental(p, m)))
    });
    if p.side_to_move() == Side::White {
        values.max().unwrap()
    } else {
        values.min().unwrap()
    }
}

fn check_against_minimax(fen: &str, plies: u16) {
    let p = read_fen(fen).unwrap();
    let expected = minimax(&p, plies, eval_all_pieces_positional(&p));
    let mut t = TranspositionTable::new(1 << 16);
    let res = start_search(fen, plies, &mut t).unwrap();
    assert_eq!(res.value, expected, "{} at {} plies", fen, plies);
}

#[test]
fn one_ply_search_is_minimax() {
    check_against_minimax(START, 1);
    check_against_minimax("q3k3/8/8/3p4/2Q5/8/8/4K3 b - - 0 1", 1);
    check_against_minimax("r3k2r/8/8/8/8/8/8/R3K2R w KQkq - 0 1", 1);
}

#[test]
fn two_ply_search_is_minimax() {
    check_against_minimax(START, 2);
    check_against_minimax("q3k3/8/8/3p4/2Q5/8/8/4K3 b - - 0 1", 2);
    check_against_minimax("4k3/8/8/3pP3/8/8/8/4K3 w - d6 0 1", 2);
}

#[test]
fn fen_is_read_into_squares() {
    let p = read_fen(START).unwrap();
    assert_eq!(p.side_to_move(), Side::White);
    assert_eq!(p.piece_at(4), Some(Occupant { kind: PieceKind::King, side: Side::White }));
    assert_eq!(p.piece_at(59), Some(Occupant { kind: PieceKind::Queen, side: Side::Black }));
    assert_eq!(p.piece_at(35), None);
    assert_eq!(p.en_passant(), None);
    assert!(read_fen("rnbqkbnr/pppppppp/8/8/8/8/PPPPPPPP/RNBQKBNR w KQkq").is_none());
}

#[test]
fn moves_change_the_position() {
    let p = read_fen(START).unwrap();
    let m = Move { from: 12, to: 28, promotion: None };
    let q = make_move(&p, m);
    assert_eq!(q.side_to_move(), Side::Black);
    assert_eq!(q.piece_at(12), None);
    assert_eq!(q.piece_at(28), Some(Occupant { kind: PieceKind::Pawn, side: Side::White }));
    assert_ne!(position_hash(&p), position_hash(&q));
    assert_eq!(move_text(m), "e2e4");
    assert_eq!(move_text(Move { from: 52, to: 60, promotion: Some(PieceKind::Queen) }), "e7e8q");
}

#[test]
fn en_passant_square_is_the_passed_pawn() {
    let p = read_fen("4k3/8/8/3pP3/8/8/8/4K3 w - d6 0 1").unwrap();
    assert_eq!(p.en_passant(), Some(35));
    let names: Vec<String> = legal_moves(&p).into_iter().map(move_text).collect();
    assert!(names.contains(&"e5d6".to_string()));
}

#[test]
fn attacks_on_the_king_and_game_status_are_reported() {
    let checked = read_fen("4k3/8/8/8/8/8/8/R3K2r w - - 0 1").unwrap();
    assert!(in_check(&checked));
    assert!(null_move(&checked).is_none());
    assert_eq!(status(&checked), GameStatus::Ongoing);
    let quiet = read_fen(START).unwrap();
    assert!(!in_check(&quiet));
    let passed = null_move(&quiet).unwrap();
    assert_eq!(passed.side_to_move(), Side::Black);
    assert_eq!(legal_moves(&passed).len(), 20);
    let mated = read_fen("rnb1kbnr/pppp1ppp/8/4p3/6Pq/5P2/PPPPP2P/RNBQKBNR w KQkq - 1 3").unwrap();
    assert_eq!(status(&mated), GameStatus::Checkmate);
    assert!(legal_moves(&mated).is_empty());
    let stale = read_fen("k7/8/1Q6/8/8/8/8/7K b - - 0 1").unwrap();
    assert_eq!(status(&stale), GameStatus::Stalemate);
}

#[test]
fn three_ply_search_is_minimax() {
    check_against_minimax("4k3/8/8/3pP3/8/8/8/4K3 w - d6 0 1", 3);
    check_against_minimax("4k3/8/8/8/3Q4/8/8/4K3 b - - 0 1", 3);
}

#[test]
fn placement_without_both_kings_is_refused() {
    assert!(check_placement(START));
    assert!(!check_placement("8/8/8/8/8/8/8/8 w - - 0 1"));
    assert!(read_fen("8/8/8/8/8/8/8/8 w - - 0 1").is_none());
    assert!(!check_placement("4k3/8/8/8/8/8/8/8 w - - 0 1"));
    // a rank of nine squares would put a piece on top of the king
    assert!(!check_placement("K7p/8/8/8/8/8/8/7k w - - 0 1"));
    assert!(!check_placement("4k3/8/8/8/8/8/8 w - - 0 1"));
    assert!(!check_placement("4k3/8/8/8/8/8/8/4KX2 w - - 0 1"));
    let mut t = TranspositionTable::new(16);
    assert!(start_search("8/8/8/8/8/8/8/8 w - - 0 1", 2, &mut t).is_none());
}

#[test]
fn attack_weight_is_the_full_sum() {
    let quiet = read_fen(START).unwrap();
    assert_eq!(get_attack_weight(&quiet, &legal_moves(&quiet)), 0);
    // the queen on d4 reaches d7 and d8 in the black king's zone, five each
    let p = read_fen("4k3/8/8/8/3Q4/8/8/4K3 w - - 0 1").unwrap();
    assert_eq!(get_attack_weight(&p, &legal_moves(&p)), 10);
}
