use chess_search::cache::TranspositionTable;
use chess_search::eval::eval_all_pieces_positional;
use chess_search::search::search;
use chess_search::types::NodeType;
use chess_search::rules::{legal_moves, read_fen};
use chess_search::search::{
    best_move_text, evaluate, evaluate_static, search_position, start_search, BLACK_MATED, WHITE_MATED,
};

const START: &str = "rnbqkbnr/pppppppp/8/8/8/8/PPPPPPPP/RNBQKBNR w KQkq - 0 1";

fn table() -> TranspositionTable {
    TranspositionTable::new(1 << 16)
}

#[test]
fn start_position_depth_one_picks_an_opening_move() {
    let mut t = table();
    let text = best_move_text(START, 1, &mut t).unwrap();
    let p = read_fen(START).unwrap();
    let moves = legal_moves(&p);
    assert_eq!(moves.len(), 20);
    let names: Vec<String> = moves.iter().map(|m| chess_search::rules::move_text(*m)).collect();
    assert!(names.contains(&text), "{} is not an opening move", text);
    let mut t2 = table();
    let value = evaluate(START, 1, &mut t2).unwrap();
    assert!(value.abs() <= 900, "value {}", value);
}

#[test]
fn black_pawn_takes_undefended_queen() {
    let fen = "q3k3/8/8/3p4/2Q5/8/8/4K3 b - - 0 1";
    for depth in 1..3u16 {
        let mut t = table();
        let res = start_search(fen, depth, &mut t).unwrap();
        let m = res.best_move.unwrap();
        assert_eq!(chess_search::rules::move_text(m), "d5c4");
        assert!(res.value <= -600, "value {}", res.value);
    }
}

#[test]
fn white_mated_gives_the_white_sentinel() {
    let fen = "rnb1kbnr/pppp1ppp/8/4p3/6Pq/5P2/PPPPP2P/RNBQKBNR w KQkq - 1 3";
    for depth in 0..3u16 {
        let mut t = table();
        let res = start_search(fen, depth, &mut t).unwrap();
        assert_eq!(res.value, WHITE_MATED);
        assert_eq!(res.best_move, None);
        let mut t2 = table();
        assert_eq!(best_move_text(fen, depth, &mut t2).unwrap(), "0000");
    }
}

#[test]
fn black_mated_gives_the_black_sentinel() {
    let fen = "k7/1Q6/1K6/8/8/8/8/8 b - - 0 1";
    let mut t = table();
    let res = start_search(fen, 2, &mut t).unwrap();
    assert_eq!(res.value, BLACK_MATED);
    assert_eq!(res.best_move, None);
}

#[test]
fn stalemate_is_zero_without_a_move() {
    let fen = "k7/8/1Q6/8/8/8/8/7K b - - 0 1";
    for depth in 0..3u16 {
        let mut t = table();
        let res = start_search(fen, depth, &mut t).unwrap();
        assert_eq!(res.value, 0);
        assert_eq!(res.best_move, None);
        let mut t2 = table();
        assert_eq!(best_move_text(fen, depth, &mut t2).unwrap(), "0000");
    }
}

#[test]
fn depth_zero_is_the_static_value() {
    for fen in [START, "q3k3/8/8/3p4/2Q5/8/8/4K3 b - - 0 1", "4k3/8/8/8/8/8/4P3/4K3 w - - 0 1"] {
        let p = read_fen(fen).unwrap();
        let mut t = table();
        let res = search_position(&p, 0, &mut t);
        assert_eq!(res.value, evaluate_static(&p));
        assert_eq!(res.best_move, None);
    }
}

#[test]
fn mate_in_one_is_found() {
    let fen = "k7/8/1K6/8/8/8/7Q/8 w - - 0 1";
    let mut t = table();
    let res = start_search(fen, 1, &mut t).unwrap();
    assert_eq!(res.value, BLACK_MATED);
    let p = read_fen(fen).unwrap();
    let after = chess_search::rules::make_move(&p, res.best_move.unwrap());
    assert_eq!(chess_search::rules::status(&after), chess_search::rules::GameStatus::Checkmate);
}

#[test]
fn malformed_fen_gives_nothing() {
    let mut t = table();
    assert!(start_search("not a position", 2, &mut t).is_none());
    assert!(best_move_text("not a position", 2, &mut t).is_none());
    assert!(evaluate("", 2, &mut t).is_none());
}

#[test]
fn table_is_kept_between_searches() {
    let mut t = table();
    let first = start_search(START, 2, &mut t).unwrap();
    let again = start_search(START, 2, &mut t).unwrap();
    assert_eq!(first.value, again.value);
    let p = read_fen(START).unwrap();
    let stored = t.get(chess_search::rules::position_hash(&p)).unwrap();
    assert_eq!(stored.depth, 2);
}

#[test]
fn narrow_window_gives_a_bound() {
    let p = read_fen(START).unwrap();
    let lazy = eval_all_pieces_positional(&p);
    let mut t = table();
    let low = search(&p, 0, 0, 1, lazy, WHITE_MATED, -1000, &mut t);
    assert_eq!(low.node_type, NodeType::LowerBound);
    assert!(low.value >= -1000);
    let mut t2 = table();
    let full = search(&p, 0, 0, 1, lazy, WHITE_MATED, BLACK_MATED, &mut t2);
    assert_eq!(full.node_type, NodeType::Exact);
    assert!(full.value >= low.value);
}

#[test]
fn mate_sentinels_are_symmetric() {
    assert_eq!(WHITE_MATED, -BLACK_MATED);
    let white_mated = "rnb1kbnr/pppp1ppp/8/4p3/6Pq/5P2/PPPPP2P/RNBQKBNR w KQkq - 1 3";
    let black_mated = "k7/1Q6/1K6/8/8/8/8/8 b - - 0 1";
    let mut t = table();
    let w = start_search(white_mated, 1, &mut t).unwrap();
    let b = start_search(black_mated, 1, &mut t).unwrap();
    assert_eq!(w.value, -b.value);
}

#[test]
fn exact_entry_answers_the_search() {
    let p = read_fen(START).unwrap();
    let mut t = table();
    let first = search_position(&p, 2, &mut t);
    assert_eq!(first.node_type, NodeType::Exact);
    let again = search_position(&p, 1, &mut t);
    assert_eq!(again, first);
}
