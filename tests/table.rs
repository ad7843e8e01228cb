use chess_search::cache::TranspositionTable;
use chess_search::eval::eval_all_pieces_positional;
use chess_search::order::{order_moves, strong_capture};
use chess_search::rules::{legal_moves, read_fen};
use chess_search::types::{Move, NodeType, PieceKind, SearchResult};

fn node(value: i32, depth: u16) -> SearchResult {
    SearchResult {
        value,
        lazy_value: value - 3,
        best_move: Some(Move { from: 12, to: 28, promotion: None }),
        depth,
        node_type: NodeType::LowerBound,
    }
}

#[test]
fn stored_result_comes_back_unchanged() {
    let mut t = TranspositionTable::new(1024);
    let n = node(42, 3);
    t.put(0xDEAD_BEEF, n);
    assert_eq!(t.get(0xDEAD_BEEF), Some(n));
    assert_eq!(t.probe(0xDEAD_BEEF, 3), Some(n));
    assert_eq!(t.probe(0xDEAD_BEEF, 1), Some(n));
    assert_eq!(t.probe(0xDEAD_BEEF, 4), None);
}

#[test]
fn empty_table_finds_nothing() {
    let t = TranspositionTable::new(16);
    assert_eq!(t.get(0), None);
    assert_eq!(t.get(5), None);
}

#[test]
fn deeper_entry_is_kept() {
    let mut t = TranspositionTable::new(16);
    let deep = node(10, 5);
    t.put(7, deep);
    t.put(7, node(20, 2));
    assert_eq!(t.get(7), Some(deep));
    // a colliding hash (same slot) that is shallower does not evict it either
    t.put(7 + 16, node(30, 1));
    assert_eq!(t.get(7), Some(deep));
    assert_eq!(t.get(7 + 16), None);
    // an entry of equal depth does not replace it either
    t.put(7 + 16, node(40, 5));
    assert_eq!(t.get(7), Some(deep));
    // an entry searched deeper replaces it
    let deeper = SearchResult {
        best_move: Some(Move { from: 52, to: 60, promotion: Some(PieceKind::Queen) }),
        node_type: NodeType::Exact,
        ..node(-7, 6)
    };
    t.put(7 + 16, deeper);
    assert_eq!(t.get(7 + 16), Some(deeper));
    assert_eq!(t.get(7), None);
}

#[test]
fn unused_slot_takes_any_result() {
    let mut t = TranspositionTable::new(8);
    let n = SearchResult::new(-5, 9, Some(Move { from: 1, to: 18, promotion: None }), 0);
    t.put(3, n);
    assert_eq!(t.get(3), Some(n));
    assert_eq!(n.node_type, NodeType::Exact);
}

#[test]
fn ordering_puts_remembered_move_then_strong_captures_first() {
    // the knight on d4 can take the rook on e6 or the bishop on c6; the pawn on h2 may push
    let p = read_fen("4k3/8/2b1r3/8/3N4/8/7P/K7 w - - 0 1").unwrap();
    let moves = legal_moves(&p);
    let n = moves.len();
    let hint = Move { from: 15, to: 23, promotion: None };
    let lazy = eval_all_pieces_positional(&p);
    let ordered = order_moves(&p, moves, Some(hint), lazy);
    assert_eq!(ordered.len(), n);
    assert_eq!(ordered[0], hint);
    // both captures are strong; taking the rook probes better, so it comes first
    assert_eq!(ordered[1], Move { from: 27, to: 44, promotion: None });
    assert_eq!(ordered[2], Move { from: 27, to: 42, promotion: None });
    assert!(strong_capture(&p, ordered[1]));
    assert!(strong_capture(&p, ordered[2]));
    for m in &ordered[3..] {
        assert!(!strong_capture(&p, *m));
    }
}
