//! The search engine: alpha-beta over the game tree, with a transposition table, phased move
//! ordering, extensions for captures and checks, and an incremental material baseline that is
//! refined into a full evaluation at the leaves.
use vstd::prelude::*;
use crate::cache::{table_get, table_probe, TranspositionTable};
use crate::eval::{
    advantaged_capture, assess_incremental, eval_all_pieces_positional, lazy_assess_board, leaf_terms,
    material_score,
};
use crate::order::order_moves;
use crate::rules::{
    after_move, hash_of, in_check, legal_moves, legal_moves_of, make_move, position_from_fen,
    position_hash, read_fen, status, status_of, GameStatus, placement_ok,
};
use crate::types::{Move, NodeType, Position, PositionModel, SearchResult, Side};

verus! {

/// The value of a position where White is mated: the negation of `BLACK_MATED`.
pub const WHITE_MATED: i32 = -i32::MAX;

/// The value of a position where Black is mated.
pub const BLACK_MATED: i32 = i32::MAX;

/// A score kept strictly inside the mate sentinels.
pub open spec fn clamp_score(x: int) -> int {
    if x > BLACK_MATED - 1 {
        BLACK_MATED - 1
    } else if x < WHITE_MATED + 1 {
        WHITE_MATED + 1
    } else {
        x
    }
}

/// The value of a mated position: the worst score for the side to move.
pub open spec fn mate_value(p: PositionModel) -> i32 {
    if p.white_to_move {
        WHITE_MATED
    } else {
        BLACK_MATED
    }
}

/// The value of a leaf reached with baseline `lazy`: the baseline refined by the leaf-only terms.
pub open spec fn leaf_value(p: PositionModel, lazy: int) -> int {
    clamp_score(lazy + leaf_terms(p))
}

/// Whether a node at these ply counts is a leaf.
pub open spec fn is_leaf(logical_ply: u16, true_ply: u16, ply_limit: u16) -> bool {
    logical_ply >= ply_limit || true_ply >= ply_limit
}

/// The sum of two scores, kept inside the mate sentinels.
pub fn add_scores(a: i32, b: i32) -> (r: i32)
    ensures
        r == clamp_score(a + b),
{
    let s = a as i64 + b as i64;
    if s > (BLACK_MATED - 1) as i64 {
        BLACK_MATED - 1
    } else if s < (WHITE_MATED + 1) as i64 {
        WHITE_MATED + 1
    } else {
        s as i32
    }
}

/// The full value of a leaf reached with baseline `lazy`.
pub fn leaf_eval(p: &Position, lazy: i32) -> (r: i32)
    requires
        p.well_formed(),
    ensures
        r == leaf_value(p@, lazy as int),
{
    let terms = lazy_assess_board(p);
    let s = lazy as i128 + terms;
    if s > (BLACK_MATED - 1) as i128 {
        BLACK_MATED - 1
    } else if s < (WHITE_MATED + 1) as i128 {
        WHITE_MATED + 1
    } else {
        s as i32
    }
}

/// The result of a node where the game is over: mate or stalemate.
pub open spec fn terminal_result(p: PositionModel) -> SearchResult {
    if status_of(p) == GameStatus::Checkmate {
        SearchResult {
            value: mate_value(p),
            lazy_value: mate_value(p),
            best_move: None,
            depth: 0,
            node_type: NodeType::Exact,
        }
    } else {
        SearchResult { value: 0, lazy_value: 0, best_move: None, depth: 0, node_type: NodeType::Exact }
    }
}

/// The value a zero-depth probe finds for move `m` from `p` reached with baseline `lazy`: the
/// game-over value of the position it leads to, or that position's leaf value with the baseline
/// moved by the move's incremental delta.
pub open spec fn child_value(p: PositionModel, m: Move, lazy: int) -> int {
    let q = after_move(p, m);
    if status_of(q) != GameStatus::Ongoing {
        terminal_result(q).value as int
    } else {
        leaf_value(q, clamp_score(lazy + crate::eval::incremental_delta(p, m)))
    }
}

/// A zero-depth probe of move `m`: the game-over value of the position it leads to, or that
/// position's leaf value with the baseline `lazy` moved by the move's incremental delta.
pub fn probe_move(p: &Position, m: Move, lazy: i32) -> (r: i32)
    requires
        p.well_formed(),
        legal_moves_of(p@).contains(m),
        m.from < 64,
        m.to < 64,
    ensures
        r == child_value(p@, m, lazy as int),
{
    let child = make_move(p, m);
    match status(&child) {
        GameStatus::Ongoing => leaf_eval(&child, add_scores(lazy, assess_incremental(p, m))),
        GameStatus::Stalemate => 0,
        GameStatus::Checkmate => match child.side_to_move() {
            Side::White => WHITE_MATED,
            Side::Black => BLACK_MATED,
        },
    }
}

/// The logical ply of the child that move `m` leads to: a capture that wins or trades material,
/// or a move that gives check, does not use up the budget.
pub open spec fn next_logical(p: PositionModel, m: Move, lg: int) -> int {
    if crate::eval::is_advantaged_capture(p, m) || crate::rules::in_check_of(after_move(p, m)) {
        lg
    } else {
        lg + 1
    }
}

/// The baseline of the child that move `m` leads to.
pub open spec fn child_lazy(p: PositionModel, m: Move, lazy: int) -> int {
    clamp_score(lazy + crate::eval::incremental_delta(p, m))
}

/// Exhaustive minimax with the search's own rules and no pruning and no table: the game-over
/// value, the leaf value once either ply count reaches the limit, and otherwise the best value
/// over the legal moves for the side to move.
pub open spec fn minimax(p: PositionModel, lg: int, tr: int, lim: int, lazy: int) -> int
    decreases lim - tr, 1int,
{
    if status_of(p) != GameStatus::Ongoing {
        terminal_result(p).value as int
    } else if lg >= lim || tr >= lim {
        leaf_value(p, lazy)
    } else {
        best_of(p, legal_moves_of(p), legal_moves_of(p).len() as int, lg, tr, lim, lazy)
    }
}

/// The minimax value of the child that move `m` leads to.
pub open spec fn child_minimax(p: PositionModel, m: Move, lg: int, tr: int, lim: int, lazy: int) -> int
    decreases lim - tr, 0int, 0int,
{
    if tr < lim {
        minimax(after_move(p, m), next_logical(p, m, lg), tr + 1, lim, child_lazy(p, m, lazy))
    } else {
        0
    }
}

/// The best child minimax value over the first `n` moves of `ms`, starting from the worst score
/// for the side to move.
pub open spec fn best_of(p: PositionModel, ms: Seq<Move>, n: int, lg: int, tr: int, lim: int, lazy: int) -> int
    decreases lim - tr, 0int, n,
{
    if n <= 0 || tr >= lim || n > ms.len() {
        if p.white_to_move {
            WHITE_MATED as int
        } else {
            BLACK_MATED as int
        }
    } else {
        let v = child_minimax(p, ms[n - 1], lg, tr, lim, lazy);
        let b = best_of(p, ms, n - 1, lg, tr, lim, lazy);
        if p.white_to_move {
            if v > b {
                v
            } else {
                b
            }
        } else {
            if v < b {
                v
            } else {
                b
            }
        }
    }
}

proof fn lemma_minimax_range(p: PositionModel, lg: int, tr: int, lim: int, lazy: int)
    ensures
        WHITE_MATED <= minimax(p, lg, tr, lim, lazy) <= BLACK_MATED,
    decreases lim - tr, 1int,
{
    if status_of(p) == GameStatus::Ongoing && !(lg >= lim || tr >= lim) {
        lemma_best_of(p, legal_moves_of(p), legal_moves_of(p).len() as int, lg, tr, lim, lazy);
    }
}

/// The best value over the first `n` moves is reached by one of them, and none does better.
proof fn lemma_best_of(p: PositionModel, ms: Seq<Move>, n: int, lg: int, tr: int, lim: int, lazy: int)
    requires
        n <= ms.len(),
    ensures
        WHITE_MATED <= best_of(p, ms, n, lg, tr, lim, lazy) <= BLACK_MATED,
        tr < lim ==> forall|k: int|
            0 <= k < n ==> if p.white_to_move {
                child_minimax(p, #[trigger] ms[k], lg, tr, lim, lazy) <= best_of(p, ms, n, lg, tr, lim, lazy)
            } else {
                child_minimax(p, #[trigger] ms[k], lg, tr, lim, lazy) >= best_of(p, ms, n, lg, tr, lim, lazy)
            },
        tr < lim && n > 0 ==> exists|k: int|
            0 <= k < n && child_minimax(p, #[trigger] ms[k], lg, tr, lim, lazy) == best_of(p, ms, n, lg, tr, lim, lazy),
    decreases lim - tr, 0int, n,
{
    if n > 0 && tr < lim {
        lemma_best_of(p, ms, n - 1, lg, tr, lim, lazy);
        lemma_minimax_range(after_move(p, ms[n - 1]), next_logical(p, ms[n - 1], lg), tr + 1, lim, child_lazy(p, ms[n - 1], lazy));
        let b = best_of(p, ms, n, lg, tr, lim, lazy);
        let v = child_minimax(p, ms[n - 1], lg, tr, lim, lazy);
        if v == b {
            assert(child_minimax(p, ms[n - 1], lg, tr, lim, lazy) == b);
        } else {
            let k = choose|k: int|
                0 <= k < n - 1 && child_minimax(p, #[trigger] ms[k], lg, tr, lim, lazy) == best_of(p, ms, n - 1, lg, tr, lim, lazy);
            assert(child_minimax(p, ms[k], lg, tr, lim, lazy) == b);
        }
    }
}

/// The minimax value of a node in play that is not a leaf: some legal move reaches it, and no
/// legal move does better for the side to move.
proof fn lemma_minimax_best(p: PositionModel, lg: int, tr: int, lim: int, lazy: int)
    requires
        status_of(p) == GameStatus::Ongoing,
        lg < lim && tr < lim,
    ensures
        forall|m: Move|
            #[trigger] legal_moves_of(p).contains(m) ==> if p.white_to_move {
                child_minimax(p, m, lg, tr, lim, lazy) <= minimax(p, lg, tr, lim, lazy)
            } else {
                child_minimax(p, m, lg, tr, lim, lazy) >= minimax(p, lg, tr, lim, lazy)
            },
        exists|m: Move|
            #[trigger] legal_moves_of(p).contains(m) && child_minimax(p, m, lg, tr, lim, lazy) == minimax(p, lg, tr, lim, lazy),
{
    let ms = legal_moves_of(p);
    lemma_best_of(p, ms, ms.len() as int, lg, tr, lim, lazy);
    assert forall|m: Move| #[trigger] legal_moves_of(p).contains(m) implies if p.white_to_move {
        child_minimax(p, m, lg, tr, lim, lazy) <= minimax(p, lg, tr, lim, lazy)
    } else {
        child_minimax(p, m, lg, tr, lim, lazy) >= minimax(p, lg, tr, lim, lazy)
    } by {
        let k = choose|k: int| 0 <= k < ms.len() && ms[k] == m;
    }
    let k = choose|k: int| 0 <= k < ms.len() && child_minimax(p, #[trigger] ms[k], lg, tr, lim, lazy) == minimax(p, lg, tr, lim, lazy);
    assert(ms.contains(ms[k]));
}

/// Whether `h` is the hash of a position the search of `p` visits: `p` itself, or one in the
/// tree below a legal move when `p` is expanded.
pub open spec fn in_tree(p: PositionModel, lg: int, tr: int, lim: int, h: u64) -> bool
    decreases lim - tr,
{
    hash_of(p) == h || (status_of(p) == GameStatus::Ongoing && lg < lim && tr < lim && exists|m: Move|
        #[trigger] legal_moves_of(p).contains(m) && in_tree(after_move(p, m), next_logical(p, m, lg), tr + 1, lim, h))
}

/// Whether, at every expanded node, the legal moves are distinct and the trees below distinct
/// legal moves share no hash.
pub open spec fn tree_apart(p: PositionModel, lg: int, tr: int, lim: int) -> bool
    decreases lim - tr,
{
    status_of(p) == GameStatus::Ongoing && lg < lim && tr < lim ==> {
        &&& legal_moves_of(p).no_duplicates()
        &&& forall|m1: Move, m2: Move, h: u64|
            #[trigger] legal_moves_of(p).contains(m1) && #[trigger] legal_moves_of(p).contains(m2) && m1 != m2
                && #[trigger] in_tree(after_move(p, m1), next_logical(p, m1, lg), tr + 1, lim, h) ==> !in_tree(
                after_move(p, m2),
                next_logical(p, m2, lg),
                tr + 1,
                lim,
                h,
            )
        &&& forall|m: Move|
            #[trigger] legal_moves_of(p).contains(m) ==> tree_apart(after_move(p, m), next_logical(p, m, lg), tr + 1, lim)
    }
}

/// Whether the table holds nothing for any position the search of `p` visits.
pub open spec fn tree_silent(t: Seq<(u64, crate::cache::CacheEntry)>, p: PositionModel, lg: int, tr: int, lim: int) -> bool {
    forall|h: u64| #[trigger] in_tree(p, lg, tr, lim, h) ==> table_get(t, h) is None
}

/// Whether `v`, found in the window `alpha`, `beta`, relates to the minimax value `mm` as
/// fail-soft alpha-beta promises: exact inside the window, an upper bound at or below alpha, a
/// lower bound at or above beta.
pub open spec fn fail_soft(v: int, alpha: int, beta: int, mm: int) -> bool {
    &&& alpha < v < beta ==> v == mm
    &&& v <= alpha ==> mm <= v
    &&& v >= beta ==> mm >= v
}

/// Whether every slot of `new` holds what it held in `old`, but for slots of hashes of positions
/// the search of `p` visits.
pub open spec fn kept_outside_tree(
    old: Seq<(u64, crate::cache::CacheEntry)>,
    new: Seq<(u64, crate::cache::CacheEntry)>,
    p: PositionModel,
    lg: int,
    tr: int,
    lim: int,
) -> bool {
    &&& new.len() == old.len()
    &&& forall|j: int|
        0 <= j < old.len() ==> #[trigger] new[j] == old[j] || exists|h: u64|
            #[trigger] in_tree(p, lg, tr, lim, h) && crate::cache::slot_index(h, old.len()) == j
}

/// Whether `h` is the hash of a position in the tree below one of the first `n` moves of `ms`.
pub open spec fn searched_below(p: PositionModel, ms: Seq<Move>, n: int, lg: int, tr: int, lim: int, h: u64) -> bool {
    exists|k: int|
        0 <= k < n && in_tree(after_move(p, #[trigger] ms[k]), next_logical(p, ms[k], lg), tr + 1, lim, h)
}

/// Whether the table answers a node by itself: it holds a result for the position searched with
/// enough plies left that is exact, or a bound that closes the window.
pub open spec fn table_answers(
    t: Seq<(u64, crate::cache::CacheEntry)>,
    p: PositionModel,
    plies_left: int,
    alpha: i32,
    beta: i32,
) -> bool {
    table_probe(t, hash_of(p), plies_left) matches Some(c) && (c.node_type == NodeType::Exact || (
    c.node_type == NodeType::LowerBound && (alpha >= beta || c.value >= beta)) || (c.node_type
        == NodeType::UpperBound && (alpha >= beta || c.value <= alpha)))
}

/// Searches position `p`. `logical_ply` counts the plies that use up the budget (captures that
/// win or trade material and moves that give check do not), `true_ply` counts every ply and
/// bounds the recursion, `ply_limit` is the budget, `lazy_eval` the running material and
/// positional baseline, and `alpha`, `beta` the window. The result is stored in `table` under
/// the position's hash, with the number of plies that were left, `ply_limit - true_ply`. A
/// stored result is exact when its value fell inside the window it was searched in, a lower
/// bound when it reached beta, and an upper bound when it stayed at or below alpha.
/// When the table holds nothing for the positions the search visits and the trees below
/// distinct moves share no hash, the value relates to exhaustive `minimax` as fail-soft
/// alpha-beta promises, and the table changes only in the slots of those positions.
pub fn search(
    p: &Position,
    logical_ply: u16,
    true_ply: u16,
    ply_limit: u16,
    lazy_eval: i32,
    alpha: i32,
    beta: i32,
    table: &mut TranspositionTable,
) -> (r: SearchResult)
    requires
        p.well_formed(),
        old(table).well_formed(),
        true_ply <= ply_limit,
    ensures
        final(table).well_formed(),
        status_of(p@) != GameStatus::Ongoing ==> r == terminal_result(p@),
        status_of(p@) == GameStatus::Ongoing && is_leaf(logical_ply, true_ply, ply_limit)
            && table_probe(old(table)@, hash_of(p@), ply_limit - true_ply) is None ==> r == (SearchResult {
            value: leaf_value(p@, lazy_eval as int) as i32,
            lazy_value: lazy_eval,
            best_move: None,
            depth: (ply_limit - true_ply) as u16,
            node_type: NodeType::Exact,
        }),
        r.best_move matches Some(m) ==> (legal_moves_of(p@).contains(m) || table_get(old(table)@, hash_of(p@))
            == Some(r)),
        crate::cache::result_on_board(r),
        status_of(p@) != GameStatus::Ongoing || is_leaf(logical_ply, true_ply, ply_limit) ==> final(table)@ == old(
            table,
        )@,
        final(table)@.len() == old(table)@.len(),
        kept_outside_tree(old(table)@, final(table)@, p@, logical_ply as int, true_ply as int, ply_limit as int),
        status_of(p@) == GameStatus::Ongoing && table_answers(old(table)@, p@, ply_limit - true_ply, alpha, beta)
            ==> Some(r) == table_probe(old(table)@, hash_of(p@), ply_limit - true_ply) && final(table)@ == old(
            table,
        )@,
        status_of(p@) == GameStatus::Ongoing && !is_leaf(logical_ply, true_ply, ply_limit) ==> r.best_move is Some,
        status_of(p@) == GameStatus::Ongoing && !is_leaf(logical_ply, true_ply, ply_limit) && !table_answers(
            old(table)@,
            p@,
            ply_limit - true_ply,
            alpha,
            beta,
        ) ==> exists|t: Seq<(u64, crate::cache::CacheEntry)>|
            t.len() == old(table)@.len() && final(table)@ == #[trigger] crate::cache::table_put(t, hash_of(p@), r),
        status_of(p@) == GameStatus::Ongoing && !is_leaf(logical_ply, true_ply, ply_limit) && table_probe(
            old(table)@,
            hash_of(p@),
            ply_limit - true_ply,
        ) is None ==> {
            &&& r.best_move matches Some(m) && legal_moves_of(p@).contains(m)
            &&& r.depth == ply_limit - true_ply
            &&& r.lazy_value == lazy_eval
            &&& r.node_type == NodeType::LowerBound ==> r.value >= beta
            &&& r.node_type == NodeType::UpperBound ==> r.value <= alpha
            &&& r.node_type == NodeType::Exact ==> alpha < r.value < beta
        },
        tree_silent(old(table)@, p@, logical_ply as int, true_ply as int, ply_limit as int) && tree_apart(
            p@,
            logical_ply as int,
            true_ply as int,
            ply_limit as int,
        ) && alpha < beta ==> {
            &&& fail_soft(
                r.value as int,
                alpha as int,
                beta as int,
                minimax(p@, logical_ply as int, true_ply as int, ply_limit as int, lazy_eval as int),
            )
            &&& forall|h: u64| #[trigger] table_get(final(table)@, h) is Some ==> table_get(old(table)@, h) is Some
                || in_tree(p@, logical_ply as int, true_ply as int, ply_limit as int, h)
        },
    decreases ply_limit - true_ply,
{
    match status(p) {
        GameStatus::Ongoing => {},
        GameStatus::Stalemate => {
            return SearchResult::new(0, 0, None, 0);
        },
        GameStatus::Checkmate => {
            return match p.side_to_move() {
                Side::White => SearchResult::new(WHITE_MATED, WHITE_MATED, None, 0),
                Side::Black => SearchResult::new(BLACK_MATED, BLACK_MATED, None, 0),
            };
        },
    }
    let h = position_hash(p);
    let remaining = ply_limit - true_ply;
    let ghost lg = logical_ply as int;
    let ghost tr = true_ply as int;
    let ghost lim = ply_limit as int;
    let ghost deep = tree_silent(table@, p@, lg, tr, lim) && tree_apart(p@, lg, tr, lim) && alpha < beta;
    let ghost before = table@;
    let ghost fresh = table_probe(table@, hash_of(p@), ply_limit - true_ply) is None;
    let ghost alpha0 = alpha;
    let ghost beta0 = beta;
    let mut alpha = alpha;
    let mut beta = beta;
    let cached = table.get(h);
    assert(deep ==> cached is None) by {
        if deep {
            assert(in_tree(p@, lg, tr, lim, hash_of(p@)));
        }
    }
    if let Some(c) = cached {
        if c.depth >= remaining {
            match c.node_type {
                NodeType::Exact => {
                    return c;
                },
                NodeType::LowerBound => {
                    if c.value > alpha {
                        alpha = c.value;
                    }
                },
                NodeType::UpperBound => {
                    if c.value < beta {
                        beta = c.value;
                    }
                },
            }
            if alpha >= beta {
                return c;
            }
        }
    }
    if logical_ply >= ply_limit || true_ply >= ply_limit {
        return SearchResult::new(leaf_eval(p, lazy_eval), lazy_eval, None, remaining);
    }
    let white = match p.side_to_move() {
        Side::White => true,
        Side::Black => false,
    };
    let mut result = SearchResult::new(
        if white {
            WHITE_MATED
        } else {
            BLACK_MATED
        },
        lazy_eval,
        None,
        remaining,
    );
    let hint = match cached {
        Some(c) => c.best_move,
        None => None,
    };
    let moves = legal_moves(p);
    let ghost legal = moves@;
    let ordered = order_moves(p, moves, hint, lazy_eval);
    proof {
        legal.to_multiset_ensures();
        ordered@.to_multiset_ensures();
        if deep {
            legal.lemma_multiset_has_no_duplicates();
            assert forall|x: Move| ordered@.to_multiset().contains(x) implies ordered@.to_multiset().count(x) == 1 by {
                assert(legal.to_multiset().contains(x));
            }
            ordered@.lemma_multiset_has_no_duplicates_conv();
        }
    }
    let alpha_start = alpha;
    let beta_start = beta;
    let mut cut = false;
    let mut i: usize = 0;
    while i < ordered.len() && !cut
        invariant
            p.well_formed(),
            table.well_formed(),
            true_ply < ply_limit,
            logical_ply < ply_limit,
            legal == legal_moves_of(p@),
            ordered@.to_multiset() == legal.to_multiset(),
            crate::rules::moves_on_board(ordered@),
            i <= ordered@.len(),
            result.best_move matches Some(m) ==> legal_moves_of(p@).contains(m),
            crate::cache::result_on_board(result),
            result.depth == ply_limit - true_ply,
            result.lazy_value == lazy_eval,
            i > 0 ==> result.best_move is Some,
            i == 0 ==> result.best_move is None && result.value == if white { WHITE_MATED } else { BLACK_MATED },
            white == p@.white_to_move,
            cut ==> i > 0,
            fresh ==> (white ==> beta == beta0) && (!white ==> alpha == alpha0),
            fresh ==> alpha_start == alpha0 && beta_start == beta0,
            white ==> alpha >= alpha_start && (i > 0 ==> alpha >= result.value) && beta == beta_start,
            !white ==> beta <= beta_start && (i > 0 ==> beta <= result.value) && alpha == alpha_start,
            table@.len() == before.len(),
            kept_outside_tree(before, table@, p@, logical_ply as int, true_ply as int, ply_limit as int),
            status_of(p@) == GameStatus::Ongoing,
            cut ==> if white {
                result.node_type == NodeType::LowerBound && result.value >= beta
            } else {
                result.node_type == NodeType::UpperBound && result.value <= alpha
            },
            !cut ==> result.node_type == NodeType::Exact,
            i > 0 && !cut ==> if white {
                result.value < beta
            } else {
                result.value > alpha
            },
            deep ==> {
                &&& tree_silent(before, p@, lg, tr, lim)
                &&& tree_apart(p@, lg, tr, lim)
                &&& alpha_start == alpha0 && beta_start == beta0 && alpha0 < beta0
                &&& lg == logical_ply && tr == true_ply && lim == ply_limit
                &&& ordered@.no_duplicates()
                &&& forall|h: u64| #[trigger] table_get(table@, h) is Some ==> table_get(before, h) is Some
                    || searched_below(p@, ordered@, i as int, lg, tr, lim, h)
                &&& (white ==> alpha == if i > 0 && result.value > alpha_start { result.value } else { alpha_start })
                &&& (!white ==> beta == if i > 0 && result.value < beta_start { result.value } else { beta_start })
                &&& (!cut ==> forall|k: int|
                    0 <= k < i ==> if white {
                        child_minimax(p@, #[trigger] ordered@[k], lg, tr, lim, lazy_eval as int) <= result.value
                    } else {
                        child_minimax(p@, #[trigger] ordered@[k], lg, tr, lim, lazy_eval as int) >= result.value
                    })
                &&& (cut ==> (result.best_move matches Some(b) && if white {
                    child_minimax(p@, b, lg, tr, lim, lazy_eval as int) >= result.value
                } else {
                    child_minimax(p@, b, lg, tr, lim, lazy_eval as int) <= result.value
                }))
                &&& (i > 0 && !cut && (if white { result.value > alpha_start } else { result.value < beta_start })
                    ==> (result.best_move matches Some(b) && child_minimax(p@, b, lg, tr, lim, lazy_eval as int)
                    == result.value))
            },
        decreases ordered@.len() - i,
    {
        let m = ordered[i];
        proof {
            assert(ordered@[i as int] == m);
            ordered@.to_multiset_ensures();
            legal.to_multiset_ensures();
            assert(ordered@.contains(m));
            assert(ordered@.to_multiset().count(m) > 0);
            assert(legal.contains(m));
        }
        let child = make_move(p, m);
        let child_logical = if advantaged_capture(m, p) || in_check(&child) {
            logical_ply
        } else {
            logical_ply + 1
        };
        let next_lazy = add_scores(lazy_eval, assess_incremental(p, m));
        let ghost table_before_child = table@;
        let ghost alpha_c = alpha;
        let ghost beta_c = beta;
        proof {
            if deep {
                let c = child@;
                let nl = next_logical(p@, m, lg);
                assert(child_logical == nl);
                assert(legal_moves_of(p@).contains(m));
                assert(tree_apart(c, nl, tr + 1, lim));
                assert forall|h: u64| #[trigger] in_tree(c, nl, tr + 1, lim, h) implies table_get(table@, h) is None by {
                    assert(in_tree(p@, lg, tr, lim, h));
                    if searched_below(p@, ordered@, i as int, lg, tr, lim, h) {
                        let k = choose|k: int|
                            0 <= k < i && in_tree(
                                after_move(p@, #[trigger] ordered@[k]),
                                next_logical(p@, ordered@[k], lg),
                                tr + 1,
                                lim,
                                h,
                            );
                        assert(ordered@[k] != m);
                        legal.to_multiset_ensures();
                        ordered@.to_multiset_ensures();
                        assert(ordered@.contains(ordered@[k]));
                        assert(ordered@.to_multiset().count(ordered@[k]) > 0);
                        assert(legal_moves_of(p@).contains(ordered@[k]));
                    }
                }
                assert(alpha < beta);
            }
        }
        let check = search(&child, child_logical, true_ply + 1, ply_limit, next_lazy, alpha, beta, table);
        proof {
            let nl = next_logical(p@, m, logical_ply as int);
            assert(child_logical == nl);
            assert(legal_moves_of(p@).contains(m));
            assert forall|j: int| 0 <= j < before.len() implies #[trigger] table@[j] == before[j] || exists|hh: u64|
                #[trigger] in_tree(p@, logical_ply as int, true_ply as int, ply_limit as int, hh)
                && crate::cache::slot_index(hh, before.len()) == j by {
                if table@[j] != table_before_child[j] {
                    let hh = choose|hh: u64|
                        #[trigger] in_tree(child@, nl, true_ply + 1, ply_limit as int, hh)
                        && crate::cache::slot_index(hh, before.len()) == j;
                    assert(in_tree(p@, logical_ply as int, true_ply as int, ply_limit as int, hh));
                }
            }
        }
        proof {
            if deep {
                let nl = next_logical(p@, m, lg);
                assert(child_minimax(p@, m, lg, tr, lim, lazy_eval as int) == minimax(child@, nl, tr + 1, lim, next_lazy as int));
                assert forall|h: u64| #[trigger] table_get(table@, h) is Some implies table_get(before, h) is Some
                    || searched_below(p@, ordered@, i + 1, lg, tr, lim, h) by {
                    if table_get(table_before_child, h) is None {
                        assert(in_tree(child@, nl, tr + 1, lim, h));
                        assert(ordered@[i as int] == m);
                    } else if searched_below(p@, ordered@, i as int, lg, tr, lim, h) {
                        let k = choose|k: int|
                            0 <= k < i && in_tree(
                                after_move(p@, #[trigger] ordered@[k]),
                                next_logical(p@, ordered@[k], lg),
                                tr + 1,
                                lim,
                                h,
                            );
                        assert(0 <= k < i + 1);
                    }
                }
            }
        }
        if white {
            if check.value > alpha {
                alpha = check.value;
            }
            if check.value > result.value || result.best_move.is_none() {
                result.value = check.value;
                result.best_move = Some(m);
            }
            if result.value >= beta {
                result.node_type = NodeType::LowerBound;
                cut = true;
            }
        } else {
            if check.value < beta {
                beta = check.value;
            }
            if check.value < result.value || result.best_move.is_none() {
                result.value = check.value;
                result.best_move = Some(m);
            }
            if result.value <= alpha {
                result.node_type = NodeType::UpperBound;
                cut = true;
            }
        }
        i = i + 1;
    }
    assert(ordered@.len() > 0) by {
        legal.to_multiset_ensures();
        ordered@.to_multiset_ensures();
    }
    proof {
        if deep {
            let mm = minimax(p@, lg, tr, lim, lazy_eval as int);
            lemma_minimax_best(p@, lg, tr, lim, lazy_eval as int);
            assert forall|m: Move| #[trigger] legal_moves_of(p@).contains(m) implies !cut ==> if white {
                child_minimax(p@, m, lg, tr, lim, lazy_eval as int) <= result.value
            } else {
                child_minimax(p@, m, lg, tr, lim, lazy_eval as int) >= result.value
            } by {
                legal.to_multiset_ensures();
                ordered@.to_multiset_ensures();
                assert(legal.contains(m));
                assert(legal.to_multiset().count(m) > 0);
                assert(ordered@.to_multiset().count(m) > 0);
                assert(ordered@.contains(m));
                let k = choose|k: int| 0 <= k < ordered@.len() && ordered@[k] == m;
                if !cut {
                    assert(k < i);
                }
            }
            let mw = choose|m: Move| #[trigger] legal_moves_of(p@).contains(m) && child_minimax(p@, m, lg, tr, lim, lazy_eval as int) == mm;
            assert(fail_soft(result.value as int, alpha0 as int, beta0 as int, mm));
        }
    }
    if !cut {
        if white && result.value <= alpha_start {
            result.node_type = NodeType::UpperBound;
        } else if !white && result.value >= beta_start {
            result.node_type = NodeType::LowerBound;
        }
    }
    let ghost stored_over = table@;
    table.put(h, result);
    assert(stored_over.len() == old(table)@.len());
    assert(table@ == crate::cache::table_put(stored_over, hash_of(p@), result));
    assert forall|j: int| 0 <= j < before.len() implies #[trigger] table@[j] == before[j] || exists|hh: u64|
        #[trigger] in_tree(p@, logical_ply as int, true_ply as int, ply_limit as int, hh)
        && crate::cache::slot_index(hh, before.len()) == j by {
        crate::cache::lemma_slot_in_range(hash_of(p@), stored_over.len());
        if table@[j] != stored_over[j] {
            assert(crate::cache::slot_index(hash_of(p@), before.len()) == j);
            assert(in_tree(p@, logical_ply as int, true_ply as int, ply_limit as int, hash_of(p@)));
        }
    }
    proof {
        if deep {
            assert forall|hh: u64| #[trigger] table_get(table@, hh) is Some implies table_get(before, hh) is Some
                || in_tree(p@, lg, tr, lim, hh) by {
                if hh != hash_of(p@) {
                    crate::cache::lemma_put_elsewhere(stored_over, hash_of(p@), result, hh);
                    if searched_below(p@, ordered@, i as int, lg, tr, lim, hh) {
                        let k = choose|k: int|
                            0 <= k < i && in_tree(
                                after_move(p@, #[trigger] ordered@[k]),
                                next_logical(p@, ordered@[k], lg),
                                tr + 1,
                                lim,
                                hh,
                            );
                        legal.to_multiset_ensures();
                        ordered@.to_multiset_ensures();
                        assert(ordered@.contains(ordered@[k]));
                        assert(ordered@.to_multiset().count(ordered@[k]) > 0);
                        assert(legal_moves_of(p@).contains(ordered@[k]));
                    }
                }
            }
        }
    }
    result
}

/// The static value of a position: its material and positional score refined by the leaf-only
/// terms.
pub open spec fn static_value(p: PositionModel) -> int {
    leaf_value(p, material_score(p.squares))
}

/// The static evaluator: what a search with no plies returns for a position in play.
pub fn evaluate_static(p: &Position) -> (r: i32)
    requires
        p.well_formed(),
    ensures
        r == static_value(p@),
{
    leaf_eval(p, eval_all_pieces_positional(p))
}

/// What a search from the root promises: the game-over results, the static value when no ply
/// is searched and the table knows nothing of the position, a best move that is legal unless it
/// came from the table, a best move whenever the game is on and a ply is searched, and the
/// exhaustive minimax value when the table holds nothing for the positions searched and the
/// trees below distinct moves share no hash.
pub open spec fn root_outcome(
    p: PositionModel,
    depth: u16,
    before: Seq<(u64, crate::cache::CacheEntry)>,
    r: SearchResult,
) -> bool {
    &&& status_of(p) != GameStatus::Ongoing ==> r == terminal_result(p)
    &&& status_of(p) == GameStatus::Ongoing && depth == 0 && table_probe(before, hash_of(p), 0) is None
        ==> r.value == static_value(p) && r.best_move is None
    &&& r.best_move matches Some(m) ==> (legal_moves_of(p).contains(m) || table_get(before, hash_of(p)) == Some(r))
    &&& crate::cache::result_on_board(r)
    &&& status_of(p) == GameStatus::Ongoing && depth >= 1 ==> r.best_move is Some
    &&& tree_silent(before, p, 0, 0, depth as int) && tree_apart(p, 0, 0, depth as int) ==> r.value == minimax(
        p,
        0,
        0,
        depth as int,
        material_score(p.squares),
    )
}

/// Searches a position to `depth` plies from the root, with the full window and the material
/// and positional score as the baseline.
pub fn search_position(p: &Position, depth: u16, table: &mut TranspositionTable) -> (r: SearchResult)
    requires
        p.well_formed(),
        old(table).well_formed(),
    ensures
        final(table).well_formed(),
        root_outcome(p@, depth, old(table)@, r),
{
    let lazy = eval_all_pieces_positional(p);
    let r = search(p, 0, 0, depth, lazy, WHITE_MATED, BLACK_MATED, table);
    proof {
        lemma_minimax_range(p@, 0, 0, depth as int, lazy as int);
    }
    r
}

/// Searches the position that a FEN text describes; nothing when the text describes none or
/// does not place a king of each side on a full board.
pub fn start_search(fen: &str, depth: u16, table: &mut TranspositionTable) -> (r: Option<SearchResult>)
    requires
        old(table).well_formed(),
    ensures
        final(table).well_formed(),
        r.is_some() == (placement_ok(fen@) && position_from_fen(fen@).is_some()),
        r matches Some(res) ==> root_outcome(position_from_fen(fen@)->0, depth, old(table)@, res),
{
    match read_fen(fen) {
        Some(p) => Some(search_position(&p, depth, table)),
        None => None,
    }
}

/// The text a shell prints for a search result: the best move in coordinate notation, or
/// `0000` when there is none.
pub open spec fn reply_text(r: SearchResult) -> Seq<char> {
    match r.best_move {
        Some(m) => crate::rules::move_text_of(m),
        None => seq!['0', '0', '0', '0'],
    }
}

/// The best move from the position that a FEN text describes, in coordinate notation, or
/// `0000` when the side to move has none; nothing when the text describes no position.
pub fn best_move_text(fen: &str, depth: u16, table: &mut TranspositionTable) -> (r: Option<String>)
    requires
        old(table).well_formed(),
    ensures
        final(table).well_formed(),
        r.is_some() == (placement_ok(fen@) && position_from_fen(fen@).is_some()),
        r matches Some(t) ==> exists|res: SearchResult|
            root_outcome(position_from_fen(fen@)->0, depth, old(table)@, res) && t@ == reply_text(res),
{
    match start_search(fen, depth, table) {
        Some(res) => {
            let t = match res.best_move {
                Some(m) => crate::rules::move_text(m),
                None => {
                    let z = "0000".to_owned();
                    proof {
                        reveal_strlit("0000");
                    }
                    assert(z@ =~= seq!['0', '0', '0', '0']);
                    z
                },
            };
            assert(t@ == reply_text(res));
            Some(t)
        },
        None => None,
    }
}

/// The value of a search of the position that a FEN text describes; nothing when the text
/// describes no position.
pub fn evaluate(fen: &str, depth: u16, table: &mut TranspositionTable) -> (r: Option<i32>)
    requires
        old(table).well_formed(),
    ensures
        final(table).well_formed(),
        r.is_some() == (placement_ok(fen@) && position_from_fen(fen@).is_some()),
        r matches Some(v) ==> exists|res: SearchResult|
            root_outcome(position_from_fen(fen@)->0, depth, old(table)@, res) && v == res.value,
{
    match start_search(fen, depth, table) {
        Some(res) => Some(res.value),
        None => None,
    }
}

} // verus!
