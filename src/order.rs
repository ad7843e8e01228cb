//! The move prioritizer: the move that the transposition table remembers for a position comes
//! first, then the captures that win or trade material against a piece, then every other move;
//! within the last two phases the moves are ranked best first by a zero-depth probe of the
//! position each leads to.
use vstd::prelude::*;
use crate::eval::{signed, advantaged_capture, is_advantaged_capture};
use crate::rules::{legal_moves_of, moves_on_board};
use crate::search::{child_value, probe_move};
use crate::types::{Move, PieceKind, Position, PositionModel, Side};

verus! {

broadcast use vstd::seq_lib::group_seq_properties;

/// How good a move looks to the side that makes it: a zero-depth probe of the position it leads
/// to, seeded from the baseline `lazy` moved by the move's incremental delta, counted for the
/// mover.
pub open spec fn move_key(p: PositionModel, m: Move, lazy: int) -> int {
    signed(p.side_to_move(), child_value(p, m, lazy))
}

/// Whether every move of `ms` is legal in `p`.
pub open spec fn all_legal(p: PositionModel, ms: Seq<Move>) -> bool {
    forall|j: int| 0 <= j < ms.len() ==> legal_moves_of(p).contains(#[trigger] ms[j])
}

proof fn lemma_legal_on_board(p: PositionModel, m: Move)
    requires
        moves_on_board(legal_moves_of(p)),
        legal_moves_of(p).contains(m),
    ensures
        m.from < 64 && m.to < 64,
{
    let i = choose|i: int| 0 <= i < legal_moves_of(p).len() && legal_moves_of(p)[i] == m;
    assert(legal_moves_of(p)[i].from < 64);
}

/// A capture of a piece other than a pawn by a piece worth no more than it.
pub open spec fn is_strong_capture(p: PositionModel, m: Move) -> bool {
    is_advantaged_capture(p, m) && (p.squares[m.to as int] matches Some(d) && d.kind != PieceKind::Pawn)
}

/// Whether the moves are ranked best first.
pub open spec fn ranked(p: PositionModel, lazy: int, ms: Seq<Move>) -> bool {
    forall|i: int, j: int| 0 <= i < j < ms.len() ==> move_key(p, #[trigger] ms[i], lazy) >= move_key(p, #[trigger] ms[j], lazy)
}

fn key_of(p: &Position, m: Move, lazy: i32) -> (r: i32)
    requires
        p.well_formed(),
        moves_on_board(legal_moves_of(p@)),
        legal_moves_of(p@).contains(m),
    ensures
        r == move_key(p@, m, lazy as int),
{
    proof {
        lemma_legal_on_board(p@, m);
    }
    let d = probe_move(p, m, lazy);
    match p.side_to_move() {
        Side::White => d,
        Side::Black => -d,
    }
}

/// The moves, best first by `move_key`; of equal moves the earlier one first.
pub fn rank_moves(p: &Position, ms: Vec<Move>, lazy: i32) -> (r: Vec<Move>)
    requires
        p.well_formed(),
        moves_on_board(legal_moves_of(p@)),
        all_legal(p@, ms@),
    ensures
        r@.to_multiset() == ms@.to_multiset(),
        ranked(p@, lazy as int, r@),
        all_legal(p@, r@),
{
    let mut pool = ms;
    let mut keys: Vec<i32> = Vec::new();
    let mut i: usize = 0;
    while i < pool.len()
        invariant
            p.well_formed(),
            moves_on_board(legal_moves_of(p@)),
            all_legal(p@, pool@),
            i <= pool@.len(),
            keys@.len() == i,
            forall|j: int| 0 <= j < i ==> #[trigger] keys@[j] == move_key(p@, pool@[j], lazy as int),
        decreases pool@.len() - i,
    {
        let m = pool[i];
        assert(pool@[i as int] == m);
        keys.push(key_of(p, m, lazy));
        i = i + 1;
    }
    let mut out: Vec<Move> = Vec::new();
    while pool.len() > 0
        invariant
            p.well_formed(),
            moves_on_board(legal_moves_of(p@)),
            all_legal(p@, pool@),
            all_legal(p@, out@),
            keys@.len() == pool@.len(),
            forall|j: int| 0 <= j < keys@.len() ==> #[trigger] keys@[j] == move_key(p@, pool@[j], lazy as int),
            out@.to_multiset().add(pool@.to_multiset()) == ms@.to_multiset(),
            ranked(p@, lazy as int, out@),
            forall|a: int, b: int|
                0 <= a < out@.len() && 0 <= b < pool@.len() ==> move_key(p@, #[trigger] out@[a], lazy as int) >= move_key(p@, #[trigger] pool@[b], lazy as int),
        decreases pool@.len(),
    {
        let mut best: usize = 0;
        let mut j: usize = 1;
        while j < keys.len()
            invariant
                keys@.len() == pool@.len(),
                0 <= best < j <= keys@.len(),
                forall|k: int| 0 <= k < j ==> keys@[best as int] >= #[trigger] keys@[k],
            decreases keys@.len() - j,
        {
            if keys[j] > keys[best] {
                best = j;
            }
            j = j + 1;
        }
        let ghost old_pool = pool@;
        let ghost old_out = out@;
        let ghost old_keys = keys@;
        assert(forall|k: int| 0 <= k < old_pool.len() ==> move_key(p@, old_pool[best as int], lazy as int) >= move_key(p@, #[trigger] old_pool[k], lazy as int)) by {
            assert forall|k: int| 0 <= k < old_pool.len() implies move_key(p@, old_pool[best as int], lazy as int) >= move_key(p@, #[trigger] old_pool[k], lazy as int) by {
                assert(old_keys[k] == move_key(p@, old_pool[k], lazy as int));
                assert(old_keys[best as int] == move_key(p@, old_pool[best as int], lazy as int));
            }
        }
        let m = pool.remove(best);
        keys.remove(best);
        out.push(m);
        proof {
            assert(m == old_pool[best as int]);
            old_pool.to_multiset_ensures();
            old_out.to_multiset_ensures();
            assert(pool@ == old_pool.remove(best as int));
            assert(out@ == old_out.push(m));
            assert(out@.to_multiset().add(pool@.to_multiset()) =~= old_out.to_multiset().add(
                old_pool.to_multiset(),
            ));
            assert forall|j: int| 0 <= j < keys@.len() implies #[trigger] keys@[j] == move_key(p@, pool@[j], lazy as int) by {
                if j < best {
                    assert(keys@[j] == old_keys[j]);
                    assert(pool@[j] == old_pool[j]);
                } else {
                    assert(keys@[j] == old_keys[j + 1]);
                    assert(pool@[j] == old_pool[j + 1]);
                }
            }
            assert forall|a: int, b: int|
                0 <= a < out@.len() && 0 <= b < pool@.len() implies move_key(p@, #[trigger] out@[a], lazy as int) >= move_key(p@, #[trigger] pool@[b], lazy as int) by {
                let ob = if b < best { b } else { b + 1 };
                assert(pool@[b] == old_pool[ob]);
                if a < old_out.len() {
                    assert(out@[a] == old_out[a]);
                } else {
                    assert(out@[a] == m);
                }
            }
            assert forall|a: int, b: int| 0 <= a < b < out@.len() implies move_key(p@, #[trigger] out@[a], lazy as int) >= move_key(p@, #[trigger] out@[b], lazy as int) by {
                if b < old_out.len() {
                    assert(out@[a] == old_out[a]);
                    assert(out@[b] == old_out[b]);
                } else {
                    assert(out@[a] == old_out[a]);
                    assert(out@[b] == m);
                }
            }
            assert forall|k: int| 0 <= k < pool@.len() implies legal_moves_of(p@).contains(#[trigger] pool@[k]) by {
                let ok = if k < best { k } else { k + 1 };
                assert(pool@[k] == old_pool[ok]);
            }
            assert forall|k: int| 0 <= k < out@.len() implies legal_moves_of(p@).contains(#[trigger] out@[k]) by {
                if k < old_out.len() {
                    assert(out@[k] == old_out[k]);
                }
            }
        }
    }
    proof {
        pool@.to_multiset_ensures();
        assert(out@.to_multiset() =~= out@.to_multiset().add(pool@.to_multiset()));
    }
    out
}

/// Whether the moves from index `start` on come in phases, strong captures first, each phase
/// ranked best first.
pub open spec fn phased(p: PositionModel, lazy: int, ms: Seq<Move>, start: int) -> bool {
    forall|i: int, j: int|
        start <= i < j < ms.len() ==> {
            &&& (is_strong_capture(p, #[trigger] ms[j]) ==> is_strong_capture(p, #[trigger] ms[i]))
            &&& (is_strong_capture(p, ms[i]) == is_strong_capture(p, ms[j]) ==> move_key(p, ms[i], lazy)
                >= move_key(p, ms[j], lazy))
        }
}

/// Whether the move is one of the strong captures.
pub fn strong_capture(p: &Position, m: Move) -> (r: bool)
    requires
        p.well_formed(),
        m.from < 64,
        m.to < 64,
    ensures
        r == is_strong_capture(p@, m),
{
    advantaged_capture(m, p) && match p.piece_at(m.to) {
        Some(d) => d.kind != PieceKind::Pawn,
        None => false,
    }
}

/// The candidates of a node in the order they are searched: the remembered move, if it is
/// among them; then the strong captures, then the other moves, each group best first.
pub fn order_moves(p: &Position, moves: Vec<Move>, hint: Option<Move>, lazy: i32) -> (r: Vec<Move>)
    requires
        p.well_formed(),
        moves_on_board(legal_moves_of(p@)),
        all_legal(p@, moves@),
    ensures
        r@.to_multiset() == moves@.to_multiset(),
        all_legal(p@, r@),
        moves_on_board(r@),
        hint matches Some(h) ==> (moves@.contains(h) ==> r@[0] == h),
        phased(p@, lazy as int, r@, if hint matches Some(h) && moves@.contains(h) { 1 } else { 0 }),
{
    let ghost all = moves@;
    let mut rest = moves;
    let mut out: Vec<Move> = Vec::new();
    if let Some(h) = hint {
        let mut k: usize = 0;
        while k < rest.len()
            invariant
                rest@ == all,
                k <= rest@.len(),
                forall|j: int| 0 <= j < k ==> rest@[j] != h,
            ensures
                k <= rest@.len(),
                k < rest@.len() ==> rest@[k as int] == h,
                forall|j: int| 0 <= j < k ==> rest@[j] != h,
            decreases rest@.len() - k,
        {
            if rest[k] == h {
                break;
            }
            k = k + 1;
        }
        if k < rest.len() {
            assert(all.contains(h));
            let m = rest.remove(k);
            out.push(m);
            proof {
                all.to_multiset_ensures();
                assert(rest@ == all.remove(k as int));
                assert(out@ =~= seq![h]);
                assert forall|j: int| 0 <= j < rest@.len() implies legal_moves_of(p@).contains(#[trigger] rest@[j]) by {
                    let oj = if j < k { j } else { j + 1 };
                    assert(rest@[j] == all[oj]);
                }
            }
        } else {
            assert(!all.contains(h));
        }
    }
    let ghost start = out@.len();
    assert(out@.to_multiset().add(rest@.to_multiset()) =~= all.to_multiset()) by {
        all.to_multiset_ensures();
        out@.to_multiset_ensures();
        if out@.len() == 0 {
            assert(out@ =~= Seq::<Move>::empty());
        }
    }
    assert(start == if hint matches Some(h) && all.contains(h) { 1int } else { 0int });
    let mut captures: Vec<Move> = Vec::new();
    let mut quiet: Vec<Move> = Vec::new();
    let mut i: usize = 0;
    while i < rest.len()
        invariant
            p.well_formed(),
            moves_on_board(legal_moves_of(p@)),
            all_legal(p@, rest@),
            i <= rest@.len(),
            captures@.to_multiset().add(quiet@.to_multiset()) == rest@.take(i as int).to_multiset(),
            forall|j: int| 0 <= j < captures@.len() ==> is_strong_capture(p@, #[trigger] captures@[j]),
            forall|j: int| 0 <= j < quiet@.len() ==> !is_strong_capture(p@, #[trigger] quiet@[j]),
            all_legal(p@, captures@),
            all_legal(p@, quiet@),
        decreases rest@.len() - i,
    {
        let m = rest[i];
        assert(rest@[i as int] == m);
        let ghost oc = captures@;
        let ghost oq = quiet@;
        if strong_capture(p, m) {
            captures.push(m);
        } else {
            quiet.push(m);
        }
        proof {
            oc.to_multiset_ensures();
            oq.to_multiset_ensures();
            rest@.take(i as int).to_multiset_ensures();
            assert(rest@.take(i + 1) == rest@.take(i as int).push(m));
            assert(captures@.to_multiset().add(quiet@.to_multiset()) =~= rest@.take(i + 1).to_multiset());
            assert forall|j: int| 0 <= j < captures@.len() implies legal_moves_of(p@).contains(#[trigger] captures@[j]) by {
                if j < oc.len() {
                    assert(captures@[j] == oc[j]);
                }
            }
            assert forall|j: int| 0 <= j < quiet@.len() implies legal_moves_of(p@).contains(#[trigger] quiet@[j]) by {
                if j < oq.len() {
                    assert(quiet@[j] == oq[j]);
                }
            }
        }
        i = i + 1;
    }
    assert(rest@.take(rest@.len() as int) == rest@);
    let ghost caps_in = captures@;
    let ghost quiet_in = quiet@;
    let mut ranked_captures = rank_moves(p, captures, lazy);
    let mut ranked_quiet = rank_moves(p, quiet, lazy);
    let ghost rc = ranked_captures@;
    let ghost rq = ranked_quiet@;
    let ghost prefix = out@;
    proof {
        caps_in.to_multiset_ensures();
        quiet_in.to_multiset_ensures();
        rc.to_multiset_ensures();
        rq.to_multiset_ensures();
        assert forall|j: int| 0 <= j < rc.len() implies is_strong_capture(p@, #[trigger] rc[j]) by {
            assert(rc.to_multiset().count(rc[j]) > 0);
            assert(caps_in.contains(rc[j]));
        }
        assert forall|j: int| 0 <= j < rq.len() implies !is_strong_capture(p@, #[trigger] rq[j]) by {
            assert(rq.to_multiset().count(rq[j]) > 0);
            assert(quiet_in.contains(rq[j]));
        }
    }
    out.append(&mut ranked_captures);
    out.append(&mut ranked_quiet);
    proof {
        assert(out@ == prefix + rc + rq);
        prefix.to_multiset_ensures();
        vstd::seq_lib::lemma_multiset_commutative(prefix, rc);
        vstd::seq_lib::lemma_multiset_commutative(prefix + rc, rq);
        assert(out@.to_multiset() =~= all.to_multiset());
        assert forall|j: int| 0 <= j < out@.len() implies legal_moves_of(p@).contains(#[trigger] out@[j]) by {
            if j < prefix.len() {
                assert(out@[j] == prefix[j]);
                assert(prefix[j] == hint->0);
                assert(all.contains(hint->0));
                all.to_multiset_ensures();
            } else if j < prefix.len() + rc.len() {
                assert(out@[j] == rc[j - prefix.len()]);
            } else {
                assert(out@[j] == rq[j - prefix.len() - rc.len()]);
            }
        }
        assert forall|a: int, b: int| start <= a < b < out@.len() implies {
            &&& (is_strong_capture(p@, #[trigger] out@[b]) ==> is_strong_capture(p@, #[trigger] out@[a]))
            &&& (is_strong_capture(p@, out@[a]) == is_strong_capture(p@, out@[b]) ==> move_key(p@, out@[a], lazy as int)
                >= move_key(p@, out@[b], lazy as int))
        } by {
            let n = prefix.len() + rc.len();
            if b < n {
                assert(out@[a] == rc[a - prefix.len()]);
                assert(out@[b] == rc[b - prefix.len()]);
            } else if a >= n {
                assert(out@[a] == rq[a - n]);
                assert(out@[b] == rq[b - n]);
            } else {
                assert(out@[a] == rc[a - prefix.len()]);
                assert(out@[b] == rq[b - n]);
            }
        }
    }
    assert forall|j: int| 0 <= j < out@.len() implies (#[trigger] out@[j]).from < 64 && out@[j].to < 64 by {
        lemma_legal_on_board(p@, out@[j]);
    }
    out
}

} // verus!
