//! The transposition table: search results keyed by position hash, kept in the `chess` crate's
//! `CacheTable`. Each hash has one slot; a slot holds the full hash of its entry, so a lookup
//! finds only an entry stored under the same hash. A result replaces the slot's entry only when
//! the slot is unused or the result was searched deeper.
use vstd::prelude::*;
use crate::types::{Move, NodeType, PieceKind, SearchResult};

verus! {

/// A stored result as plain integers: value, baseline, whether a move is present, its two
/// squares and promotion code, depth, and node-type code (`EMPTY_CODE` for an unused slot).
pub type CacheEntry = [i32; 8];

/// The node-type code of an unused slot.
pub const EMPTY_CODE: u8 = 3;

/// The entry every slot starts with.
pub const EMPTY_ENTRY: CacheEntry = [0, 0, 0, 0, 0, 0, 0, 3];

#[verifier::external_type_specification]
#[verifier::external_body]
#[verifier::reject_recursive_types(T)]
pub struct ExCacheTable<T: Copy + Clone + PartialEq + PartialOrd>(chess::CacheTable<T>);

/// The slots of a table, each with the hash stored in it and its entry.
pub uninterp spec fn cache_slots(t: chess::CacheTable<CacheEntry>) -> Seq<(u64, CacheEntry)>;

/// The slot of hash `h` in a table of `n` slots: the hash masked by `n - 1`.
pub open spec fn slot_index(h: u64, n: nat) -> int {
    (h & ((n - 1) as u64)) as int
}

/// Whether an entry may replace the one in its slot: the slot is unused, or the new entry was
/// searched with more plies left.
pub open spec fn replaces(old: CacheEntry, new: CacheEntry) -> bool {
    old[7] > 2 || old[6] < new[6]
}

/// Whether `n` is a power of two.
pub open spec fn is_power_of_two(n: usize) -> bool {
    n > 0 && n & ((n - 1) as usize) == 0
}

/// The slot of a hash lies in the table.
pub proof fn lemma_slot_in_range(h: u64, n: nat)
    requires
        0 < n <= u64::MAX,
    ensures
        0 <= slot_index(h, n) < n,
{
    let m = (n - 1) as u64;
    assert(h & m <= m) by (bit_vector);
}

/// Relies on `CacheTable::new`: `size` slots, each holding hash 0 and the given entry; it
/// panics unless `size` is a power of two.
#[verifier::external_body]
fn cache_new(size: usize) -> (r: chess::CacheTable<CacheEntry>)
    requires
        is_power_of_two(size),
    ensures
        cache_slots(r).len() == size,
        forall|i: int| 0 <= i < size ==> #[trigger] cache_slots(r)[i] == (0u64, EMPTY_ENTRY),
{
    chess::CacheTable::new(size, EMPTY_ENTRY)
}

/// Relies on `CacheTable::get`: the entry of the hash's slot, if that slot holds the same hash.
#[verifier::external_body]
fn cache_get(t: &chess::CacheTable<CacheEntry>, h: u64) -> (r: Option<CacheEntry>)
    requires
        cache_slots(*t).len() > 0,
    ensures
        ({
            let slot = cache_slots(*t)[slot_index(h, cache_slots(*t).len())];
            r == if slot.0 == h { Some(slot.1) } else { None }
        }),
{
    t.get(h)
}

/// Relies on `CacheTable::replace_if`: the hash's slot takes the hash and the entry when the
/// policy accepts the entry it holds; nothing else changes.
#[verifier::external_body]
fn cache_replace_if(t: &mut chess::CacheTable<CacheEntry>, h: u64, e: CacheEntry)
    requires
        cache_slots(*old(t)).len() > 0,
    ensures
        ({
            let slots = cache_slots(*old(t));
            let i = slot_index(h, slots.len());
            cache_slots(*final(t)) == if replaces(slots[i].1, e) {
                slots.update(i, (h, e))
            } else {
                slots
            }
        }),
{
    t.replace_if(h, e, |old_entry| keeps_new(old_entry, e))
}

/// The replacement policy.
fn keeps_new(old: CacheEntry, new: CacheEntry) -> (r: bool)
    ensures
        r == replaces(old, new),
{
    old[7] > 2 || old[6] < new[6]
}

pub open spec fn kind_code(k: Option<PieceKind>) -> u8 {
    match k {
        None => 0,
        Some(PieceKind::Pawn) => 1,
        Some(PieceKind::Knight) => 2,
        Some(PieceKind::Bishop) => 3,
        Some(PieceKind::Rook) => 4,
        Some(PieceKind::Queen) => 5,
        Some(PieceKind::King) => 6,
    }
}

pub open spec fn code_kind(c: i32) -> Option<PieceKind> {
    if c == 1 {
        Some(PieceKind::Pawn)
    } else if c == 2 {
        Some(PieceKind::Knight)
    } else if c == 3 {
        Some(PieceKind::Bishop)
    } else if c == 4 {
        Some(PieceKind::Rook)
    } else if c == 5 {
        Some(PieceKind::Queen)
    } else if c == 6 {
        Some(PieceKind::King)
    } else {
        None
    }
}

/// A result as a table entry.
pub open spec fn encode(n: SearchResult) -> CacheEntry {
    let (has, from, to, promo) = match n.best_move {
        Some(m) => (1u8, m.from, m.to, kind_code(m.promotion)),
        None => (0u8, 0u8, 0u8, 0u8),
    };
    let code: u8 = match n.node_type {
        NodeType::Exact => 0,
        NodeType::LowerBound => 1,
        NodeType::UpperBound => 2,
    };
    [n.value, n.lazy_value, has as i32, from as i32, to as i32, promo as i32, n.depth as i32, code as i32]
}

/// The result a table entry holds; an unused slot holds none.
pub open spec fn decode(e: CacheEntry) -> Option<SearchResult> {
    if e[7] > 2 {
        None
    } else {
        let best_move = if e[2] == 1 {
            Some(Move { from: e[3] as u8, to: e[4] as u8, promotion: code_kind(e[5]) })
        } else {
            None
        };
        let node_type = if e[7] == 0 {
            NodeType::Exact
        } else if e[7] == 1 {
            NodeType::LowerBound
        } else {
            NodeType::UpperBound
        };
        Some(SearchResult { value: e[0], lazy_value: e[1], best_move, depth: e[6] as u16, node_type })
    }
}

proof fn lemma_decode_encode(n: SearchResult)
    ensures
        decode(encode(n)) == Some(n),
{
    if let Some(m) = n.best_move {
        assert(code_kind(kind_code(m.promotion) as i32) == m.promotion);
    }
}

fn encode_result(n: SearchResult) -> (r: CacheEntry)
    ensures
        r == encode(n),
{
    let (has, from, to, promo): (u8, u8, u8, u8) = match n.best_move {
        Some(m) => {
            let promo: u8 = match m.promotion {
                None => 0,
                Some(PieceKind::Pawn) => 1,
                Some(PieceKind::Knight) => 2,
                Some(PieceKind::Bishop) => 3,
                Some(PieceKind::Rook) => 4,
                Some(PieceKind::Queen) => 5,
                Some(PieceKind::King) => 6,
            };
            (1, m.from, m.to, promo)
        },
        None => (0, 0, 0, 0),
    };
    let code: u8 = match n.node_type {
        NodeType::Exact => 0,
        NodeType::LowerBound => 1,
        NodeType::UpperBound => 2,
    };
    [n.value, n.lazy_value, has as i32, from as i32, to as i32, promo as i32, n.depth as i32, code as i32]
}

fn decode_entry(e: CacheEntry) -> (r: Option<SearchResult>)
    ensures
        r == decode(e),
{
    if e[7] > 2 {
        return None;
    }
    let best_move = if e[2] == 1 {
        let promotion = if e[5] == 1 {
            Some(PieceKind::Pawn)
        } else if e[5] == 2 {
            Some(PieceKind::Knight)
        } else if e[5] == 3 {
            Some(PieceKind::Bishop)
        } else if e[5] == 4 {
            Some(PieceKind::Rook)
        } else if e[5] == 5 {
            Some(PieceKind::Queen)
        } else if e[5] == 6 {
            Some(PieceKind::King)
        } else {
            None
        };
        Some(Move { from: e[3] as u8, to: e[4] as u8, promotion })
    } else {
        None
    };
    let node_type = if e[7] == 0 {
        NodeType::Exact
    } else if e[7] == 1 {
        NodeType::LowerBound
    } else {
        NodeType::UpperBound
    };
    Some(SearchResult { value: e[0], lazy_value: e[1], best_move, depth: e[6] as u16, node_type })
}

/// What a lookup of hash `h` finds in slots `s`.
pub open spec fn table_get(s: Seq<(u64, CacheEntry)>, h: u64) -> Option<SearchResult> {
    let slot = s[slot_index(h, s.len())];
    if slot.0 == h {
        decode(slot.1)
    } else {
        None
    }
}

/// A stored result for hash `h` that was searched with at least `depth` plies left.
pub open spec fn table_probe(s: Seq<(u64, CacheEntry)>, h: u64, depth: int) -> Option<SearchResult> {
    match table_get(s, h) {
        Some(n) => if n.depth >= depth {
            Some(n)
        } else {
            None
        },
        None => None,
    }
}

/// Whether storing `n` under `h` takes the slot.
pub open spec fn table_accepts(s: Seq<(u64, CacheEntry)>, h: u64, n: SearchResult) -> bool {
    replaces(s[slot_index(h, s.len())].1, encode(n))
}

/// The slots after storing `n` under hash `h`.
pub open spec fn table_put(s: Seq<(u64, CacheEntry)>, h: u64, n: SearchResult) -> Seq<(u64, CacheEntry)> {
    if table_accepts(s, h, n) {
        s.update(slot_index(h, s.len()), (h, encode(n)))
    } else {
        s
    }
}

/// A table of search results, owned by one search session and kept between searches.
pub struct TranspositionTable {
    table: chess::CacheTable<CacheEntry>,
}

impl View for TranspositionTable {
    type V = Seq<(u64, CacheEntry)>;

    closed spec fn view(&self) -> Seq<(u64, CacheEntry)> {
        cache_slots(self.table)
    }
}

/// Whether a stored entry holds a move, and that move names two squares of the board.
pub open spec fn entry_on_board(e: CacheEntry) -> bool {
    &&& e[7] <= 2 ==> e[2] == 1
    &&& e[2] == 1 ==> 0 <= e[3] < 64 && 0 <= e[4] < 64
}

/// Whether a result's move names two squares of the board.
pub open spec fn result_on_board(n: SearchResult) -> bool {
    n.best_move matches Some(m) ==> m.from < 64 && m.to < 64
}

impl TranspositionTable {
    /// At least one slot, and every stored result with a move on the board.
    pub open spec fn well_formed(&self) -> bool {
        &&& 0 < self@.len() <= usize::MAX
        &&& forall|i: int| 0 <= i < self@.len() ==> entry_on_board(#[trigger] self@[i].1)
    }

    /// An empty table of `size` slots.
    pub fn new(size: usize) -> (r: TranspositionTable)
        requires
            is_power_of_two(size),
        ensures
            r.well_formed(),
            r@.len() == size,
            forall|h: u64| #[trigger] table_get(r@, h) is None,
    {
        let table = cache_new(size);
        let r = TranspositionTable { table };
        assert forall|i: int| 0 <= i < r@.len() implies entry_on_board(#[trigger] r@[i].1) by {
            assert(r@[i] == (0u64, EMPTY_ENTRY));
        }
        assert forall|h: u64| #[trigger] table_get(r@, h) is None by {
            lemma_slot_in_range(h, size as nat);
        }
        r
    }

    /// The result stored under hash `h`, if any.
    pub fn get(&self, h: u64) -> (r: Option<SearchResult>)
        requires
            self.well_formed(),
        ensures
            r == table_get(self@, h),
            r matches Some(n) ==> result_on_board(n) && n.best_move is Some,
    {
        proof {
            lemma_slot_in_range(h, self@.len());
        }
        match cache_get(&self.table, h) {
            Some(e) => decode_entry(e),
            None => None,
        }
    }

    /// The result stored under hash `h`, if it was searched with at least `depth` plies left.
    pub fn probe(&self, h: u64, depth: u16) -> (r: Option<SearchResult>)
        requires
            self.well_formed(),
        ensures
            r == table_probe(self@, h, depth as int),
            r matches Some(n) ==> result_on_board(n) && n.best_move is Some,
    {
        match self.get(h) {
            Some(n) => if n.depth >= depth {
                Some(n)
            } else {
                None
            },
            None => None,
        }
    }

    /// Stores `n`, a result with a move, under hash `h` unless the slot holds an entry searched at
/// least as deep.
    pub fn put(&mut self, h: u64, n: SearchResult)
        requires
            old(self).well_formed(),
            result_on_board(n),
            n.best_move is Some,
        ensures
            final(self).well_formed(),
            final(self)@ == table_put(old(self)@, h, n),
            final(self)@.len() == old(self)@.len(),
    {
        proof {
            lemma_slot_in_range(h, self@.len());
        }
        let e = encode_result(n);
        cache_replace_if(&mut self.table, h, e);
        proof {
            let i = slot_index(h, old(self)@.len());
            assert forall|j: int| 0 <= j < self@.len() implies entry_on_board(#[trigger] self@[j].1) by {
                if j != i {
                    assert(self@[j] == old(self)@[j]);
                }
            }
        }
    }
}

/// Storing under one hash finds nothing new under any other.
pub proof fn lemma_put_elsewhere(s: Seq<(u64, CacheEntry)>, h: u64, n: SearchResult, other: u64)
    requires
        0 < s.len() <= u64::MAX,
        other != h,
    ensures
        table_get(table_put(s, h, n), other) is Some ==> table_get(s, other) is Some,
{
    lemma_slot_in_range(h, s.len());
    lemma_slot_in_range(other, s.len());
}

/// A result that the table took is found again, unchanged, by every lookup of its hash that
/// asks for no more plies than it was searched with.
pub proof fn lemma_store_then_probe(s: Seq<(u64, CacheEntry)>, h: u64, n: SearchResult, depth: int)
    requires
        0 < s.len() <= u64::MAX,
        table_accepts(s, h, n),
        depth <= n.depth,
    ensures
        table_get(table_put(s, h, n), h) == Some(n),
        table_probe(table_put(s, h, n), h, depth) == Some(n),
{
    lemma_slot_in_range(h, s.len());
    lemma_decode_encode(n);
}

} // verus!
