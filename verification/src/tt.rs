use vstd::prelude::*;
use std::sync::atomic::{AtomicU64, Ordering};
use crate::types::{Move, MOVE_NONE};

verus! {

// ─── TT Entry ───────────────────────────────────────────────────

/// A stored search result.
#[derive(Clone, Copy)]
pub struct TTEntry {
    pub hash: u64,
    pub depth: i8,
    pub score: i32,
    pub flag: TTFlag,
    pub best_move: Move,
}

/// Exact score, upper bound (failed low) or lower bound (failed high).
#[derive(Clone, Copy, PartialEq, Eq, Debug, Structural)]
pub enum TTFlag {
    Exact,
    Alpha,
    Beta,
}

/// The empty entry: hash 0, depth -1, score 0, exact, no move.
pub open spec fn empty_entry() -> TTEntry {
    TTEntry { hash: 0, depth: -1i8, score: 0, flag: TTFlag::Exact, best_move: MOVE_NONE }
}

impl Default for TTEntry {
    fn default() -> (e: Self)
        ensures
            e == empty_entry(),
    {
        TTEntry { hash: 0, depth: -1, score: 0, flag: TTFlag::Exact, best_move: MOVE_NONE }
    }
}

// ─── TTAccess Trait ──────────────────────────────────────────────

/// Common interface of the single-threaded and the shared table.
pub trait TTAccess {
    spec fn tt_wf(&self) -> bool;

    fn tt_probe(&self, hash: u64) -> Option<TTEntry>
        requires
            self.tt_wf(),
    ;

    fn tt_store(&mut self, hash: u64, depth: i8, score: i32, flag: TTFlag, best_move: Move)
        requires
            old(self).tt_wf(),
        ensures
            final(self).tt_wf(),
    ;

    fn tt_clear(&mut self)
        requires
            old(self).tt_wf(),
        ensures
            final(self).tt_wf(),
    ;
}

// ─── Single-thread table ────────────────────────────────────────

/// The smallest power of two at least `n`.
pub open spec fn is_pow2(p: int) -> bool
    decreases p,
{
    if p <= 0 {
        false
    } else if p == 1 {
        true
    } else {
        p % 2 == 0 && is_pow2(p / 2)
    }
}

/// Smallest power of two that is at least `n`.
fn next_power_of_two(n: usize) -> (p: usize)
    requires
        n <= usize::MAX / 4,
    ensures
        is_pow2(p as int),
        p >= n,
        p == 1 || p / 2 < n,
{
    let mut p: usize = 1;
    while p < n
        invariant
            is_pow2(p as int),
            p == 1 || p / 2 < n,
            n <= usize::MAX / 4,
            p <= 2 * n || p == 1,
            p >= 1,
        decreases (if p < n { n - p } else { 0 }),
    {
        p = p * 2;
    }
    p
}

/// Size in bytes of a table entry (`core::mem::size_of::<TTEntry>()`); the
/// contract claims only that it is the layout size and at least 18, the sum of
/// the sizes of the entry's fields (u64, i8, i32, a one-byte flag, u32).
#[verifier::external_body]
fn entry_size() -> (n: usize)
    ensures
        n as nat == vstd::layout::size_of::<TTEntry>(),
        n >= 18,
{
    core::mem::size_of::<TTEntry>()
}

/// Hash table of search results, one entry per slot, `mask + 1` slots.
pub struct TranspositionTable {
    pub entries: Vec<TTEntry>,
    pub mask: usize,
}

/// Slot of a hash.
pub open spec fn slot_of(hash: u64, mask: usize) -> int {
    ((hash as usize) & mask) as int
}

fn slot(hash: u64, mask: usize) -> (i: usize)
    ensures
        i == slot_of(hash, mask),
        i <= mask,
{
    let h = hash as usize;
    assert((h & mask) <= mask) by (bit_vector);
    h & mask
}

impl TranspositionTable {
    pub open spec fn wf(&self) -> bool {
        self.entries@.len() == self.mask + 1
    }

    /// Every stored score lies within [-b, b].
    pub open spec fn scores_within(&self, b: int) -> bool {
        forall|i: int| 0 <= i < self.entries@.len() ==> -b <= #[trigger] self.entries@[i].score <= b
    }

    /// A table of about `size_mb` megabytes, all entries empty.
    pub fn new(size_mb: usize) -> (t: Self)
        requires
            size_mb * 1024 * 1024 <= usize::MAX,
        ensures
            t.wf(),
            t.entries@.len() >= 1024,
            is_pow2(t.entries@.len() as int),
            ({
                let n = (size_mb * 1024 * 1024) as int / vstd::layout::size_of::<TTEntry>() as int;
                &&& t.entries@.len() > 1024 ==> t.entries@.len() < n <= 2 * t.entries@.len()
                &&& t.entries@.len() == 1024 ==> n <= 2048
            }),
            t.entries@.len() > 1024 ==> t.entries@.len() * vstd::layout::size_of::<TTEntry>() <= size_mb
                * 1024 * 1024,
            forall|i: int| 0 <= i < t.entries@.len() ==> #[trigger] t.entries@[i] == empty_entry(),
    {
        let entry_size = entry_size();
        let num_entries = (size_mb * 1024 * 1024) / entry_size;
        let x = size_mb * 1024 * 1024;
        assert(num_entries <= usize::MAX / 4) by (nonlinear_arith)
            requires
                num_entries == x / entry_size,
                entry_size >= 18,
                x <= usize::MAX,
        ;
        let p = next_power_of_two(num_entries);
        let half = p >> 1;
        assert(half == p / 2) by (bit_vector)
            requires
                half == p >> 1,
        ;
        let actual = if half > 1024 { half } else { 1024 };
        proof {
            if half > 1024 {
                assert(is_pow2(half as int));
                assert(actual * entry_size <= x) by (nonlinear_arith)
                    requires
                        actual < num_entries,
                        num_entries == x / entry_size,
                        entry_size >= 18,
                ;
            } else {
                reveal_with_fuel(is_pow2, 12);
                assert(is_pow2(1024));
            }
        }
        let mut entries: Vec<TTEntry> = Vec::new();
        let mut i: usize = 0;
        while i < actual
            invariant
                i <= actual,
                entries@.len() == i,
                forall|k: int| 0 <= k < i ==> #[trigger] entries@[k] == empty_entry(),
            decreases actual - i,
        {
            entries.push(TTEntry::default());
            i += 1;
        }
        TranspositionTable { entries, mask: actual - 1 }
    }
}

/// Probing finds the slot's entry when it carries this hash and a depth of 0 or more.
pub open spec fn spec_probe(entries: Seq<TTEntry>, mask: usize, hash: u64) -> Option<TTEntry> {
    let e = entries[slot_of(hash, mask)];
    if e.hash == hash && e.depth >= 0 { Some(e) } else { None }
}

/// Storing replaces the slot's entry when it holds another hash or a depth not above the new one.
pub open spec fn spec_store(entries: Seq<TTEntry>, mask: usize, hash: u64, depth: i8, score: i32, flag: TTFlag, best_move: Move) -> Seq<TTEntry> {
    let i = slot_of(hash, mask);
    let e = entries[i];
    if e.hash != hash || depth >= e.depth {
        entries.update(i, TTEntry { hash, depth, score, flag, best_move })
    } else {
        entries
    }
}

impl TTAccess for TranspositionTable {
    open spec fn tt_wf(&self) -> bool {
        self.wf()
    }

    fn tt_probe(&self, hash: u64) -> (r: Option<TTEntry>)
        ensures
            r == spec_probe(self.entries@, self.mask, hash),
    {
        let idx = slot(hash, self.mask);
        let entry = self.entries[idx];
        if entry.hash == hash && entry.depth >= 0 {
            Some(entry)
        } else {
            None
        }
    }

    fn tt_store(&mut self, hash: u64, depth: i8, score: i32, flag: TTFlag, best_move: Move)
        ensures
            final(self).entries@ == spec_store(old(self).entries@, old(self).mask, hash, depth, score, flag, best_move),
            final(self).mask == old(self).mask,
            forall|b: int| old(self).scores_within(b) && -b <= score <= b ==> #[trigger] final(self).scores_within(b),
    {
        let idx = slot(hash, self.mask);
        let entry = self.entries[idx];
        if entry.hash != hash || depth >= entry.depth {
            self.entries.set(idx, TTEntry { hash, depth, score, flag, best_move });
        }
    }

    fn tt_clear(&mut self)
        ensures
            final(self).mask == old(self).mask,
            final(self).entries@.len() == old(self).entries@.len(),
            forall|i: int| 0 <= i < final(self).entries@.len() ==> #[trigger] final(self).entries@[i] == empty_entry(),
    {
        let mut i: usize = 0;
        while i < self.entries.len()
            invariant
                i <= self.entries@.len(),
                self.entries@.len() == old(self).entries@.len(),
                self.mask == old(self).mask,
                forall|k: int| 0 <= k < i ==> #[trigger] self.entries@[k] == empty_entry(),
            decreases self.entries@.len() - i,
        {
            self.entries.set(i, TTEntry::default());
            i += 1;
        }
    }
}

/// A probe right after a store of the same hash (with a depth of 0 or more)
/// finds an entry for that hash: the stored one, unless the slot already held
/// this hash at a greater depth, which is then kept.
pub proof fn lemma_probe_after_store(
    entries: Seq<TTEntry>,
    mask: usize,
    hash: u64,
    depth: i8,
    score: i32,
    flag: TTFlag,
    best_move: Move,
)
    requires
        entries.len() == mask + 1,
        depth >= 0,
    ensures
        ({
            let old_e = entries[slot_of(hash, mask)];
            spec_probe(spec_store(entries, mask, hash, depth, score, flag, best_move), mask, hash)
                == if old_e.hash == hash && depth < old_e.depth {
                Some(old_e)
            } else {
                Some(TTEntry { hash, depth, score, flag, best_move })
            }
        }),
{
    let h = hash as usize;
    assert((h & mask) <= mask) by (bit_vector);
}


/// After the table is cleared no hash is found, whatever it held before.
pub proof fn lemma_probe_after_clear(entries: Seq<TTEntry>, mask: usize, hash: u64)
    requires
        entries.len() == mask + 1,
        forall|i: int| 0 <= i < entries.len() ==> #[trigger] entries[i] == empty_entry(),
    ensures
        spec_probe(entries, mask, hash) is None,
{
    let h = hash as usize;
    assert((h & mask) <= mask) by (bit_vector);
    assert(entries[slot_of(hash, mask)] == empty_entry());
}

// ─── Shared table (atomic slots, for parallel search) ───────────

/// Offset that makes scores non-negative in the 22-bit score field.
pub const SCORE_OFFSET: i32 = 2_097_152;

/// Code of a flag in the packed form.
pub open spec fn flag_code(f: TTFlag) -> u64 {
    match f {
        TTFlag::Exact => 0,
        TTFlag::Alpha => 1,
        TTFlag::Beta => 2,
    }
}

/// Packed entry: depth (8 bits) | flag (2) | score + 2^21 (22) | best move (32).
pub open spec fn spec_pack(depth: i8, score: i32, flag: TTFlag, best_move: Move) -> u64 {
    let d = (depth as u8) as u64;
    let f = flag_code(flag);
    let s = ((score + SCORE_OFFSET) as u64) & 0x3F_FFFF;
    let m = (best_move as u64) & 0xFFFF_FFFF;
    (d << 56u64) | (f << 54u64) | (s << 32u64) | m
}

/// Fields of a packed entry.
pub open spec fn spec_unpack(data: u64) -> (i8, i32, TTFlag, Move) {
    let depth = (data >> 56u64) as i8;
    let fc = (data >> 54u64) & 3;
    let flag = if fc == 0 { TTFlag::Exact } else if fc == 1 { TTFlag::Alpha } else { TTFlag::Beta };
    let score = ((data >> 32u64) & 0x3F_FFFF) as i32 - SCORE_OFFSET;
    let best_move = (data & 0xFFFF_FFFF) as u32;
    (depth, score as i32, flag, best_move)
}

fn flag_bits(flag: TTFlag) -> (f: u64)
    ensures
        f == flag_code(flag),
{
    match flag {
        TTFlag::Exact => 0,
        TTFlag::Alpha => 1,
        TTFlag::Beta => 2,
    }
}

/// Packs an entry's fields into one word.
fn pack_data(depth: i8, score: i32, flag: TTFlag, best_move: Move) -> (data: u64)
    ensures
        data == spec_pack(depth, score, flag, best_move),
{
    let d = (depth as u8) as u64;
    let f0 = flag_bits(flag);
    proof {
        lemma_low_bits(f0);
    }
    let f = f0 & 0x3;
    let s = ((score as i64 + SCORE_OFFSET as i64) as u64) & 0x3F_FFFF;
    let m = (best_move as u64) & 0xFFFF_FFFF;
    (d << 56) | (f << 54) | (s << 32) | m
}

/// Unpacks a word into an entry's fields.
fn unpack_data(data: u64) -> (r: (i8, i32, TTFlag, Move))
    ensures
        r == spec_unpack(data),
{
    let depth = (data >> 56) as i8;
    let fc = (data >> 54) & 0x3;
    let flag = if fc == 0 {
        TTFlag::Exact
    } else if fc == 1 {
        TTFlag::Alpha
    } else {
        TTFlag::Beta
    };
    let sbits = (data >> 32) & 0x3F_FFFF;
    assert(sbits <= 0x3F_FFFF) by (bit_vector)
        requires
            sbits == (data >> 32) & 0x3F_FFFF,
    ;
    let score = sbits as i32 - SCORE_OFFSET;
    let best_move = (data & 0xFFFF_FFFF) as u32;
    (depth, score, flag, best_move)
}

proof fn lemma_low_bits(f: u64)
    requires
        f < 3,
    ensures
        f & 3 == f,
{
    assert(f < 3 ==> f & 3 == f) by (bit_vector);
}

proof fn lemma_pack_bits(d: u64, f: u64, sv: u64, m: u64)
    requires
        d < 256,
        f < 3,
        sv < 0x40_0000,
        m < 0x1_0000_0000,
    ensures
        sv & 0x3F_FFFF == sv,
        m & 0xFFFF_FFFF == m,
        ((d << 56u64) | (f << 54u64) | (sv << 32u64) | m) >> 56u64 == d,
        (((d << 56u64) | (f << 54u64) | (sv << 32u64) | m) >> 54u64) & 3 == f,
        (((d << 56u64) | (f << 54u64) | (sv << 32u64) | m) >> 32u64) & 0x3F_FFFF == sv,
        ((d << 56u64) | (f << 54u64) | (sv << 32u64) | m) & 0xFFFF_FFFF == m,
{
    assert(d < 256 && f < 3 && sv < 0x40_0000 && m < 0x1_0000_0000 ==> (sv & 0x3F_FFFF == sv
        && m & 0xFFFF_FFFF == m && ((d << 56u64) | (f << 54u64) | (sv << 32u64) | m) >> 56u64 == d
        && (((d << 56u64) | (f << 54u64) | (sv << 32u64) | m) >> 54u64) & 3 == f
        && (((d << 56u64) | (f << 54u64) | (sv << 32u64) | m) >> 32u64) & 0x3F_FFFF == sv
        && ((d << 56u64) | (f << 54u64) | (sv << 32u64) | m) & 0xFFFF_FFFF == m)) by (bit_vector);
}

/// Unpacking a packed entry gives its fields back, for scores in [-2^21, 2^21).
pub proof fn lemma_unpack_pack(depth: i8, score: i32, flag: TTFlag, best_move: Move)
    requires
        -SCORE_OFFSET <= score < SCORE_OFFSET,
    ensures
        spec_unpack(spec_pack(depth, score, flag, best_move)) == (depth, score, flag, best_move),
{
    let d = (depth as u8) as u64;
    let f = flag_code(flag);
    let sv = (score + SCORE_OFFSET) as u64;
    let m = best_move as u64;
    let data = spec_pack(depth, score, flag, best_move);
    assert(sv < 0x40_0000);
    assert(f < 3);
    lemma_pack_bits(d, f, sv, m);
    assert(((depth as u8) as u64) as i8 == depth) by (bit_vector);
    assert(((best_move as u64) & 0xFFFF_FFFF) as u32 == best_move) by (bit_vector);
}

/// Transposition table with atomic slots that several search threads may share:
/// keys and packed data in separate words, `mask + 1` slots.
pub struct SharedTT {
    pub keys: Vec<AtomicU64>,
    pub data: Vec<AtomicU64>,
    pub mask: usize,
}

/// Number of slots for a shared table of `size_mb` megabytes (16 bytes a slot).
fn shared_slots(size_mb: usize) -> (n: usize)
    requires
        size_mb * 1024 * 1024 <= usize::MAX,
    ensures
        n >= 1024,
{
    let entry_size: usize = 16;
    let num_entries = (size_mb * 1024 * 1024) / entry_size;
    let p = next_power_of_two(num_entries);
    let half = p >> 1;
    if half > 1024 { half } else { 1024 }
}

impl SharedTT {
    pub open spec fn wf(&self) -> bool {
        &&& self.keys@.len() == self.mask + 1
        &&& self.data@.len() == self.mask + 1
    }

    /// A table of about `size_mb` megabytes, all words zero.
    pub fn new(size_mb: usize) -> (t: Self)
        requires
            size_mb * 1024 * 1024 <= usize::MAX,
        ensures
            t.wf(),
            t.keys@.len() >= 1024,
    {
        let actual = shared_slots(size_mb);
        let mut keys: Vec<AtomicU64> = Vec::new();
        let mut data: Vec<AtomicU64> = Vec::new();
        let mut i: usize = 0;
        while i < actual
            invariant
                i <= actual,
                keys@.len() == i,
                data@.len() == i,
            decreases actual - i,
        {
            keys.push(AtomicU64::new(0));
            data.push(AtomicU64::new(0));
            i += 1;
        }
        SharedTT { keys, data, mask: actual - 1 }
    }
}

/// The data word a store writes into a slot whose key word read `key` and,
/// when that key is `hash`, whose data word read `data`: the packed entry when
/// the slot holds another key or an entry not deeper than the new one, nothing
/// otherwise (the deeper entry for the same position is kept).
pub fn shared_store_word(key: u64, data: u64, hash: u64, depth: i8, score: i32, flag: TTFlag, best_move: Move) -> (r: Option<u64>)
    ensures
        r == (if key != hash || depth >= spec_unpack(data).0 {
            Some(spec_pack(depth, score, flag, best_move))
        } else {
            None
        }),
{
    if key != hash {
        return Some(pack_data(depth, score, flag, best_move));
    }
    let (existing_depth, _, _, _) = unpack_data(data);
    if depth >= existing_depth {
        Some(pack_data(depth, score, flag, best_move))
    } else {
        None
    }
}

/// What a probe of `hash` reports for a slot whose key word read `key` and
/// whose data word read `data`.
pub open spec fn spec_shared_probe(key: u64, data: u64, hash: u64) -> Option<TTEntry> {
    if key == hash && spec_unpack(data).0 >= 0 {
        Some(TTEntry {
            hash,
            depth: spec_unpack(data).0,
            score: spec_unpack(data).1,
            flag: spec_unpack(data).2,
            best_move: spec_unpack(data).3,
        })
    } else {
        None
    }
}

/// The entry a probe of `hash` reports for the key and data words it read:
/// one only when the key word is the probed hash.
pub fn shared_probe_entry(key: u64, data: u64, hash: u64) -> (r: Option<TTEntry>)
    ensures
        r == spec_shared_probe(key, data, hash),
        r matches Some(e) ==> key == hash && e.hash == hash,
{
    if key == hash {
        shared_entry(hash, data)
    } else {
        None
    }
}

/// A probe finds only the position whose key is in the slot. After a store of
/// `hash` wrote its key word and its packed data word, a probe of `hash` reads
/// back the stored depth, score, flag and move, and a probe of any other hash
/// that shares the slot finds nothing.
pub proof fn lemma_shared_probe_after_store(hash: u64, other: u64, depth: i8, score: i32, flag: TTFlag, best_move: Move)
    requires
        0 <= depth,
        -SCORE_OFFSET <= score < SCORE_OFFSET,
        other != hash,
    ensures
        spec_shared_probe(hash, spec_pack(depth, score, flag, best_move), hash) == Some(
            TTEntry { hash, depth, score, flag, best_move },
        ),
        spec_shared_probe(hash, spec_pack(depth, score, flag, best_move), other) is None,
        forall|key: u64, data: u64| #[trigger] spec_shared_probe(key, data, other) is Some ==> key == other,
{
    lemma_unpack_pack(depth, score, flag, best_move);
}

/// The entry a probe reports for a key that matched and a data word that was read.
fn shared_entry(hash: u64, d: u64) -> (r: Option<TTEntry>)
    ensures
        r == (if spec_unpack(d).0 >= 0 {
            Some(TTEntry { hash, depth: spec_unpack(d).0, score: spec_unpack(d).1, flag: spec_unpack(d).2, best_move: spec_unpack(d).3 })
        } else {
            None
        }),
{
    let (depth, score, flag, best_move) = unpack_data(d);
    if depth >= 0 {
        Some(TTEntry { hash, depth, score, flag, best_move })
    } else {
        None
    }
}

impl TTAccess for SharedTT {
    open spec fn tt_wf(&self) -> bool {
        self.wf()
    }

    /// What other threads store concurrently is not known here: a probe reports
    /// an entry for this hash decoded from some data word, or nothing.
    fn tt_probe(&self, hash: u64) -> (r: Option<TTEntry>)
        ensures
            r matches Some(e) ==> e.hash == hash && e.depth >= 0 && exists|d: u64|
                (e.depth, e.score, e.flag, e.best_move) == #[trigger] spec_unpack(d),
    {
        let idx = slot(hash, self.mask);
        let key = self.keys[idx].load(Ordering::Relaxed);
        let d = if key == hash {
            self.data[idx].load(Ordering::Relaxed)
        } else {
            0
        };
        let r = shared_probe_entry(key, d, hash);
        assert(r matches Some(e) ==> (e.depth, e.score, e.flag, e.best_move) == spec_unpack(d));
        r
    }

    /// Replaces the slot when it holds another key or a depth not above the
    /// new one (as read at that moment). Scores outside [-2^21, 2^21) are
    /// wrapped into the 22-bit field.
    fn tt_store(&mut self, hash: u64, depth: i8, score: i32, flag: TTFlag, best_move: Move)
        ensures
            final(self).mask == old(self).mask,
    {
        let idx = slot(hash, self.mask);
        let existing_key = self.keys[idx].load(Ordering::Relaxed);
        let existing_data = if existing_key == hash {
            self.data[idx].load(Ordering::Relaxed)
        } else {
            0
        };
        if let Some(packed) = shared_store_word(existing_key, existing_data, hash, depth, score, flag, best_move) {
            self.keys[idx].store(hash, Ordering::Relaxed);
            self.data[idx].store(packed, Ordering::Relaxed);
        }
    }

    fn tt_clear(&mut self)
        ensures
            final(self).mask == old(self).mask,
    {
        let mut i: usize = 0;
        while i < self.keys.len()
            invariant
                self.wf(),
                self.mask == old(self).mask,
                i <= self.keys@.len(),
            decreases self.keys@.len() - i,
        {
            self.keys[i].store(0, Ordering::Relaxed);
            self.data[i].store(0, Ordering::Relaxed);
            i += 1;
        }
    }
}

} // verus!
