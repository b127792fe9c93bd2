use vstd::prelude::*;
use crate::types::{
    Move, Piece, MAILBOX_SIZE, MOVE_NONE, mv_captured, mv_from, mv_is_promotion, mv_to,
    spec_mv_captured, spec_mv_from, spec_mv_is_promotion, spec_mv_to,
};

verus! {

// ─── SEE piece values ────────────────────────────────────────────

/// Piece value by kind for exchange estimates: Rook 500, Knight 325, Catapult
/// and Giraffe 300, Minister 150, royal 10000, Advisor 150, Elephant and Camel
/// 160, Warengine 140, pawn 100.
pub open spec fn spec_see_value(p: Piece) -> int {
    let k = p.kind();
    if k == 0 { 500 }
    else if k == 1 { 325 }
    else if k == 2 { 300 }
    else if k == 3 { 300 }
    else if k == 4 { 150 }
    else if k == 5 { 10000 }
    else if k == 6 { 150 }
    else if k == 7 { 160 }
    else if k == 8 { 160 }
    else if k == 9 { 140 }
    else { 100 }
}

/// Victim value for MVV-LVA ordering.
pub open spec fn spec_victim_value(p: Piece) -> int {
    let k = p.kind();
    if k == 0 { 600 }
    else if k == 1 { 400 }
    else if k == 2 { 350 }
    else if k == 3 { 350 }
    else if k == 4 { 200 }
    else if k == 5 { 9000 }
    else if k == 6 { 200 }
    else if k == 7 { 200 }
    else if k == 8 { 250 }
    else if k == 9 { 200 }
    else { 100 }
}

/// Attacker rank for MVV-LVA ordering (cheaper attackers first).
pub open spec fn spec_attacker_value(p: Piece) -> int {
    let k = p.kind();
    if k == 10 { 1 }
    else if k == 4 { 2 }
    else if k == 6 { 2 }
    else if k == 9 { 3 }
    else if k == 7 { 3 }
    else if k == 8 { 4 }
    else if k == 2 { 5 }
    else if k == 3 { 5 }
    else if k == 1 { 6 }
    else if k == 0 { 7 }
    else { 8 }
}

/// Simple piece values for static exchange estimates.
pub fn see_value(p: Piece) -> (v: i32)
    ensures
        v == spec_see_value(p),
        100 <= v <= 10000,
{
    match p.kind_index() {
        0 => 500,
        1 => 325,
        2 => 300,
        3 => 300,
        4 => 150,
        5 => 10000,
        6 => 150,
        7 => 160,
        8 => 160,
        9 => 140,
        10 => 100,
        _ => 0,
    }
}

fn victim_value(p: Piece) -> (v: i32)
    ensures
        v == spec_victim_value(p),
        100 <= v <= 9000,
{
    match p.kind_index() {
        0 => 600,
        1 => 400,
        2 => 350,
        3 => 350,
        4 => 200,
        5 => 9000,
        6 => 200,
        7 => 200,
        8 => 250,
        9 => 200,
        10 => 100,
        _ => 0,
    }
}

fn attacker_value(p: Piece) -> (v: i32)
    ensures
        v == spec_attacker_value(p),
        1 <= v <= 8,
{
    match p.kind_index() {
        10 => 1,
        4 => 2,
        6 => 2,
        9 => 3,
        7 => 3,
        8 => 4,
        2 => 5,
        3 => 5,
        1 => 6,
        0 => 7,
        5 => 8,
        _ => 10,
    }
}

// ─── Move scoring ────────────────────────────────────────────────

pub const SCORE_TT_MOVE: i32 = 10_000_000;
pub const SCORE_GOOD_CAPTURE: i32 = 5_000_000;
pub const SCORE_CAPTURE_BASE: i32 = 1_000_000;
pub const SCORE_KILLER1: i32 = 900_000;
pub const SCORE_KILLER2: i32 = 800_000;
pub const SCORE_COUNTERMOVE: i32 = 700_000;
pub const SCORE_BAD_CAPTURE: i32 = -100_000;

/// Ordering score of a capture: MVV-LVA on top of a base that is higher when
/// the attacker is worth no more than its victim.
pub open spec fn spec_score_capture(captured: Piece, attacker: Piece) -> int {
    let mvv_lva = spec_victim_value(captured) * 100 - spec_attacker_value(attacker);
    if spec_see_value(attacker) <= spec_see_value(captured) {
        SCORE_GOOD_CAPTURE + mvv_lva
    } else {
        SCORE_CAPTURE_BASE + mvv_lva
    }
}

pub fn score_capture(captured: Piece, attacker: Piece) -> (s: i32)
    ensures
        s == spec_score_capture(captured, attacker),
{
    let mvv_lva = victim_value(captured) * 100 - attacker_value(attacker);
    if see_value(attacker) <= see_value(captured) {
        SCORE_GOOD_CAPTURE + mvv_lva
    } else {
        SCORE_CAPTURE_BASE + mvv_lva
    }
}

// ─── Killer moves ────────────────────────────────────────────────

pub const MAX_PLY: usize = 128;

/// Two killer moves per ply.
pub struct Killers {
    pub moves: [[Move; 2]; MAX_PLY],
}

impl Killers {
    /// First and second killer at a ply.
    pub open spec fn first(&self, ply: int) -> Move {
        self.moves@[ply]@[0]
    }

    pub open spec fn second(&self, ply: int) -> Move {
        self.moves@[ply]@[1]
    }

    pub fn new() -> (k: Self)
        ensures
            forall|p: int| 0 <= p < MAX_PLY ==> #[trigger] k.first(p) == MOVE_NONE && k.second(p) == MOVE_NONE,
    {
        Killers { moves: [[0u32; 2]; 128] }
    }

    /// Records a killer: a new move becomes the first killer and the old first
    /// becomes the second; a move already first changes nothing, nor does a ply
    /// beyond the table.
    pub fn add(&mut self, ply: usize, mv: Move)
        ensures
            forall|p: int| 0 <= p < MAX_PLY && p != ply ==> #[trigger] final(self).moves@[p] == old(self).moves@[p],
            ply < MAX_PLY && old(self).first(ply as int) != mv ==> final(self).first(ply as int) == mv
                && final(self).second(ply as int) == old(self).first(ply as int),
            ply >= MAX_PLY || old(self).first(ply as int) == mv ==> final(self).moves@ == old(self).moves@,
    {
        if ply >= MAX_PLY {
            return;
        }
        if self.moves[ply][0] != mv {
            let first = self.moves[ply][0];
            self.moves[ply] = [mv, first];
        }
    }

    /// The killer score of a move at a ply: first killer, second killer, or none.
    pub fn is_killer(&self, ply: usize, mv: Move) -> (r: Option<i32>)
        ensures
            r == (if ply >= MAX_PLY {
                None
            } else if self.first(ply as int) == mv {
                Some(SCORE_KILLER1)
            } else if self.second(ply as int) == mv {
                Some(SCORE_KILLER2)
            } else {
                None
            }),
    {
        if ply >= MAX_PLY {
            return None;
        }
        if self.moves[ply][0] == mv {
            return Some(SCORE_KILLER1);
        }
        if self.moves[ply][1] == mv {
            return Some(SCORE_KILLER2);
        }
        None
    }
}

// ─── Countermove heuristic ──────────────────────────────────────

/// Best reply per (previous piece kind and colour, previous destination).
pub struct CounterMoveTable {
    pub table: Vec<Vec<Move>>,
}

/// Row of the countermove table for a piece: kind * 2 + colour.
pub open spec fn counter_row(piece: Piece) -> int {
    piece.kind() * 2 + (if piece.white() { 0int } else { 1int })
}

impl CounterMoveTable {
    /// 22 rows of MAILBOX_SIZE entries.
    pub open spec fn wf(&self) -> bool {
        &&& self.table@.len() == 22
        &&& forall|i: int| 0 <= i < 22 ==> #[trigger] self.table@[i]@.len() == MAILBOX_SIZE
    }

    pub open spec fn entry(&self, piece: Piece, to: int) -> Move {
        self.table@[counter_row(piece)]@[to]
    }

    /// The table as nested sequences.
    pub open spec fn rows(&self) -> Seq<Seq<Move>> {
        self.table@.map_values(|r: Vec<Move>| r@)
    }

    pub fn new() -> (t: Self)
        ensures
            t.wf(),
            forall|i: int, j: int| 0 <= i < 22 && 0 <= j < MAILBOX_SIZE ==> #[trigger] t.table@[i]@[j] == MOVE_NONE,
    {
        let mut table: Vec<Vec<Move>> = Vec::new();
        let mut i: usize = 0;
        while i < 22
            invariant
                i <= 22,
                table@.len() == i,
                forall|k: int| 0 <= k < i ==> #[trigger] table@[k]@.len() == MAILBOX_SIZE,
                forall|k: int, j: int| 0 <= k < i && 0 <= j < MAILBOX_SIZE ==> #[trigger] table@[k]@[j] == MOVE_NONE,
            decreases 22 - i,
        {
            let mut row: Vec<Move> = Vec::new();
            let mut j: usize = 0;
            while j < MAILBOX_SIZE
                invariant
                    j <= MAILBOX_SIZE,
                    row@.len() == j,
                    forall|k: int| 0 <= k < j ==> #[trigger] row@[k] == MOVE_NONE,
                decreases MAILBOX_SIZE - j,
            {
                row.push(MOVE_NONE);
                j += 1;
            }
            table.push(row);
            i += 1;
        }
        CounterMoveTable { table }
    }

    fn index(piece: Piece) -> (i: usize)
        ensures
            i == counter_row(piece),
            i < 22,
    {
        let kind = piece.kind_index();
        let color: usize = if piece.is_white() { 0 } else { 1 };
        kind * 2 + color
    }

    /// Records the reply to a previous move (nothing for an empty piece or an
    /// out-of-range square).
    pub fn store(&mut self, prev_piece: Piece, prev_to: usize, counter_mv: Move)
        requires
            old(self).wf(),
        ensures
            final(self).wf(),
            prev_piece == Piece::Empty || prev_to >= MAILBOX_SIZE ==> final(self).rows() == old(self).rows(),
            prev_piece != Piece::Empty && prev_to < MAILBOX_SIZE ==> final(self).rows() == old(self).rows().update(
                counter_row(prev_piece),
                old(self).rows()[counter_row(prev_piece)].update(prev_to as int, counter_mv),
            ),
    {
        if prev_piece == Piece::Empty || prev_to >= MAILBOX_SIZE {
            return;
        }
        let idx = Self::index(prev_piece);
        self.table[idx][prev_to] = counter_mv;
        assert(self.rows() =~= old(self).rows().update(
            counter_row(prev_piece),
            old(self).rows()[counter_row(prev_piece)].update(prev_to as int, counter_mv),
        ));
    }

    /// The stored reply (MOVE_NONE for an empty piece or an out-of-range square).
    pub fn probe(&self, prev_piece: Piece, prev_to: usize) -> (m: Move)
        requires
            self.wf(),
        ensures
            m == (if prev_piece == Piece::Empty || prev_to >= MAILBOX_SIZE {
                MOVE_NONE
            } else {
                self.entry(prev_piece, prev_to as int)
            }),
    {
        if prev_piece == Piece::Empty || prev_to >= MAILBOX_SIZE {
            return MOVE_NONE;
        }
        let idx = Self::index(prev_piece);
        self.table[idx][prev_to]
    }
}


// ─── History heuristic ──────────────────────────────────────────

pub const HIST_SIZE: usize = 72900;

/// Ceiling of history entries kept as an invariant.
pub const HIST_MAX: i32 = 1_000_000_000;

/// Gravity threshold: once an entry passes it, the whole side's table is halved.
pub const HIST_GRAVITY: i32 = 400_000;

/// Butterfly history: one score per (from, to) pair, per side.
pub struct HistoryTable {
    pub white: Vec<i32>,
    pub black: Vec<i32>,
}

/// Halving as i32 division does it (rounding toward zero).
pub open spec fn halve(v: i32) -> i32 {
    if v >= 0 { (v / 2) as i32 } else { (-((-v) / 2)) as i32 }
}

/// A side's table after a bonus `dd` at index `i`: the entry grows by `dd`, and
/// if it then exceeds the gravity threshold, every entry is halved.
pub open spec fn with_bonus(t: Seq<i32>, i: int, dd: int) -> Seq<i32> {
    let t1 = t.update(i, (t[i] + dd) as i32);
    if t1[i] > HIST_GRAVITY {
        t1.map_values(|v: i32| halve(v))
    } else {
        t1
    }
}

/// A side's table after a penalty `dd` at index `i`, floored at -400000.
pub open spec fn with_penalty(t: Seq<i32>, i: int, dd: int) -> Seq<i32> {
    let v = t[i] - dd;
    t.update(i, (if v < -HIST_GRAVITY { -HIST_GRAVITY as int } else { v }) as i32)
}

/// Entries stay between -400000 and HIST_MAX.
pub open spec fn hist_bounded(t: Seq<i32>) -> bool {
    &&& t.len() == HIST_SIZE
    &&& forall|i: int| 0 <= i < HIST_SIZE ==> -HIST_GRAVITY <= #[trigger] t[i] <= HIST_MAX
}

pub open spec fn hist_index(from: int, to: int) -> int {
    from * MAILBOX_SIZE + to
}

fn add_bonus(table: &mut Vec<i32>, i: usize, dd: i32)
    requires
        hist_bounded(old(table)@),
        i < HIST_SIZE,
        0 <= dd <= HIST_MAX,
    ensures
        final(table)@ == with_bonus(old(table)@, i as int, dd as int),
        hist_bounded(final(table)@),
{
    table[i] = table[i] + dd;
    if table[i] > HIST_GRAVITY {
        let ghost t1 = table@;
        let mut j: usize = 0;
        while j < table.len()
            invariant
                table@.len() == HIST_SIZE,
                t1.len() == HIST_SIZE,
                j <= HIST_SIZE,
                forall|k: int| 0 <= k < j ==> #[trigger] table@[k] == halve(t1[k]),
                forall|k: int| j <= k < HIST_SIZE ==> #[trigger] table@[k] == t1[k],
                forall|k: int| 0 <= k < HIST_SIZE ==> -HIST_GRAVITY <= #[trigger] t1[k] <= 2 * HIST_MAX,
            decreases HIST_SIZE - j,
        {
            table[j] = table[j] / 2;
            j += 1;
        }
        assert(table@ =~= t1.map_values(|v: i32| halve(v)));
    }
}

fn add_penalty(table: &mut Vec<i32>, i: usize, dd: i32)
    requires
        hist_bounded(old(table)@),
        i < HIST_SIZE,
        0 <= dd <= HIST_MAX,
    ensures
        final(table)@ == with_penalty(old(table)@, i as int, dd as int),
        hist_bounded(final(table)@),
{
    table[i] = table[i] - dd;
    if table[i] < -HIST_GRAVITY {
        table[i] = -HIST_GRAVITY;
    }
}

impl HistoryTable {
    pub open spec fn wf(&self) -> bool {
        hist_bounded(self.white@) && hist_bounded(self.black@)
    }

    /// The entry for (from, to) of a side.
    pub open spec fn entry(&self, from: int, to: int, is_white: bool) -> i32 {
        if is_white { self.white@[hist_index(from, to)] } else { self.black@[hist_index(from, to)] }
    }

    pub fn new() -> (h: Self)
        ensures
            h.wf(),
            forall|i: int| 0 <= i < HIST_SIZE ==> #[trigger] h.white@[i] == 0 && h.black@[i] == 0,
    {
        let mut white: Vec<i32> = Vec::new();
        let mut black: Vec<i32> = Vec::new();
        let mut i: usize = 0;
        while i < HIST_SIZE
            invariant
                i <= HIST_SIZE,
                white@.len() == i,
                black@.len() == i,
                forall|k: int| 0 <= k < i ==> #[trigger] white@[k] == 0,
                forall|k: int| 0 <= k < i ==> #[trigger] black@[k] == 0,
            decreases HIST_SIZE - i,
        {
            white.push(0);
            black.push(0);
            i += 1;
        }
        HistoryTable { white, black }
    }

    fn idx(from: usize, to: usize) -> (i: usize)
        requires
            from * MAILBOX_SIZE + to <= usize::MAX,
        ensures
            i == hist_index(from as int, to as int),
    {
        from * MAILBOX_SIZE + to
    }

    /// History bonus depth * depth for a move that caused a cutoff; when the
    /// entry passes 400000 the side's whole table is halved.
    pub fn add(&mut self, from: usize, to: usize, depth: i32, is_white: bool)
        requires
            old(self).wf(),
            from * MAILBOX_SIZE + to <= usize::MAX,
            depth * depth <= HIST_MAX,
        ensures
            final(self).wf(),
            hist_index(from as int, to as int) >= HIST_SIZE ==> final(self).white@ == old(self).white@
                && final(self).black@ == old(self).black@,
            hist_index(from as int, to as int) < HIST_SIZE && is_white ==> final(self).white@
                == with_bonus(old(self).white@, hist_index(from as int, to as int), depth * depth)
                && final(self).black@ == old(self).black@,
            hist_index(from as int, to as int) < HIST_SIZE && !is_white ==> final(self).black@
                == with_bonus(old(self).black@, hist_index(from as int, to as int), depth * depth)
                && final(self).white@ == old(self).white@,
    {
        let i = Self::idx(from, to);
        if i >= HIST_SIZE {
            return;
        }
        assert(0 <= depth * depth) by (nonlinear_arith);
        if is_white {
            add_bonus(&mut self.white, i, depth * depth);
        } else {
            add_bonus(&mut self.black, i, depth * depth);
        }
    }

    /// History penalty depth * depth for a quiet move that did not cut off,
    /// floored at -400000.
    pub fn penalize(&mut self, from: usize, to: usize, depth: i32, is_white: bool)
        requires
            old(self).wf(),
            from * MAILBOX_SIZE + to <= usize::MAX,
            depth * depth <= HIST_MAX,
        ensures
            final(self).wf(),
            hist_index(from as int, to as int) >= HIST_SIZE ==> final(self).white@ == old(self).white@
                && final(self).black@ == old(self).black@,
            hist_index(from as int, to as int) < HIST_SIZE && is_white ==> final(self).white@
                == with_penalty(old(self).white@, hist_index(from as int, to as int), depth * depth)
                && final(self).black@ == old(self).black@,
            hist_index(from as int, to as int) < HIST_SIZE && !is_white ==> final(self).black@
                == with_penalty(old(self).black@, hist_index(from as int, to as int), depth * depth)
                && final(self).white@ == old(self).white@,
    {
        let i = Self::idx(from, to);
        if i >= HIST_SIZE {
            return;
        }
        assert(0 <= depth * depth) by (nonlinear_arith);
        if is_white {
            add_penalty(&mut self.white, i, depth * depth);
        } else {
            add_penalty(&mut self.black, i, depth * depth);
        }
    }

    /// The history score of (from, to) for a side (0 outside the table).
    pub fn score(&self, from: usize, to: usize, is_white: bool) -> (s: i32)
        requires
            self.wf(),
            from * MAILBOX_SIZE + to <= usize::MAX,
        ensures
            s == (if hist_index(from as int, to as int) >= HIST_SIZE {
                0
            } else {
                self.entry(from as int, to as int, is_white)
            }),
            -HIST_GRAVITY <= s <= HIST_MAX,
    {
        let i = Self::idx(from, to);
        if i >= HIST_SIZE {
            return 0;
        }
        if is_white { self.white[i] } else { self.black[i] }
    }
}

// ─── Order moves ─────────────────────────────────────────────────

/// Ordering score of one move: the TT move first, then captures (MVV-LVA),
/// promotions, killers, the countermove, and history for the rest.
pub open spec fn move_score(
    mv: Move,
    pieces: Seq<Piece>,
    tt_move: Move,
    killers: Killers,
    history: HistoryTable,
    ply: int,
    countermove: Move,
    is_white: bool,
) -> int {
    if mv == tt_move && tt_move != MOVE_NONE {
        SCORE_TT_MOVE as int
    } else if spec_mv_captured(mv) != Piece::Empty {
        spec_score_capture(spec_mv_captured(mv), pieces[spec_mv_from(mv)])
    } else if spec_mv_is_promotion(mv) {
        SCORE_GOOD_CAPTURE + 100
    } else if ply < MAX_PLY && killers.first(ply) == mv {
        SCORE_KILLER1 as int
    } else if ply < MAX_PLY && killers.second(ply) == mv {
        SCORE_KILLER2 as int
    } else if mv == countermove && countermove != MOVE_NONE {
        SCORE_COUNTERMOVE as int
    } else if hist_index(spec_mv_from(mv), spec_mv_to(mv)) >= HIST_SIZE {
        0
    } else {
        history.entry(spec_mv_from(mv), spec_mv_to(mv), is_white) as int
    }
}

/// Pairs each move with its ordering score, in the same order.
pub fn score_moves(
    moves: &[Move],
    board_pieces: &[Piece],
    tt_move: Move,
    killers: &Killers,
    history: &HistoryTable,
    ply: usize,
    countermove: Move,
    is_white: bool,
) -> (scored: Vec<(Move, i32)>)
    requires
        forall|i: int| 0 <= i < moves@.len() && !(moves@[i] == tt_move && tt_move != MOVE_NONE)
            && spec_mv_captured(#[trigger] moves@[i]) != Piece::Empty ==> spec_mv_from(moves@[i])
            < board_pieces@.len(),
        history.wf(),
    ensures
        scored@.len() == moves@.len(),
        forall|i: int| 0 <= i < moves@.len() ==> #[trigger] scored@[i].0 == moves@[i]
            && scored@[i].1 == move_score(moves@[i], board_pieces@, tt_move, *killers, *history, ply as int, countermove, is_white),
{
    let mut scored: Vec<(Move, i32)> = Vec::new();
    let mut i: usize = 0;
    while i < moves.len()
        invariant
            i <= moves@.len(),
            forall|i: int| 0 <= i < moves@.len() && !(moves@[i] == tt_move && tt_move != MOVE_NONE)
                && spec_mv_captured(#[trigger] moves@[i]) != Piece::Empty ==> spec_mv_from(moves@[i])
                < board_pieces@.len(),
            history.wf(),
            scored@.len() == i,
            forall|j: int| 0 <= j < i ==> #[trigger] scored@[j].0 == moves@[j]
                && scored@[j].1 == move_score(moves@[j], board_pieces@, tt_move, *killers, *history, ply as int, countermove, is_white),
        decreases moves@.len() - i,
    {
        let mv = moves[i];
        let score: i32;
        if mv == tt_move && tt_move != MOVE_NONE {
            score = SCORE_TT_MOVE;
        } else {
            let captured = mv_captured(mv);
            if captured != Piece::Empty {
                let from_sq = mv_from(mv);
                let attacker = board_pieces[from_sq];
                score = score_capture(captured, attacker);
            } else if mv_is_promotion(mv) {
                score = SCORE_GOOD_CAPTURE + 100;
            } else if let Some(ks) = killers.is_killer(ply, mv) {
                score = ks;
            } else if mv == countermove && countermove != MOVE_NONE {
                score = SCORE_COUNTERMOVE;
            } else {
                let from = mv_from(mv);
                let to = mv_to(mv);
                score = history.score(from, to, is_white);
            }
        }
        assert(score == move_score(mv, board_pieces@, tt_move, *killers, *history, ply as int, countermove, is_white));
        let ghost prev = scored@;
        scored.push((mv, score));
        assert(forall|j: int| 0 <= j < i ==> scored@[j] == prev[j]);
        i += 1;
    }
    scored
}

/// Index of the first entry with the highest score among positions start..n.
pub open spec fn best_index(s: Seq<(Move, i32)>, start: int, n: int) -> int
    decreases n - start,
{
    if n <= start + 1 {
        start
    } else {
        let b = best_index(s, start, n - 1);
        if s[n - 1].1 > s[b].1 { n - 1 } else { b }
    }
}

/// The best-scored remaining move is swapped to `start` and returned
/// (selection sort, one step).
pub fn pick_best(moves: &mut [(Move, i32)], start: usize) -> (m: Move)
    requires
        start < old(moves)@.len(),
    ensures
        ({
            let b = best_index(old(moves)@, start as int, old(moves)@.len() as int);
            &&& final(moves)@ == old(moves)@.update(start as int, old(moves)@[b]).update(b, old(moves)@[start as int])
            &&& m == old(moves)@[b].0
            &&& start <= b < old(moves)@.len()
        }),
{
    let mut best_idx = start;
    let mut best_score = moves[start].1;
    let mut i = start + 1;
    while i < moves.len()
        invariant
            start < moves@.len(),
            start + 1 <= i <= moves@.len(),
            moves@ == old(moves)@,
            best_idx == best_index(moves@, start as int, i as int),
            start <= best_idx < i,
            best_score == moves@[best_idx as int].1,
        decreases moves@.len() - i,
    {
        if moves[i].1 > best_score {
            best_score = moves[i].1;
            best_idx = i;
        }
        i += 1;
    }
    let a = moves[start];
    let b = moves[best_idx];
    moves[start] = b;
    moves[best_idx] = a;
    moves[start].0
}

/// Picking the best puts an entry whose score is at least that of every
/// remaining entry at `start`.
pub proof fn lemma_best_index(s: Seq<(Move, i32)>, start: int, n: int)
    requires
        0 <= start < n <= s.len(),
    ensures
        start <= best_index(s, start, n) < n,
        forall|j: int| start <= j < n ==> #[trigger] s[j].1 <= s[best_index(s, start, n)].1,
    decreases n - start,
{
    if n > start + 1 {
        lemma_best_index(s, start, n - 1);
    }
}

} // verus!
